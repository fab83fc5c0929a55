//! The way of a sequence of field elements to its state diff: the format
//! it is in, its decompression where it is compressed, its parsing, and the
//! check against the block sequence number that was logged for it.

use vstd::prelude::*;
use vstd::string::StringExecFns;
use crate::arith::radix_digits;
use crate::decomp::{DecompError, Decompressor, spec_decompress};
use crate::felt::{Felt, values};
use crate::lookup::Lookup;
use crate::packing::{PackConst, PackLayout};
use crate::packing::v0_13_1;
use crate::packing::v0_13_3;
use crate::parser::{Annotation, ParseError, StateUpdateParser, annotation_views, spec_parse};
use crate::state_diff::{StateDiff, StateDiffView};

verus! {

/// The format version of a state update.
#[derive(Debug, Clone, Copy, PartialEq, Eq, Structural)]
pub enum FormatVersion {
    V0_13_1,
    V0_13_3,
}

/// Why a sequence gave no state diff.
#[derive(Debug, Clone, Copy, PartialEq, Eq, Structural)]
pub enum ProcessError {
    EmptySequence,
    Decompress(DecompError),
    Parse(ParseError),
    /// The sequence number that the storage of the sentinel contract gives
    /// is not the one that was logged.
    SeqNoMismatch { logged: u64, parsed: u64 },
    /// A sequence number leaves the `u64`.
    SeqNoOverflow,
}

/// A sequence that is ready for the parser.
#[derive(Debug)]
pub struct Prepared {
    pub seq: Vec<Felt>,
    pub version: FormatVersion,
    /// The number of zero elements behind the compressed payload, where the
    /// sequence was decompressed.
    pub tail_size: Option<usize>,
}

/// A prepared sequence with the numbers of its elements.
pub struct PreparedView {
    pub seq: Seq<nat>,
    pub version: FormatVersion,
    pub tail_size: Option<nat>,
}

impl View for Prepared {
    type V = PreparedView;

    open spec fn view(&self) -> PreparedView {
        PreparedView {
            seq: values(self.seq@),
            version: self.version,
            tail_size: match self.tail_size {
                Some(n) => Some(n as nat),
                None => None,
            },
        }
    }
}

/// The layout of a format version.
pub open spec fn layout_of(version: FormatVersion) -> PackLayout {
    match version {
        FormatVersion::V0_13_1 => v0_13_1::layout(),
        FormatVersion::V0_13_3 => v0_13_3::layout(),
    }
}

/// The constants of a format version.
pub fn make_pack_const(version: FormatVersion) -> (r: PackConst)
    ensures
        r.wf(),
        r@ == layout_of(version),
{
    match version {
        FormatVersion::V0_13_1 => v0_13_1::make_pack_const(),
        FormatVersion::V0_13_3 => v0_13_3::make_pack_const(),
    }
}

/// The sequence that the parser is to read, and the format to read it in.
/// A sequence that is known to be uncompressed is of the later format. Of
/// the others, one whose first element fits a `usize` is of the earlier
/// format and taken as it stands; any other is compressed and of the later
/// format.
pub open spec fn spec_prepare(input: Seq<nat>, uncompressed: bool) -> Result<
    PreparedView,
    ProcessError,
> {
    if input.len() == 0 {
        Err(ProcessError::EmptySequence)
    } else if uncompressed {
        Ok(PreparedView { seq: input, version: FormatVersion::V0_13_3, tail_size: None })
    } else if input[0] <= usize::MAX {
        Ok(PreparedView { seq: input, version: FormatVersion::V0_13_1, tail_size: None })
    } else {
        match spec_decompress(input) {
            Err(e) => Err(ProcessError::Decompress(e)),
            Ok((seq, tail_size)) => Ok(
                PreparedView { seq, version: FormatVersion::V0_13_3, tail_size: Some(tail_size) },
            ),
        }
    }
}

/// Tells the format of a sequence and decompresses it where it is
/// compressed.
pub fn prepare(seq: Vec<Felt>, uncompressed: bool) -> (r: Result<Prepared, ProcessError>)
    ensures
        match r {
            Ok(p) => spec_prepare(values(seq@), uncompressed) == Ok::<PreparedView, ProcessError>(
                p@,
            ),
            Err(e) => spec_prepare(values(seq@), uncompressed) == Err::<
                PreparedView,
                ProcessError,
            >(e),
        },
{
    if seq.len() == 0 {
        return Err(ProcessError::EmptySequence);
    }
    if uncompressed {
        return Ok(Prepared { seq, version: FormatVersion::V0_13_3, tail_size: None });
    }
    // no certain sign of compression, but an update whose header has all its
    // high bits clear would have to be all but empty
    if seq[0].to_usize().is_some() {
        return Ok(Prepared { seq, version: FormatVersion::V0_13_1, tail_size: None });
    }
    match Decompressor::decompress(seq) {
        Err(e) => Err(ProcessError::Decompress(e)),
        Ok((unc, tail_size)) => Ok(
            Prepared { seq: unc, version: FormatVersion::V0_13_3, tail_size: Some(tail_size) },
        ),
    }
}

/// A state diff with the block sequence numbers that it spans.
#[derive(Debug)]
pub struct Parsed {
    pub state_diff: StateDiff,
    pub from_seq_no: u64,
    pub to_seq_no: u64,
}

/// The sequence number that a key of the sentinel contract stands for: the
/// key is ten behind it. Without a key it is zero.
pub open spec fn spec_seq_no(key: Option<u64>) -> Option<u64> {
    match key {
        None => Some(0u64),
        Some(n) => if n + 10 <= u64::MAX {
            Some((n + 10) as u64)
        } else {
            None
        },
    }
}

fn seq_no_of(key: Option<u64>) -> (r: Option<u64>)
    ensures
        r == spec_seq_no(key),
{
    match key {
        None => Some(0),
        Some(n) => if n <= u64::MAX - 10 {
            Some(n + 10)
        } else {
            None
        },
    }
}

/// What becomes of a state diff that was parsed: its sequence numbers are
/// worked out, and the last has to be the one that was logged, if one was.
pub open spec fn spec_check(diff: StateDiffView, seq_no: Option<u64>) -> Result<
    (u64, u64),
    ProcessError,
> {
    match spec_seq_no(diff.range.max_seq_no) {
        None => Err(ProcessError::SeqNoOverflow),
        Some(to_seq_no) => if seq_no is Some && seq_no != Some(to_seq_no) {
            Err(ProcessError::SeqNoMismatch { logged: seq_no->Some_0, parsed: to_seq_no })
        } else {
            match spec_seq_no(diff.range.min_seq_no) {
                None => Err(ProcessError::SeqNoOverflow),
                Some(from_seq_no) => Ok((from_seq_no, to_seq_no)),
            }
        },
    }
}

/// Parses a prepared sequence and checks the state diff against the block
/// sequence number that was logged for it.
pub fn do_parse(
    lookup: &mut Lookup,
    prepared: Prepared,
    seq_no: Option<u64>,
    anno_dump: &mut Vec<Annotation>,
) -> (r: Result<Parsed, ProcessError>)
    requires
        old(lookup).wf(),
    ensures
        final(lookup).wf(),
        ({
            let parsed = spec_parse(prepared@.seq, layout_of(prepared.version), old(lookup)@);
            &&& final(lookup)@ == parsed.1.lookup
            &&& annotation_views(final(anno_dump)@) == annotation_views(old(anno_dump)@)
                + parsed.1.anno
            &&& match r {
                Ok(p) => parsed.0 == Ok::<StateDiffView, ParseError>(p.state_diff@) && spec_check(
                    p.state_diff@,
                    seq_no,
                ) == Ok::<(u64, u64), ProcessError>((p.from_seq_no, p.to_seq_no)),
                Err(e) => match parsed.0 {
                    Err(pe) => e == ProcessError::Parse(pe),
                    Ok(diff) => spec_check(diff, seq_no) == Err::<(u64, u64), ProcessError>(e),
                },
            }
        }),
{
    let unpacker = make_pack_const(prepared.version);
    let state_diff = match StateUpdateParser::parse(prepared.seq, unpacker, lookup, anno_dump) {
        Err(e) => {
            return Err(ProcessError::Parse(e));
        },
        Ok(state_diff) => state_diff,
    };
    let to_seq_no = match seq_no_of(state_diff.range.max_seq_no) {
        None => {
            return Err(ProcessError::SeqNoOverflow);
        },
        Some(to_seq_no) => to_seq_no,
    };
    if let Some(log_seq_no) = seq_no {
        if log_seq_no != to_seq_no {
            return Err(ProcessError::SeqNoMismatch { logged: log_seq_no, parsed: to_seq_no });
        }
    }
    let from_seq_no = match seq_no_of(state_diff.range.min_seq_no) {
        None => {
            return Err(ProcessError::SeqNoOverflow);
        },
        Some(from_seq_no) => from_seq_no,
    };
    Ok(Parsed { state_diff, from_seq_no, to_seq_no })
}

/// The name of the file that keeps the projection of a state diff.
pub fn json_file_name(from_seq_no: u64, to_seq_no: u64) -> (r: String)
    ensures
        r@ == radix_digits(from_seq_no as nat, 10) + seq!['-'] + radix_digits(to_seq_no as nat, 10)
            + ".json"@,
{
    proof {
        reveal_strlit("-");
    }
    let mut name = Felt::from_u64(from_seq_no).to_decimal();
    name.append("-");
    let to = Felt::from_u64(to_seq_no).to_decimal();
    name.append(to.as_str());
    name.append(".json");
    assert(name@ =~= radix_digits(from_seq_no as nat, 10) + seq!['-'] + radix_digits(
        to_seq_no as nat,
        10,
    ) + ".json"@);
    name
}

} // verus!
