//! The names of the files that keep the stages of a state update, one set
//! per block and per state update of the block.

use vstd::prelude::*;
use vstd::string::StringExecFns;
use crate::arith::radix_digits;
use crate::felt::{Felt, values};

verus! {

/// Why no file can be named.
#[derive(Debug, Clone, Copy, PartialEq, Eq, Structural)]
pub enum DumpError {
    /// A block follows a later one.
    BlockOrder { block: u64, last: u64 },
    /// A block has more state updates than can be counted.
    TooManyRepeats,
    /// No block was set.
    BlockNotSet,
}

/// What to do to keep a sequence: the file to write, and the file of an
/// earlier sequence to remove after it.
#[derive(Debug)]
pub struct DumpAction {
    pub target: Option<String>,
    pub doomed: Option<String>,
}

/// The text that keeps a sequence: one line for every element, each in
/// hexadecimal behind `0x`.
pub open spec fn dump_text(seq: Seq<nat>) -> Seq<char>
    decreases seq.len(),
{
    if seq.len() == 0 {
        Seq::empty()
    } else {
        dump_text(seq.drop_last()) + seq!['0', 'x'] + radix_digits(seq.last(), 16) + seq!['\n']
    }
}

/// The text that keeps a sequence, for the file that is to hold it.
pub fn uncond_dump(seq: &Vec<Felt>) -> (r: String)
    ensures
        r@ == dump_text(values(seq@)),
{
    proof {
        reveal_strlit("\n");
    }
    let mut text = String::new();
    let mut i: usize = 0;
    assert(values(seq@).take(0) =~= Seq::empty());
    while i < seq.len()
        invariant
            i <= seq@.len(),
            "\n"@ == seq!['\n'],
            text@ == dump_text(values(seq@).take(i as int)),
        decreases seq@.len() - i,
    {
        proof {
            assert(values(seq@).take(i + 1).drop_last() =~= values(seq@).take(i as int));
        }
        let line = seq[i].to_hex();
        text.append(line.as_str());
        text.append("\n");
        i = i + 1;
    }
    assert(values(seq@).take(i as int) =~= values(seq@));
    text
}

/// The state that names the files.
pub struct Dumper {
    dump: bool,
    cache_dir: String,
    prune: bool,
    doomed: Option<String>,
    cur_block_no: Option<u64>,
    // 0 when cur_block_no not set
    cur_block_repeat: u32,
}

/// The settings of a dumper, the state update that it stands at, and the
/// file that it is to remove next.
pub struct DumperView {
    pub dump: bool,
    pub cache_dir: Seq<char>,
    pub prune: bool,
    pub doomed: Option<Seq<char>>,
    pub cur_block_no: Option<u64>,
    pub cur_block_repeat: u32,
}

/// The text of a string that may be missing.
pub open spec fn option_text(s: Option<String>) -> Option<Seq<char>> {
    match s {
        Some(s) => Some(s@),
        None => None,
    }
}

/// The name of the file of a block: the number of the block, the number of
/// the state update behind a hyphen unless it is the first of the block, and
/// the extension behind a dot.
pub open spec fn file_name(block_no: u64, repeat: u32, ext: Seq<char>) -> Seq<char> {
    radix_digits(block_no as nat, 10) + (if repeat > 0 {
        seq!['-'] + radix_digits(repeat as nat, 10)
    } else {
        Seq::empty()
    }) + seq!['.'] + ext
}

impl DumperView {
    /// The move to a state update of the given block: to the first of a later
    /// block, or to one more of the same block; never back.
    pub open spec fn spec_set_block_no(self, cur_block_no: u64) -> (
        Result<(), DumpError>,
        DumperView,
    ) {
        match self.cur_block_no {
            Some(last) => if cur_block_no < last {
                (Err(DumpError::BlockOrder { block: cur_block_no, last }), self)
            } else if cur_block_no == last {
                if self.cur_block_repeat == u32::MAX {
                    (Err(DumpError::TooManyRepeats), self)
                } else {
                    (
                        Ok(()),
                        DumperView {
                            cur_block_repeat: (self.cur_block_repeat + 1) as u32,
                            ..self
                        },
                    )
                }
            } else {
                (
                    Ok(()),
                    DumperView { cur_block_no: Some(cur_block_no), cur_block_repeat: 0, ..self },
                )
            },
            None => (Ok(()), DumperView { cur_block_no: Some(cur_block_no), ..self }),
        }
    }

    /// The name of the file with the given extension for the current state
    /// update.
    pub open spec fn spec_dump_target(self, ext: Seq<char>) -> Result<Seq<char>, DumpError> {
        match self.cur_block_no {
            None => Err(DumpError::BlockNotSet),
            Some(block_no) => Ok(file_name(block_no, self.cur_block_repeat, ext)),
        }
    }
}

impl View for Dumper {
    type V = DumperView;

    closed spec fn view(&self) -> DumperView {
        DumperView {
            dump: self.dump,
            cache_dir: self.cache_dir@,
            prune: self.prune,
            doomed: option_text(self.doomed),
            cur_block_no: self.cur_block_no,
            cur_block_repeat: self.cur_block_repeat,
        }
    }
}

impl Dumper {
    /// A dumper before the first block.
    pub fn new(dump: bool, cache_dir: String, prune: bool) -> (r: Dumper)
        ensures
            r@ == (DumperView {
                dump,
                cache_dir: cache_dir@,
                prune,
                doomed: None,
                cur_block_no: None,
                cur_block_repeat: 0,
            }),
    {
        Dumper { dump, cache_dir, prune, doomed: None, cur_block_no: None, cur_block_repeat: 0 }
    }

    /// The directory of the files.
    pub fn cache_dir(&self) -> (r: &String)
        ensures
            r@ == self@.cache_dir,
    {
        &self.cache_dir
    }

    /// Moves on to a state update of the given block, which may be the
    /// block of the one before but none before that.
    pub fn set_block_no(&mut self, cur_block_no: u64) -> (r: Result<(), DumpError>)
        ensures
            r == old(self)@.spec_set_block_no(cur_block_no).0,
            final(self)@ == old(self)@.spec_set_block_no(cur_block_no).1,
    {
        if let Some(last_block_no) = self.cur_block_no {
            if cur_block_no < last_block_no {
                return Err(DumpError::BlockOrder { block: cur_block_no, last: last_block_no });
            } else if cur_block_no == last_block_no {
                // some blocks have several state updates, with different
                // blobs, so the block number alone does not name a file
                if self.cur_block_repeat == u32::MAX {
                    return Err(DumpError::TooManyRepeats);
                }
                self.cur_block_repeat = self.cur_block_repeat + 1;
                return Ok(());
            } else {
                self.cur_block_repeat = 0;
            }
        }
        self.cur_block_no = Some(cur_block_no);
        Ok(())
    }

    /// The name of the file with the given extension for the current state
    /// update.
    pub fn make_dump_target(&self, ext: &str) -> (r: Result<String, DumpError>)
        ensures
            match r {
                Ok(name) => self@.spec_dump_target(ext@) == Ok::<Seq<char>, DumpError>(name@),
                Err(e) => self@.spec_dump_target(ext@) == Err::<Seq<char>, DumpError>(e),
            },
    {
        let block_no = match self.cur_block_no {
            None => {
                return Err(DumpError::BlockNotSet);
            },
            Some(block_no) => block_no,
        };
        proof {
            reveal_strlit("-");
            reveal_strlit(".");
        }
        let mut name = Felt::from_u64(block_no).to_decimal();
        if self.cur_block_repeat > 0 {
            name.append("-");
            let repeat = Felt::from_u64(self.cur_block_repeat as u64).to_decimal();
            name.append(repeat.as_str());
        }
        name.append(".");
        name.append(ext);
        assert(name@ =~= file_name(block_no, self.cur_block_repeat, ext@));
        Ok(name)
    }

    /// What to do with a sequence that was fetched: nothing unless
    /// sequences are kept; else the file to write and, where only the last
    /// sequence is kept, the one before to remove.
    pub fn cond_dump(&mut self) -> (r: Result<DumpAction, DumpError>)
        ensures
            match r {
                Ok(action) => {
                    &&& !old(self)@.dump ==> action.target is None && action.doomed is None
                        && final(self)@ == old(self)@
                    &&& old(self)@.dump ==> old(self)@.spec_dump_target("seq"@) == Ok::<
                        Seq<char>,
                        DumpError,
                    >(action.target->Some_0@) && action.target is Some
                    &&& old(self)@.dump && !old(self)@.prune ==> action.doomed is None && final(self)@ == old(self)@
                    &&& old(self)@.dump && old(self)@.prune ==> option_text(action.doomed) == old(
                        self,
                    )@.doomed && final(self)@ == (DumperView {
                        doomed: option_text(action.target),
                        ..old(self)@
                    })
                },
                Err(e) => old(self)@.dump && old(self)@.spec_dump_target("seq"@) == Err::<
                    Seq<char>,
                    DumpError,
                >(e) && final(self)@ == old(self)@,
            },
    {
        if self.dump {
            let seq_path = match self.make_dump_target("seq") {
                Err(e) => {
                    return Err(e);
                },
                Ok(seq_path) => seq_path,
            };
            if self.prune {
                let doomed = self.doomed.take();
                self.doomed = Some(seq_path.clone());
                Ok(DumpAction { target: Some(seq_path), doomed })
            } else {
                Ok(DumpAction { target: Some(seq_path), doomed: None })
            }
        } else {
            Ok(DumpAction { target: None, doomed: None })
        }
    }
}

} // verus!
