//! The parser of a state diff: a sequence of field elements read front to
//! back, with the dictionary of stateful compression consulted and filled on
//! the way.

use vstd::prelude::*;
use vstd::string::StringExecFns;
use crate::arith::radix_digits;
use crate::felt::{Felt, values};
use crate::lookup::{Lookup, LookupError, LookupView, START_INDEX};
use crate::packing::{PackConst, PackError, PackLayout};
use crate::state_diff::{
    BlockRange,
    ClassDeclaration,
    ClassDeclarationView,
    ContractUpdate,
    ContractUpdateView,
    StateDiff,
    StateDiffView,
    StorageUpdate,
    StorageUpdateView,
    storage_views,
    contract_views,
    declaration_views,
};

verus! {

/// How far the current blob has gone into stateful compression.
#[derive(Debug, Clone, Copy, PartialEq, Eq, Structural)]
pub enum LookupUsageState {
    /// Addresses and keys are read as they stand.
    Off,
    /// The contract that records block sequence numbers was seen.
    One,
    /// The contract whose storage fills the dictionary is being read.
    Expand,
    /// Addresses and keys are indices into the dictionary.
    On,
}

/// Why a storage update was refused.
#[derive(Debug, Clone, Copy, PartialEq, Eq, Structural)]
pub enum StorageError {
    MissingKey,
    MissingValue,
    /// A key of the sequence number contract does not fit a `u64`.
    SeqNoTooLarge,
    /// A value of the alias contract does not fit an index.
    AliasIndexTooLarge,
    /// A compressed key does not fit an index.
    KeyIndexTooLarge,
    Lookup(LookupError),
}

/// Why a contract update was refused.
#[derive(Debug, Clone, Copy, PartialEq, Eq, Structural)]
pub enum ContractError {
    MissingAddress,
    ZeroAddress,
    /// A contract follows the one that fills the dictionary.
    UnexpectedAddress,
    /// A compressed address does not fit an index.
    AddressIndexTooLarge,
    Lookup(LookupError),
    MissingPacked,
    Unpack(PackError),
    MissingClassHash,
    /// The storage update at `index`, of `of`, was refused.
    Storage { index: u64, of: u64, kind: StorageError },
}

/// Why a class declaration was refused.
#[derive(Debug, Clone, Copy, PartialEq, Eq, Structural)]
pub enum DeclarationError {
    MissingClassHash,
    MissingCompiledClassHash,
}

/// Why a state diff was refused.
#[derive(Debug, Clone, Copy, PartialEq, Eq, Structural)]
#[allow(inconsistent_fields)]
pub enum ParseError {
    MissingContractCount,
    ContractCountTooLarge,
    /// The contract update at `index`, of `of`, was refused.
    Contract { index: usize, of: usize, kind: ContractError },
    MissingDeclarationCount,
    DeclarationCountTooLarge,
    /// The class declaration at `index`, of `of`, was refused.
    Declaration { index: usize, of: usize, kind: DeclarationError },
    /// An element after the payload is not zero.
    ExtraTail,
}

/// What the parser took an element for.
#[derive(Debug, Clone)]
pub enum Annotation {
    /// A number of items that follow.
    Count(Felt),
    Address(Felt),
    /// A packed word and what it holds.
    Packed { word: Felt, nonce: u64, update_count: u64, class_flag: bool },
    ClassHash(Felt),
    Key(Felt),
    Value(Felt),
    DeclaredClassHash(Felt),
    CompiledClassHash(Felt),
    /// An element after the payload.
    Tail(Felt),
}

/// An annotation with the number of its element.
pub enum AnnotationView {
    Count(nat),
    Address(nat),
    Packed { word: nat, nonce: u64, update_count: u64, class_flag: bool },
    ClassHash(nat),
    Key(nat),
    Value(nat),
    DeclaredClassHash(nat),
    CompiledClassHash(nat),
    Tail(nat),
}

impl View for Annotation {
    type V = AnnotationView;

    open spec fn view(&self) -> AnnotationView {
        match *self {
            Annotation::Count(f) => AnnotationView::Count(f@),
            Annotation::Address(f) => AnnotationView::Address(f@),
            Annotation::Packed { word, nonce, update_count, class_flag } => AnnotationView::Packed {
                word: word@,
                nonce,
                update_count,
                class_flag,
            },
            Annotation::ClassHash(f) => AnnotationView::ClassHash(f@),
            Annotation::Key(f) => AnnotationView::Key(f@),
            Annotation::Value(f) => AnnotationView::Value(f@),
            Annotation::DeclaredClassHash(f) => AnnotationView::DeclaredClassHash(f@),
            Annotation::CompiledClassHash(f) => AnnotationView::CompiledClassHash(f@),
            Annotation::Tail(f) => AnnotationView::Tail(f@),
        }
    }
}

impl AnnotationView {
    /// The element that the annotation is about.
    pub open spec fn element(self) -> nat {
        match self {
            AnnotationView::Count(f) => f,
            AnnotationView::Address(f) => f,
            AnnotationView::Packed { word, .. } => word,
            AnnotationView::ClassHash(f) => f,
            AnnotationView::Key(f) => f,
            AnnotationView::Value(f) => f,
            AnnotationView::DeclaredClassHash(f) => f,
            AnnotationView::CompiledClassHash(f) => f,
            AnnotationView::Tail(f) => f,
        }
    }
}

impl AnnotationView {
    /// The line that notes the element: a number of items in decimal, a
    /// packed word in binary with what it holds, and anything else in
    /// hexadecimal behind a letter for what it is.
    pub open spec fn spec_line(self) -> Seq<char> {
        match self {
            AnnotationView::Count(f) => radix_digits(f, 10),
            AnnotationView::Address(f) => "a: 0x"@ + radix_digits(f, 16),
            AnnotationView::Packed { word, nonce, update_count, class_flag } => seq!['0', 'b']
                + radix_digits(word, 2) + " -> n: "@ + radix_digits(nonce as nat, 10) + ", c: "@
                + radix_digits(update_count as nat, 10) + ", f: "@ + (if class_flag {
                "1"@
            } else {
                "0"@
            }),
            AnnotationView::ClassHash(f) => "h: 0x"@ + radix_digits(f, 16),
            AnnotationView::Key(f) => "k: 0x"@ + radix_digits(f, 16),
            AnnotationView::Value(f) => "v: 0x"@ + radix_digits(f, 16),
            AnnotationView::DeclaredClassHash(f) => "d: 0x"@ + radix_digits(f, 16),
            AnnotationView::CompiledClassHash(f) => "c: 0x"@ + radix_digits(f, 16),
            AnnotationView::Tail(f) => radix_digits(f, 10),
        }
    }
}

fn hex_line(prefix: &str, f: &Felt) -> (r: String)
    ensures
        r@ == prefix@ + radix_digits(f@, 16),
{
    let digits = f.to_str_radix(16);
    String::from_str(prefix).concat(digits.as_str())
}

impl Annotation {
    /// The line that notes the element.
    pub fn to_line(&self) -> (r: String)
        ensures
            r@ == self@.spec_line(),
    {
        match self {
            Annotation::Count(f) => f.to_decimal(),
            Annotation::Address(f) => hex_line("a: 0x", f),
            Annotation::Packed { word, nonce, update_count, class_flag } => {
                let mut line = word.to_binary();
                line.append(" -> n: ");
                line.append(Felt::from_u64(*nonce).to_decimal().as_str());
                line.append(", c: ");
                line.append(Felt::from_u64(*update_count).to_decimal().as_str());
                line.append(", f: ");
                line.append(
                    if *class_flag {
                        "1"
                    } else {
                        "0"
                    },
                );
                line
            },
            Annotation::ClassHash(f) => hex_line("h: 0x", f),
            Annotation::Key(f) => hex_line("k: 0x", f),
            Annotation::Value(f) => hex_line("v: 0x", f),
            Annotation::DeclaredClassHash(f) => hex_line("d: 0x", f),
            Annotation::CompiledClassHash(f) => hex_line("c: 0x", f),
            Annotation::Tail(f) => f.to_decimal(),
        }
    }
}

/// The annotations with the numbers of their elements.
pub open spec fn annotation_views(s: Seq<Annotation>) -> Seq<AnnotationView> {
    Seq::new(s.len(), |i: int| s[i]@)
}

/// The parser between two elements, as contracts see it.
pub struct ParserView {
    /// How many elements were read.
    pub pos: nat,
    pub usage: LookupUsageState,
    pub lookup: LookupView,
    pub range: BlockRange,
    pub anno: Seq<AnnotationView>,
}

impl ParserView {
    /// The parser after it read one more element and noted it.
    pub open spec fn read(self, a: AnnotationView) -> ParserView {
        ParserView { pos: self.pos + 1, anno: self.anno.push(a), ..self }
    }

    /// The parser after it read one more element without a note.
    pub open spec fn skip(self) -> ParserView {
        ParserView { pos: self.pos + 1, ..self }
    }
}

/// The storage update at the parser's position.
#[verifier::opaque]
pub open spec fn spec_storage_update(input: Seq<nat>, st: ParserView) -> (
    Result<StorageUpdateView, StorageError>,
    ParserView,
) {
    if st.pos >= input.len() {
        (Err(StorageError::MissingKey), st)
    } else {
        let key = input[st.pos as int];
        let st1 = st.read(AnnotationView::Key(key));
        if st1.pos >= input.len() {
            (Err(StorageError::MissingValue), st1)
        } else {
            let value = input[st1.pos as int];
            let st2 = st1.read(AnnotationView::Value(value));
            let plain = StorageUpdateView { key, value };
            match st.usage {
                LookupUsageState::Off => (Ok(plain), st2),
                LookupUsageState::One => if key > u64::MAX {
                    (Err(StorageError::SeqNoTooLarge), st2)
                } else {
                    (Ok(plain), ParserView { range: st2.range.spec_with(key as u64), ..st2 })
                },
                LookupUsageState::Expand => if key == 0 {
                    (Ok(plain), st2)
                } else if value > usize::MAX {
                    (Err(StorageError::AliasIndexTooLarge), st2)
                } else {
                    let (r, lookup) = st2.lookup.spec_record(value as u64, key);
                    match r {
                        Err(e) => (Err(StorageError::Lookup(e)), ParserView { lookup, ..st2 }),
                        Ok(_) => (Ok(plain), ParserView { lookup, ..st2 }),
                    }
                },
                LookupUsageState::On => if key >= START_INDEX {
                    if key > usize::MAX {
                        (Err(StorageError::KeyIndexTooLarge), st2)
                    } else {
                        match st2.lookup.spec_get(key as u64) {
                            Err(e) => (Err(StorageError::Lookup(e)), st2),
                            Ok(found) => (Ok(StorageUpdateView { key: found, value }), st2),
                        }
                    }
                } else {
                    (Ok(plain), st2)
                },
            }
        }
    }
}

/// The first `n` of `of` storage updates from the parser's position.
pub open spec fn spec_storage_updates(input: Seq<nat>, st: ParserView, of: u64, n: nat) -> (
    Result<Seq<StorageUpdateView>, ContractError>,
    ParserView,
)
    decreases n,
{
    if n == 0 {
        (Ok(Seq::empty()), st)
    } else {
        let (before, st1) = spec_storage_updates(input, st, of, (n - 1) as nat);
        match before {
            Err(e) => (Err(e), st1),
            Ok(updates) => {
                let (r, st2) = spec_storage_update(input, st1);
                match r {
                    Err(e) => (
                        Err(ContractError::Storage { index: (n - 1) as u64, of, kind: e }),
                        st2,
                    ),
                    Ok(update) => (Ok(updates.push(update)), st2),
                }
            },
        }
    }
}

/// The address that a contract update names, and the state that follows it.
pub open spec fn spec_resolve_address(address: nat, st: ParserView) -> (
    Result<nat, ContractError>,
    LookupUsageState,
) {
    match st.usage {
        LookupUsageState::Off => (
            Ok(address),
            if address == 1 {
                LookupUsageState::One
            } else {
                LookupUsageState::Off
            },
        ),
        LookupUsageState::One => if address == 2 {
            (Ok(address), LookupUsageState::Expand)
        } else {
            match st.lookup.spec_is_on() {
                Err(e) => (Err(ContractError::Lookup(e)), LookupUsageState::One),
                Ok(on) => if on && address > 2 {
                    if address > usize::MAX {
                        (Err(ContractError::AddressIndexTooLarge), LookupUsageState::One)
                    } else {
                        match st.lookup.spec_get(address as u64) {
                            Err(e) => (Err(ContractError::Lookup(e)), LookupUsageState::One),
                            Ok(found) => (Ok(found), LookupUsageState::On),
                        }
                    }
                } else {
                    (Ok(address), LookupUsageState::Off)
                },
            }
        },
        LookupUsageState::Expand => (
            Err(ContractError::UnexpectedAddress),
            LookupUsageState::Expand,
        ),
        LookupUsageState::On => if address > usize::MAX {
            (Err(ContractError::AddressIndexTooLarge), LookupUsageState::On)
        } else {
            match st.lookup.spec_get(address as u64) {
                Err(e) => (Err(ContractError::Lookup(e)), LookupUsageState::On),
                Ok(found) => (Ok(found), LookupUsageState::On),
            }
        },
    }
}

/// The contract update at the parser's position.
#[verifier::opaque]
pub open spec fn spec_contract_update(input: Seq<nat>, pc: PackLayout, st: ParserView) -> (
    Result<ContractUpdateView, ContractError>,
    ParserView,
) {
    if st.pos >= input.len() {
        (Err(ContractError::MissingAddress), st)
    } else {
        let address = input[st.pos as int];
        let st1 = st.read(AnnotationView::Address(address));
        if address == 0 {
            (Err(ContractError::ZeroAddress), st1)
        } else {
            let (resolved, usage) = spec_resolve_address(address, st1);
            let st2 = ParserView { usage, ..st1 };
            match resolved {
                Err(e) => (Err(e), st2),
                Ok(addr) => if st2.pos >= input.len() {
                    (Err(ContractError::MissingPacked), st2)
                } else {
                    let word = input[st2.pos as int];
                    match pc.spec_unpack(word) {
                        Err(e) => (Err(ContractError::Unpack(e)), st2.skip()),
                        Ok((class_flag, nonce, update_count)) => {
                            let st3 = st2.read(
                                AnnotationView::Packed { word, nonce, update_count, class_flag },
                            );
                            if class_flag && st3.pos >= input.len() {
                                (Err(ContractError::MissingClassHash), st3)
                            } else {
                                let st4 = if class_flag {
                                    st3.read(AnnotationView::ClassHash(input[st3.pos as int]))
                                } else {
                                    st3
                                };
                                let new_class_hash = if class_flag {
                                    Some(input[st3.pos as int])
                                } else {
                                    None
                                };
                                let (r, st5) = spec_storage_updates(
                                    input,
                                    st4,
                                    update_count,
                                    update_count as nat,
                                );
                                match r {
                                    Err(e) => (Err(e), st5),
                                    Ok(storage_updates) => {
                                        let update = ContractUpdateView {
                                            address: addr,
                                            nonce,
                                            new_class_hash,
                                            storage_updates,
                                        };
                                        if st5.usage == LookupUsageState::Expand {
                                            let (committed, lookup) = st5.lookup.spec_expand();
                                            match committed {
                                                Err(e) => (
                                                    Err(ContractError::Lookup(e)),
                                                    ParserView { lookup, ..st5 },
                                                ),
                                                Ok(_) => (
                                                    Ok(update),
                                                    ParserView {
                                                        lookup,
                                                        usage: LookupUsageState::On,
                                                        ..st5
                                                    },
                                                ),
                                            }
                                        } else {
                                            (Ok(update), st5)
                                        }
                                    },
                                }
                            }
                        },
                    }
                },
            }
        }
    }
}

/// The first `n` of `of` contract updates from the parser's position.
pub open spec fn spec_contract_updates(
    input: Seq<nat>,
    pc: PackLayout,
    st: ParserView,
    of: usize,
    n: nat,
) -> (Result<Seq<ContractUpdateView>, ParseError>, ParserView)
    decreases n,
{
    if n == 0 {
        (Ok(Seq::empty()), st)
    } else {
        let (before, st1) = spec_contract_updates(input, pc, st, of, (n - 1) as nat);
        match before {
            Err(e) => (Err(e), st1),
            Ok(updates) => {
                let (r, st2) = spec_contract_update(input, pc, st1);
                match r {
                    Err(e) => (
                        Err(ParseError::Contract { index: (n - 1) as usize, of, kind: e }),
                        st2,
                    ),
                    Ok(update) => (Ok(updates.push(update)), st2),
                }
            },
        }
    }
}

/// The class declaration at the parser's position.
#[verifier::opaque]
pub open spec fn spec_class_declaration(input: Seq<nat>, st: ParserView) -> (
    Result<ClassDeclarationView, DeclarationError>,
    ParserView,
) {
    if st.pos >= input.len() {
        (Err(DeclarationError::MissingClassHash), st)
    } else {
        let class_hash = input[st.pos as int];
        let st1 = st.read(AnnotationView::DeclaredClassHash(class_hash));
        if st1.pos >= input.len() {
            (Err(DeclarationError::MissingCompiledClassHash), st1)
        } else {
            let compiled_class_hash = input[st1.pos as int];
            (
                Ok(ClassDeclarationView { class_hash, compiled_class_hash }),
                st1.read(AnnotationView::CompiledClassHash(compiled_class_hash)),
            )
        }
    }
}

/// The first `n` of `of` class declarations from the parser's position.
pub open spec fn spec_class_declarations(input: Seq<nat>, st: ParserView, of: usize, n: nat) -> (
    Result<Seq<ClassDeclarationView>, ParseError>,
    ParserView,
)
    decreases n,
{
    if n == 0 {
        (Ok(Seq::empty()), st)
    } else {
        let (before, st1) = spec_class_declarations(input, st, of, (n - 1) as nat);
        match before {
            Err(e) => (Err(e), st1),
            Ok(declarations) => {
                let (r, st2) = spec_class_declaration(input, st1);
                match r {
                    Err(e) => (
                        Err(ParseError::Declaration { index: (n - 1) as usize, of, kind: e }),
                        st2,
                    ),
                    Ok(declaration) => (Ok(declarations.push(declaration)), st2),
                }
            },
        }
    }
}

/// The position of the first element from `from` on that is not zero, or
/// the length where all are zero.
pub open spec fn first_nonzero(input: Seq<nat>, from: nat) -> nat
    decreases input.len() - from,
{
    if from >= input.len() {
        input.len()
    } else if input[from as int] != 0 {
        from
    } else {
        first_nonzero(input, from + 1)
    }
}

/// The notes on the elements from `from` up to `to`, taken for the tail.
pub open spec fn tail_notes(input: Seq<nat>, from: nat, to: nat) -> Seq<AnnotationView> {
    Seq::new((to - from) as nat, |i: int| AnnotationView::Tail(input[from + i]))
}

/// The rest of the input, which has to be zero.
pub open spec fn spec_tail(input: Seq<nat>, st: ParserView) -> (
    Result<nat, ParseError>,
    ParserView,
) {
    let stop = first_nonzero(input, st.pos);
    if stop < input.len() {
        (
            Err(ParseError::ExtraTail),
            ParserView {
                pos: stop + 1,
                anno: st.anno + tail_notes(input, st.pos, stop + 1),
                ..st
            },
        )
    } else {
        (
            Ok((input.len() - st.pos) as nat),
            ParserView {
                pos: input.len(),
                anno: st.anno + tail_notes(input, st.pos, input.len()),
                ..st
            },
        )
    }
}

/// The parser before the first element.
pub open spec fn initial(lookup: LookupView) -> ParserView {
    ParserView {
        pos: 0,
        usage: LookupUsageState::Off,
        lookup,
        range: BlockRange { min_seq_no: None, max_seq_no: None },
        anno: Seq::empty(),
    }
}

/// The contract updates of a state diff, with the number that leads them.
pub open spec fn spec_contract_section(input: Seq<nat>, pc: PackLayout, st: ParserView) -> (
    Result<Seq<ContractUpdateView>, ParseError>,
    ParserView,
) {
    if st.pos >= input.len() {
        (Err(ParseError::MissingContractCount), st)
    } else {
        let count = input[st.pos as int];
        let st1 = st.read(AnnotationView::Count(count));
        if count > usize::MAX {
            (Err(ParseError::ContractCountTooLarge), st1)
        } else {
            spec_contract_updates(input, pc, st1, count as usize, count)
        }
    }
}

/// The class declarations of a state diff, with the number that leads them.
pub open spec fn spec_declaration_section(input: Seq<nat>, st: ParserView) -> (
    Result<Seq<ClassDeclarationView>, ParseError>,
    ParserView,
) {
    if st.pos >= input.len() {
        (Err(ParseError::MissingDeclarationCount), st)
    } else {
        let count = input[st.pos as int];
        let st1 = st.read(AnnotationView::Count(count));
        if count > usize::MAX {
            (Err(ParseError::DeclarationCountTooLarge), st1)
        } else {
            spec_class_declarations(input, st1, count as usize, count)
        }
    }
}

/// The state diff that a sequence of elements holds, with the parser as it
/// is left behind.
pub open spec fn spec_parse(input: Seq<nat>, pc: PackLayout, lookup: LookupView) -> (
    Result<StateDiffView, ParseError>,
    ParserView,
) {
    let (contracts, st1) = spec_contract_section(input, pc, initial(lookup));
    match contracts {
        Err(e) => (Err(e), st1),
        Ok(contract_updates) => {
            let (declarations, st2) = spec_declaration_section(input, st1);
            match declarations {
                Err(e) => (Err(e), st2),
                Ok(class_declarations) => {
                    let (tail, st3) = spec_tail(input, st2);
                    match tail {
                        Err(e) => (Err(e), st3),
                        Ok(tail_size) => (
                            Ok(
                                StateDiffView {
                                    contract_updates,
                                    class_declarations,
                                    range: st3.range,
                                    tail_size,
                                },
                            ),
                            st3,
                        ),
                    }
                },
            }
        },
    }
}

/// Storage updates that were read are as many as were asked for.
pub proof fn lemma_storage_updates_len(input: Seq<nat>, st: ParserView, of: u64, n: nat)
    ensures
        spec_storage_updates(input, st, of, n).0 is Ok ==> spec_storage_updates(
            input,
            st,
            of,
            n,
        ).0->Ok_0.len() == n,
    decreases n,
{
    if n > 0 {
        lemma_storage_updates_len(input, st, of, (n - 1) as nat);
    }
}

/// What the packed word of a contract update says of it: the word stands
/// behind the address, and the contract update has the nonce of the word, as
/// many storage updates as the word counts, and a new class hash exactly
/// when the word has the class flag.
pub open spec fn follows_packed_word(
    input: Seq<nat>,
    pc: PackLayout,
    st: ParserView,
    update: ContractUpdateView,
) -> bool {
    &&& st.pos + 1 < input.len()
    &&& match pc.spec_unpack(input[(st.pos + 1) as int]) {
        Ok((class_flag, nonce, update_count)) => {
            &&& update.nonce == nonce
            &&& update.storage_updates.len() == update_count
            &&& (update.new_class_hash is Some) == class_flag
        },
        Err(_) => false,
    }
}

/// A contract update that was read is as its packed word says.
pub proof fn lemma_contract_update_follows_packed_word(
    input: Seq<nat>,
    pc: PackLayout,
    st: ParserView,
)
    ensures
        spec_contract_update(input, pc, st).0 is Ok ==> follows_packed_word(
            input,
            pc,
            st,
            spec_contract_update(input, pc, st).0->Ok_0,
        ),
{
    reveal(spec_contract_update);
    if spec_contract_update(input, pc, st).0 is Ok {
        let address = input[st.pos as int];
        let st1 = st.read(AnnotationView::Address(address));
        let (resolved, usage) = spec_resolve_address(address, st1);
        let st2 = ParserView { usage, ..st1 };
        let word = input[st2.pos as int];
        let (class_flag, nonce, update_count) = pc.spec_unpack(word)->Ok_0;
        let st3 = st2.read(AnnotationView::Packed { word, nonce, update_count, class_flag });
        let st4 = if class_flag {
            st3.read(AnnotationView::ClassHash(input[st3.pos as int]))
        } else {
            st3
        };
        lemma_storage_updates_len(input, st4, update_count, update_count as nat);
    }
}

/// Contract updates that were read are each as its packed word says: the
/// one at position `i` follows the word that stands where the parser stood
/// after the `i` before it.
pub proof fn lemma_contract_updates_follow_packed_words(
    input: Seq<nat>,
    pc: PackLayout,
    st: ParserView,
    of: usize,
    n: nat,
    i: int,
)
    requires
        spec_contract_updates(input, pc, st, of, n).0 is Ok,
        0 <= i < n,
    ensures
        spec_contract_updates(input, pc, st, of, n).0->Ok_0.len() == n,
        follows_packed_word(
            input,
            pc,
            spec_contract_updates(input, pc, st, of, i as nat).1,
            spec_contract_updates(input, pc, st, of, n).0->Ok_0[i],
        ),
    decreases n,
{
    let before = spec_contract_updates(input, pc, st, of, (n - 1) as nat);
    if n > 1 {
        lemma_contract_updates_follow_packed_words(input, pc, st, of, (n - 1) as nat, 0);
    }
    if i < n - 1 {
        lemma_contract_updates_follow_packed_words(input, pc, st, of, (n - 1) as nat, i);
    } else {
        lemma_contract_update_follows_packed_word(input, pc, before.1);
    }
}

/// In a state diff that was accepted every contract update is as its
/// packed word says: it has the nonce of the word, as many storage updates as
/// the word counts, and a new class hash exactly when the word has the class
/// flag.
pub proof fn lemma_parse_follows_packed_words(
    input: Seq<nat>,
    pc: PackLayout,
    lookup: LookupView,
    i: int,
)
    requires
        spec_parse(input, pc, lookup).0 is Ok,
        0 <= i < spec_parse(input, pc, lookup).0->Ok_0.contract_updates.len(),
    ensures
        follows_packed_word(
            input,
            pc,
            spec_contract_updates(
                input,
                pc,
                initial(lookup).read(AnnotationView::Count(input[0])),
                input[0] as usize,
                i as nat,
            ).1,
            spec_parse(input, pc, lookup).0->Ok_0.contract_updates[i],
        ),
{
    let st1 = initial(lookup).read(AnnotationView::Count(input[0]));
    let count = input[0];
    if count > 0 {
        lemma_contract_updates_follow_packed_words(input, pc, st1, count as usize, count, 0);
    }
    lemma_contract_updates_follow_packed_words(input, pc, st1, count as usize, count, i);
}

/// Whether every element that was read has its note: the notes are as
/// many as the elements that were read, and each is about its element.
pub open spec fn noted(input: Seq<nat>, st: ParserView) -> bool {
    &&& st.pos <= input.len()
    &&& st.anno.len() == st.pos
    &&& forall|i: int| 0 <= i < st.pos ==> (#[trigger] st.anno[i]).element() == input[i]
}

/// A storage update that was read has left a note on each of its elements.
pub proof fn lemma_storage_update_noted(input: Seq<nat>, st: ParserView)
    requires
        noted(input, st),
    ensures
        noted(input, spec_storage_update(input, st).1),
{
    reveal(spec_storage_update);
}

/// Storage updates that were read have left a note on each of their
/// elements.
pub proof fn lemma_storage_updates_noted(input: Seq<nat>, st: ParserView, of: u64, n: nat)
    requires
        noted(input, st),
    ensures
        noted(input, spec_storage_updates(input, st, of, n).1),
    decreases n,
{
    if n > 0 {
        lemma_storage_updates_noted(input, st, of, (n - 1) as nat);
        let st1 = spec_storage_updates(input, st, of, (n - 1) as nat).1;
        lemma_storage_update_noted(input, st1);
    }
}

/// A contract update that was read has left a note on each of its
/// elements.
pub proof fn lemma_contract_update_noted(input: Seq<nat>, pc: PackLayout, st: ParserView)
    requires
        noted(input, st),
    ensures
        spec_contract_update(input, pc, st).0 is Ok ==> noted(
            input,
            spec_contract_update(input, pc, st).1,
        ),
{
    reveal(spec_contract_update);
    if spec_contract_update(input, pc, st).0 is Ok {
        let address = input[st.pos as int];
        let st1 = st.read(AnnotationView::Address(address));
        let (resolved, usage) = spec_resolve_address(address, st1);
        let st2 = ParserView { usage, ..st1 };
        let word = input[st2.pos as int];
        let (class_flag, nonce, update_count) = pc.spec_unpack(word)->Ok_0;
        let st3 = st2.read(AnnotationView::Packed { word, nonce, update_count, class_flag });
        let st4 = if class_flag {
            st3.read(AnnotationView::ClassHash(input[st3.pos as int]))
        } else {
            st3
        };
        assert(noted(input, st1));
        assert(noted(input, st2));
        assert(noted(input, st3));
        assert(noted(input, st4));
        lemma_storage_updates_noted(input, st4, update_count, update_count as nat);
    }
}

/// Contract updates that were read have left a note on each of their
/// elements.
pub proof fn lemma_contract_updates_noted(
    input: Seq<nat>,
    pc: PackLayout,
    st: ParserView,
    of: usize,
    n: nat,
)
    requires
        noted(input, st),
    ensures
        spec_contract_updates(input, pc, st, of, n).0 is Ok ==> noted(
            input,
            spec_contract_updates(input, pc, st, of, n).1,
        ),
    decreases n,
{
    if n > 0 {
        lemma_contract_updates_noted(input, pc, st, of, (n - 1) as nat);
        let st1 = spec_contract_updates(input, pc, st, of, (n - 1) as nat).1;
        if spec_contract_updates(input, pc, st, of, (n - 1) as nat).0 is Ok {
            lemma_contract_update_noted(input, pc, st1);
        }
    }
}

/// Class declarations that were read have left a note on each of their
/// elements.
pub proof fn lemma_class_declarations_noted(input: Seq<nat>, st: ParserView, of: usize, n: nat)
    requires
        noted(input, st),
    ensures
        noted(input, spec_class_declarations(input, st, of, n).1),
    decreases n,
{
    reveal(spec_class_declaration);
    if n > 0 {
        lemma_class_declarations_noted(input, st, of, (n - 1) as nat);
    }
}

/// From a position on, the first element that is not zero stands at or
/// behind the position, and all before it are zero.
pub proof fn lemma_first_nonzero(input: Seq<nat>, from: nat)
    requires
        from <= input.len(),
    ensures
        from <= first_nonzero(input, from) <= input.len(),
        forall|i: int| from <= i < first_nonzero(input, from) ==> input[i] == 0,
    decreases input.len() - from,
{
    if from < input.len() && input[from as int] == 0 {
        lemma_first_nonzero(input, from + 1);
    }
}

/// Every element of a state diff that was accepted was read and has its
/// note: the notes are as many as the elements, and each is about its
/// element.
pub proof fn lemma_parse_notes_every_element(input: Seq<nat>, pc: PackLayout, lookup: LookupView)
    ensures
        spec_parse(input, pc, lookup).0 is Ok ==> {
            let st = spec_parse(input, pc, lookup).1;
            &&& st.pos == input.len()
            &&& st.anno.len() == input.len()
            &&& forall|i: int| 0 <= i < input.len() ==> (#[trigger] st.anno[i]).element() == input[i]
        },
{
    if spec_parse(input, pc, lookup).0 is Ok {
        let st0 = initial(lookup);
        assert(noted(input, st0));
        let st0r = st0.read(AnnotationView::Count(input[0]));
        assert(noted(input, st0r));
        let count = input[0];
        lemma_contract_updates_noted(input, pc, st0r, count as usize, count);
        let st1 = spec_contract_section(input, pc, st0).1;
        assert(noted(input, st1));
        let st1r = st1.read(AnnotationView::Count(input[st1.pos as int]));
        assert(noted(input, st1r));
        let count2 = input[st1.pos as int];
        lemma_class_declarations_noted(input, st1r, count2 as usize, count2);
        let st2 = spec_declaration_section(input, st1).1;
        assert(noted(input, st2));
        lemma_first_nonzero(input, st2.pos);
        let st3 = spec_tail(input, st2).1;
        assert(noted(input, st3));
    }
}

/// Once a storage update is refused, the refusal stands for every longer
/// run.
pub proof fn lemma_storage_updates_stick(input: Seq<nat>, st: ParserView, of: u64, k: nat, n: nat)
    requires
        k <= n,
        spec_storage_updates(input, st, of, k).0 is Err,
    ensures
        spec_storage_updates(input, st, of, n) == spec_storage_updates(input, st, of, k),
    decreases n,
{
    if k < n {
        lemma_storage_updates_stick(input, st, of, k, (n - 1) as nat);
    }
}

/// Once a contract update is refused, the refusal stands for every longer
/// run.
pub proof fn lemma_contract_updates_stick(
    input: Seq<nat>,
    pc: PackLayout,
    st: ParserView,
    of: usize,
    k: nat,
    n: nat,
)
    requires
        k <= n,
        spec_contract_updates(input, pc, st, of, k).0 is Err,
    ensures
        spec_contract_updates(input, pc, st, of, n) == spec_contract_updates(input, pc, st, of, k),
    decreases n,
{
    if k < n {
        lemma_contract_updates_stick(input, pc, st, of, k, (n - 1) as nat);
    }
}

/// Once a class declaration is refused, the refusal stands for every longer
/// run.
pub proof fn lemma_class_declarations_stick(
    input: Seq<nat>,
    st: ParserView,
    of: usize,
    k: nat,
    n: nat,
)
    requires
        k <= n,
        spec_class_declarations(input, st, of, k).0 is Err,
    ensures
        spec_class_declarations(input, st, of, n) == spec_class_declarations(input, st, of, k),
    decreases n,
{
    if k < n {
        lemma_class_declarations_stick(input, st, of, k, (n - 1) as nat);
    }
}

/// The parser of one state diff.
pub struct StateUpdateParser {
    current: Vec<Felt>,
    pos: usize,
    lookup_usage_state: LookupUsageState,
    pack_const: PackConst,
    anno_dump: Vec<Annotation>,
    range: BlockRange,
}

impl StateUpdateParser {
    /// The elements that the parser reads.
    pub closed spec fn input(&self) -> Seq<nat> {
        values(self.current@)
    }

    /// The constants that the parser unpacks with.
    pub closed spec fn constants(&self) -> PackLayout {
        self.pack_const@
    }

    /// The parser as contracts see it, beside the dictionary it works with.
    pub closed spec fn state(&self, lookup: LookupView) -> ParserView {
        ParserView {
            pos: self.pos as nat,
            usage: self.lookup_usage_state,
            lookup,
            range: self.range,
            anno: annotation_views(self.anno_dump@),
        }
    }

    /// The position lies within the elements, and the constants are those of
    /// a layout.
    pub closed spec fn wf(&self) -> bool {
        &&& self.pos <= self.current@.len()
        &&& self.pack_const.wf()
    }

    /// A parser before the first element of a sequence.
    pub fn new(seq: Vec<Felt>, unpacker: PackConst) -> (r: StateUpdateParser)
        requires
            unpacker.wf(),
        ensures
            r.wf(),
            r.input() == values(seq@),
            r.constants() == unpacker@,
            forall|lookup: LookupView| #[trigger] r.state(lookup) == initial(lookup),
    {
        let r = StateUpdateParser {
            current: seq,
            pos: 0,
            lookup_usage_state: LookupUsageState::Off,
            pack_const: unpacker,
            anno_dump: Vec::new(),
            range: BlockRange::new(),
        };
        assert(annotation_views(r.anno_dump@) =~= Seq::empty());
        r
    }

    /// The notes on the elements that were read.
    pub fn annotations(&self) -> (r: &Vec<Annotation>)
        ensures
            forall|lookup: LookupView|
                annotation_views(r@) == (#[trigger] self.state(lookup)).anno,
    {
        &self.anno_dump
    }

    fn next(&mut self) -> (r: Option<Felt>)
        requires
            old(self).wf(),
        ensures
            final(self).wf(),
            final(self).current == old(self).current,
            final(self).pack_const == old(self).pack_const,
            final(self).lookup_usage_state == old(self).lookup_usage_state,
            final(self).anno_dump == old(self).anno_dump,
            final(self).range == old(self).range,
            match r {
                Some(f) => old(self).pos < old(self).input().len() && f@ == old(self).input()[old(
                    self,
                ).pos as int] && final(self).pos == old(self).pos + 1,
                None => old(self).pos >= old(self).input().len() && final(self).pos == old(
                    self,
                ).pos,
            },
    {
        if self.pos < self.current.len() {
            let f = self.current[self.pos].clone();
            self.pos = self.pos + 1;
            Some(f)
        } else {
            None
        }
    }

    fn note(&mut self, a: Annotation)
        ensures
            final(self).current == old(self).current,
            final(self).pack_const == old(self).pack_const,
            final(self).lookup_usage_state == old(self).lookup_usage_state,
            final(self).pos == old(self).pos,
            final(self).range == old(self).range,
            annotation_views(final(self).anno_dump@) == annotation_views(old(self).anno_dump@).push(
                a@,
            ),
    {
        self.anno_dump.push(a);
        assert(annotation_views(self.anno_dump@) =~= annotation_views(old(self).anno_dump@).push(
            a@,
        ));
    }

    /// Reads one storage update.
    pub fn parse_storage_update(&mut self, lookup: &mut Lookup) -> (r: Result<
        StorageUpdate,
        StorageError,
    >)
        requires
            old(self).wf(),
            old(lookup).wf(),
        ensures
            final(self).wf(),
            final(lookup).wf(),
            final(self).input() == old(self).input(),
            final(self).constants() == old(self).constants(),
            final(self).state(final(lookup)@) == spec_storage_update(
                old(self).input(),
                old(self).state(old(lookup)@),
            ).1,
            match r {
                Ok(u) => spec_storage_update(old(self).input(), old(self).state(old(lookup)@)).0
                    == Ok::<StorageUpdateView, StorageError>(u@),
                Err(e) => spec_storage_update(old(self).input(), old(self).state(old(lookup)@)).0
                    == Err::<StorageUpdateView, StorageError>(e),
            },
    {
        reveal(spec_storage_update);
        let key = match self.next() {
            None => {
                return Err(StorageError::MissingKey);
            },
            Some(key) => key,
        };
        self.note(Annotation::Key(key.clone()));
        let value = match self.next() {
            None => {
                return Err(StorageError::MissingValue);
            },
            Some(value) => value,
        };
        self.note(Annotation::Value(value.clone()));
        match self.lookup_usage_state {
            LookupUsageState::Off => Ok(StorageUpdate { key, value }),
            LookupUsageState::One => {
                let seq_no = match key.to_u64() {
                    None => {
                        return Err(StorageError::SeqNoTooLarge);
                    },
                    Some(seq_no) => seq_no,
                };
                self.range.observe(seq_no);
                Ok(StorageUpdate { key, value })
            },
            LookupUsageState::Expand => {
                if key.is_zero() {
                    Ok(StorageUpdate { key, value })
                } else {
                    let index = match value.to_usize() {
                        None => {
                            return Err(StorageError::AliasIndexTooLarge);
                        },
                        Some(index) => index,
                    };
                    match lookup.record(index as u64, &key) {
                        Err(e) => Err(StorageError::Lookup(e)),
                        Ok(()) => Ok(StorageUpdate { key, value }),
                    }
                }
            },
            LookupUsageState::On => {
                if !key.less_than(lookup.global_start_index()) {
                    let index = match key.to_usize() {
                        None => {
                            return Err(StorageError::KeyIndexTooLarge);
                        },
                        Some(index) => index,
                    };
                    match lookup.get(index as u64) {
                        Err(e) => Err(StorageError::Lookup(e)),
                        Ok(found) => Ok(StorageUpdate { key: found, value }),
                    }
                } else {
                    Ok(StorageUpdate { key, value })
                }
            },
        }
    }
    /// Reads the storage updates of one contract.
    fn parse_storage_updates(&mut self, lookup: &mut Lookup, count: u64) -> (r: Result<
        Vec<StorageUpdate>,
        ContractError,
    >)
        requires
            old(self).wf(),
            old(lookup).wf(),
        ensures
            final(self).wf(),
            final(lookup).wf(),
            final(self).input() == old(self).input(),
            final(self).constants() == old(self).constants(),
            final(self).state(final(lookup)@) == spec_storage_updates(
                old(self).input(),
                old(self).state(old(lookup)@),
                count,
                count as nat,
            ).1,
            match r {
                Ok(u) => spec_storage_updates(
                    old(self).input(),
                    old(self).state(old(lookup)@),
                    count,
                    count as nat,
                ).0 == Ok::<Seq<StorageUpdateView>, ContractError>(storage_views(u@)),
                Err(e) => spec_storage_updates(
                    old(self).input(),
                    old(self).state(old(lookup)@),
                    count,
                    count as nat,
                ).0 == Err::<Seq<StorageUpdateView>, ContractError>(e),
            },
    {
        let ghost input = self.input();
        let ghost st0 = self.state(lookup@);
        let mut updates: Vec<StorageUpdate> = Vec::new();
        let mut i: u64 = 0;
        assert(storage_views(updates@) =~= Seq::empty());
        while i < count
            invariant
                self.wf(),
                lookup.wf(),
                self.input() == input,
                input == old(self).input(),
                st0 == old(self).state(old(lookup)@),
                self.constants() == old(self).constants(),
                i <= count,
                spec_storage_updates(input, st0, count, i as nat).0 == Ok::<
                    Seq<StorageUpdateView>,
                    ContractError,
                >(storage_views(updates@)),
                spec_storage_updates(input, st0, count, i as nat).1 == self.state(lookup@),
            decreases count - i,
        {
            match self.parse_storage_update(lookup) {
                Err(e) => {
                    proof {
                        lemma_storage_updates_stick(input, st0, count, (i + 1) as nat, count as nat);
                    }
                    return Err(ContractError::Storage { index: i, of: count, kind: e });
                },
                Ok(update) => {
                    let ghost before = storage_views(updates@);
                    updates.push(update);
                    assert(storage_views(updates@) =~= before.push(update@));
                },
            }
            i = i + 1;
        }
        Ok(updates)
    }

    /// Reads one contract update.
    pub fn parse_contract_update(&mut self, lookup: &mut Lookup) -> (r: Result<
        ContractUpdate,
        ContractError,
    >)
        requires
            old(self).wf(),
            old(lookup).wf(),
        ensures
            final(self).wf(),
            final(lookup).wf(),
            final(self).input() == old(self).input(),
            final(self).constants() == old(self).constants(),
            final(self).state(final(lookup)@) == spec_contract_update(
                old(self).input(),
                old(self).constants(),
                old(self).state(old(lookup)@),
            ).1,
            match r {
                Ok(u) => spec_contract_update(
                    old(self).input(),
                    old(self).constants(),
                    old(self).state(old(lookup)@),
                ).0 == Ok::<ContractUpdateView, ContractError>(u@),
                Err(e) => spec_contract_update(
                    old(self).input(),
                    old(self).constants(),
                    old(self).state(old(lookup)@),
                ).0 == Err::<ContractUpdateView, ContractError>(e),
            },
            r is Ok ==> follows_packed_word(
                old(self).input(),
                old(self).constants(),
                old(self).state(old(lookup)@),
                r->Ok_0@,
            ),
    {
        reveal(spec_contract_update);
        proof {
            lemma_contract_update_follows_packed_word(
                self.input(),
                self.constants(),
                self.state(lookup@),
            );
        }
        let address = match self.next() {
            None => {
                return Err(ContractError::MissingAddress);
            },
            Some(address) => address,
        };
        self.note(Annotation::Address(address.clone()));
        if address.is_zero() {
            return Err(ContractError::ZeroAddress);
        }
        let addr = match self.lookup_usage_state {
            LookupUsageState::Off => {
                if address.same_value(&self.pack_const.one) {
                    self.lookup_usage_state = LookupUsageState::One;
                }
                address
            },
            LookupUsageState::One => {
                if address.same_value(&self.pack_const.two) {
                    self.lookup_usage_state = LookupUsageState::Expand;
                    address
                } else {
                    let on = match lookup.is_on() {
                        Err(e) => {
                            return Err(ContractError::Lookup(e));
                        },
                        Ok(on) => on,
                    };
                    if on && self.pack_const.two.less_than(&address) {
                        let index = match address.to_usize() {
                            None => {
                                return Err(ContractError::AddressIndexTooLarge);
                            },
                            Some(index) => index,
                        };
                        let found = match lookup.get(index as u64) {
                            Err(e) => {
                                return Err(ContractError::Lookup(e));
                            },
                            Ok(found) => found,
                        };
                        self.lookup_usage_state = LookupUsageState::On;
                        found
                    } else {
                        self.lookup_usage_state = LookupUsageState::Off;
                        address
                    }
                }
            },
            LookupUsageState::Expand => {
                return Err(ContractError::UnexpectedAddress);
            },
            LookupUsageState::On => {
                let index = match address.to_usize() {
                    None => {
                        return Err(ContractError::AddressIndexTooLarge);
                    },
                    Some(index) => index,
                };
                match lookup.get(index as u64) {
                    Err(e) => {
                        return Err(ContractError::Lookup(e));
                    },
                    Ok(found) => found,
                }
            },
        };
        let packed = match self.next() {
            None => {
                return Err(ContractError::MissingPacked);
            },
            Some(packed) => packed,
        };
        let (class_flag, nonce, update_count) = match self.pack_const.unpack_contract_update(
            &packed,
        ) {
            Err(e) => {
                return Err(ContractError::Unpack(e));
            },
            Ok(fields) => fields,
        };
        self.note(Annotation::Packed { word: packed, nonce, update_count, class_flag });
        let new_class_hash = if class_flag {
            let hash = match self.next() {
                None => {
                    return Err(ContractError::MissingClassHash);
                },
                Some(hash) => hash,
            };
            self.note(Annotation::ClassHash(hash.clone()));
            Some(hash)
        } else {
            None
        };
        let storage_updates = match self.parse_storage_updates(lookup, update_count) {
            Err(e) => {
                return Err(e);
            },
            Ok(storage_updates) => storage_updates,
        };
        match self.lookup_usage_state {
            LookupUsageState::Expand => {
                match lookup.expand() {
                    Err(e) => {
                        return Err(ContractError::Lookup(e));
                    },
                    Ok(()) => {},
                }
                self.lookup_usage_state = LookupUsageState::On;
            },
            _ => {},
        }
        Ok(ContractUpdate { address: addr, nonce, new_class_hash, storage_updates })
    }

    /// Reads the number of contract updates and as many of them.
    fn parse_contract_updates(&mut self, lookup: &mut Lookup) -> (r: Result<
        Vec<ContractUpdate>,
        ParseError,
    >)
        requires
            old(self).wf(),
            old(lookup).wf(),
        ensures
            final(self).wf(),
            final(lookup).wf(),
            final(self).input() == old(self).input(),
            final(self).constants() == old(self).constants(),
            final(self).state(final(lookup)@) == spec_contract_section(
                old(self).input(),
                old(self).constants(),
                old(self).state(old(lookup)@),
            ).1,
            match r {
                Ok(u) => spec_contract_section(
                    old(self).input(),
                    old(self).constants(),
                    old(self).state(old(lookup)@),
                ).0 == Ok::<Seq<ContractUpdateView>, ParseError>(contract_views(u@)),
                Err(e) => spec_contract_section(
                    old(self).input(),
                    old(self).constants(),
                    old(self).state(old(lookup)@),
                ).0 == Err::<Seq<ContractUpdateView>, ParseError>(e),
            },
    {
        let raw_num_contracts = match self.next() {
            None => {
                return Err(ParseError::MissingContractCount);
            },
            Some(raw) => raw,
        };
        self.note(Annotation::Count(raw_num_contracts.clone()));
        let num_contracts = match raw_num_contracts.to_usize() {
            None => {
                return Err(ParseError::ContractCountTooLarge);
            },
            Some(n) => n,
        };
        let ghost input = self.input();
        let ghost pc = self.constants();
        let ghost st0 = self.state(lookup@);
        let mut updates: Vec<ContractUpdate> = Vec::new();
        let mut i: usize = 0;
        assert(contract_views(updates@) =~= Seq::empty());
        while i < num_contracts
            invariant
                self.wf(),
                lookup.wf(),
                self.input() == input,
                input == old(self).input(),
                self.constants() == pc,
                pc == old(self).constants(),
                spec_contract_section(input, pc, old(self).state(old(lookup)@))
                    == spec_contract_updates(input, pc, st0, num_contracts, num_contracts as nat),
                i <= num_contracts,
                spec_contract_updates(input, pc, st0, num_contracts, i as nat).0 == Ok::<
                    Seq<ContractUpdateView>,
                    ParseError,
                >(contract_views(updates@)),
                spec_contract_updates(input, pc, st0, num_contracts, i as nat).1 == self.state(
                    lookup@,
                ),
            decreases num_contracts - i,
        {
            match self.parse_contract_update(lookup) {
                Err(e) => {
                    proof {
                        lemma_contract_updates_stick(
                            input,
                            pc,
                            st0,
                            num_contracts,
                            (i + 1) as nat,
                            num_contracts as nat,
                        );
                    }
                    return Err(ParseError::Contract { index: i, of: num_contracts, kind: e });
                },
                Ok(update) => {
                    let ghost before = contract_views(updates@);
                    updates.push(update);
                    assert(contract_views(updates@) =~= before.push(update@));
                },
            }
            i = i + 1;
        }
        Ok(updates)
    }

    /// Reads one class declaration.
    fn parse_class_declaration(&mut self) -> (r: Result<ClassDeclaration, DeclarationError>)
        requires
            old(self).wf(),
        ensures
            final(self).wf(),
            final(self).input() == old(self).input(),
            final(self).constants() == old(self).constants(),
            forall|lookup: LookupView|
                #![trigger old(self).state(lookup)]
                final(self).state(lookup) == spec_class_declaration(
                    old(self).input(),
                    old(self).state(lookup),
                ).1 && match r {
                    Ok(d) => spec_class_declaration(old(self).input(), old(self).state(lookup)).0
                        == Ok::<ClassDeclarationView, DeclarationError>(d@),
                    Err(e) => spec_class_declaration(old(self).input(), old(self).state(lookup)).0
                        == Err::<ClassDeclarationView, DeclarationError>(e),
                },
    {
        reveal(spec_class_declaration);
        let class_hash = match self.next() {
            None => {
                return Err(DeclarationError::MissingClassHash);
            },
            Some(class_hash) => class_hash,
        };
        self.note(Annotation::DeclaredClassHash(class_hash.clone()));
        let compiled_class_hash = match self.next() {
            None => {
                return Err(DeclarationError::MissingCompiledClassHash);
            },
            Some(compiled_class_hash) => compiled_class_hash,
        };
        self.note(Annotation::CompiledClassHash(compiled_class_hash.clone()));
        Ok(ClassDeclaration { class_hash, compiled_class_hash })
    }

    /// Reads the number of class declarations and as many of them.
    fn parse_class_declarations(&mut self, Ghost(lookup): Ghost<LookupView>) -> (r: Result<
        Vec<ClassDeclaration>,
        ParseError,
    >)
        requires
            old(self).wf(),
        ensures
            final(self).wf(),
            final(self).input() == old(self).input(),
            final(self).constants() == old(self).constants(),
            final(self).state(lookup) == spec_declaration_section(
                old(self).input(),
                old(self).state(lookup),
            ).1,
            match r {
                Ok(d) => spec_declaration_section(old(self).input(), old(self).state(lookup)).0
                    == Ok::<Seq<ClassDeclarationView>, ParseError>(declaration_views(d@)),
                Err(e) => spec_declaration_section(old(self).input(), old(self).state(lookup)).0
                    == Err::<Seq<ClassDeclarationView>, ParseError>(e),
            },
    {
        let raw_num_decls = match self.next() {
            None => {
                return Err(ParseError::MissingDeclarationCount);
            },
            Some(raw) => raw,
        };
        self.note(Annotation::Count(raw_num_decls.clone()));
        let num_decls = match raw_num_decls.to_usize() {
            None => {
                return Err(ParseError::DeclarationCountTooLarge);
            },
            Some(n) => n,
        };
        let ghost input = self.input();
        let ghost st0 = self.state(lookup);
        let mut declarations: Vec<ClassDeclaration> = Vec::new();
        let mut i: usize = 0;
        assert(declaration_views(declarations@) =~= Seq::empty());
        while i < num_decls
            invariant
                self.wf(),
                self.input() == input,
                input == old(self).input(),
                self.constants() == old(self).constants(),
                spec_declaration_section(input, old(self).state(lookup)) == spec_class_declarations(
                    input,
                    st0,
                    num_decls,
                    num_decls as nat,
                ),
                i <= num_decls,
                spec_class_declarations(input, st0, num_decls, i as nat).0 == Ok::<
                    Seq<ClassDeclarationView>,
                    ParseError,
                >(declaration_views(declarations@)),
                spec_class_declarations(input, st0, num_decls, i as nat).1 == self.state(lookup),
            decreases num_decls - i,
        {
            let ghost st1 = self.state(lookup);
            match self.parse_class_declaration() {
                Err(e) => {
                    proof {
                        lemma_class_declarations_stick(
                            input,
                            st0,
                            num_decls,
                            (i + 1) as nat,
                            num_decls as nat,
                        );
                    }
                    return Err(ParseError::Declaration { index: i, of: num_decls, kind: e });
                },
                Ok(declaration) => {
                    let ghost before = declaration_views(declarations@);
                    declarations.push(declaration);
                    assert(declaration_views(declarations@) =~= before.push(declaration@));
                },
            }
            i = i + 1;
        }
        Ok(declarations)
    }

    /// Reads the rest of the input, which has to be zero, and counts it.
    fn check_zero_tail(&mut self, Ghost(lookup): Ghost<LookupView>) -> (r: Result<
        usize,
        ParseError,
    >)
        requires
            old(self).wf(),
        ensures
            final(self).wf(),
            final(self).input() == old(self).input(),
            final(self).constants() == old(self).constants(),
            final(self).state(lookup) == spec_tail(old(self).input(), old(self).state(lookup)).1,
            match r {
                Ok(n) => spec_tail(old(self).input(), old(self).state(lookup)).0 == Ok::<
                    nat,
                    ParseError,
                >(n as nat),
                Err(e) => spec_tail(old(self).input(), old(self).state(lookup)).0 == Err::<
                    nat,
                    ParseError,
                >(e),
            },
    {
        let ghost input = self.input();
        let ghost st0 = self.state(lookup);
        let mut n: usize = 0;
        assert(tail_notes(input, st0.pos, st0.pos) =~= Seq::empty());
        assert(st0.anno + Seq::<AnnotationView>::empty() =~= st0.anno);
        loop
            invariant
                self.wf(),
                self.input() == input,
                input == old(self).input(),
                self.constants() == old(self).constants(),
                st0 == old(self).state(lookup),
                st0.pos <= self.state(lookup).pos <= input.len(),
                n == self.state(lookup).pos - st0.pos,
                first_nonzero(input, st0.pos) == first_nonzero(input, self.state(lookup).pos),
                self.state(lookup) == (ParserView {
                    pos: self.state(lookup).pos,
                    anno: st0.anno + tail_notes(input, st0.pos, self.state(lookup).pos),
                    ..st0
                }),
            decreases input.len() - self.state(lookup).pos,
        {
            let ghost pos = self.state(lookup).pos;
            let el = match self.next() {
                None => {
                    return Ok(n);
                },
                Some(el) => el,
            };
            let zero = el.is_zero();
            self.note(Annotation::Tail(el));
            assert(st0.anno + tail_notes(input, st0.pos, pos + 1) =~= (st0.anno + tail_notes(
                input,
                st0.pos,
                pos,
            )).push(AnnotationView::Tail(input[pos as int])));
            n = n + 1;
            if !zero {
                return Err(ParseError::ExtraTail);
            }
        }
    }

    /// Reads a state diff from a sequence of field elements. The elements
    /// that were read are noted in `anno_dump`, whether the diff is accepted
    /// or not.
    pub fn parse(
        seq: Vec<Felt>,
        unpacker: PackConst,
        lookup: &mut Lookup,
        anno_dump: &mut Vec<Annotation>,
    ) -> (r: Result<StateDiff, ParseError>)
        requires
            unpacker.wf(),
            old(lookup).wf(),
        ensures
            final(lookup).wf(),
            final(lookup)@ == spec_parse(values(seq@), unpacker@, old(lookup)@).1.lookup,
            annotation_views(final(anno_dump)@) == annotation_views(old(anno_dump)@) + spec_parse(
                values(seq@),
                unpacker@,
                old(lookup)@,
            ).1.anno,
            match r {
                Ok(d) => spec_parse(values(seq@), unpacker@, old(lookup)@).0 == Ok::<
                    StateDiffView,
                    ParseError,
                >(d@),
                Err(e) => spec_parse(values(seq@), unpacker@, old(lookup)@).0 == Err::<
                    StateDiffView,
                    ParseError,
                >(e),
            },
            r is Ok ==> final(anno_dump)@.len() == old(anno_dump)@.len() + seq@.len(),
            r is Ok ==> forall|i: int|
                0 <= i < seq@.len() ==> (#[trigger] final(anno_dump)@[old(anno_dump)@.len() + i])@.element()
                    == seq@[i]@,
    {
        proof {
            lemma_parse_notes_every_element(values(seq@), unpacker@, lookup@);
        }
        let ghost n_before = anno_dump@.len();
        let ghost input = values(seq@);
        let mut parser = StateUpdateParser::new(seq, unpacker);
        assert(parser.state(lookup@) == initial(lookup@));
        let r = parser.run(lookup);
        let ghost before = annotation_views(anno_dump@);
        let ghost added = annotation_views(parser.anno_dump@);
        let mut notes = parser.anno_dump;
        anno_dump.append(&mut notes);
        assert(annotation_views(anno_dump@) =~= before + added);
        proof {
            if r is Ok {
                assert(annotation_views(anno_dump@).len() == anno_dump@.len());
                assert forall|i: int| 0 <= i < input.len() implies (#[trigger] anno_dump@[n_before
                    + i])@.element() == input[i] by {
                    assert(annotation_views(anno_dump@)[n_before + i] == anno_dump@[n_before + i]@);
                    assert((before + added)[n_before + i] == added[i]);
                }
            }
        }
        r
    }

    fn run(&mut self, lookup: &mut Lookup) -> (r: Result<StateDiff, ParseError>)
        requires
            old(self).wf(),
            old(lookup).wf(),
            old(self).state(old(lookup)@) == initial(old(lookup)@),
        ensures
            final(lookup).wf(),
            final(self).state(final(lookup)@) == spec_parse(
                old(self).input(),
                old(self).constants(),
                old(lookup)@,
            ).1,
            match r {
                Ok(d) => spec_parse(old(self).input(), old(self).constants(), old(lookup)@).0
                    == Ok::<StateDiffView, ParseError>(d@),
                Err(e) => spec_parse(old(self).input(), old(self).constants(), old(lookup)@).0
                    == Err::<StateDiffView, ParseError>(e),
            },
    {
        let contract_updates = match self.parse_contract_updates(lookup) {
            Err(e) => {
                return Err(e);
            },
            Ok(contract_updates) => contract_updates,
        };
        let class_declarations = match self.parse_class_declarations(Ghost(lookup@)) {
            Err(e) => {
                return Err(e);
            },
            Ok(class_declarations) => class_declarations,
        };
        let n = match self.check_zero_tail(Ghost(lookup@)) {
            Err(e) => {
                return Err(e);
            },
            Ok(n) => n,
        };
        Ok(StateDiff { contract_updates, class_declarations, range: self.range, tail_size: n })
    }
}

} // verus!
