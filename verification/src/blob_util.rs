//! Blobs as text: 4096 field elements of 64 hexadecimal digits each.

use vstd::prelude::*;
use vstd::string::StringSliceAdditionalSpecFns;
use crate::arith::radix_value;
use crate::felt::{Felt, values};

verus! {

/// The number of field elements of a blob.
pub const FIELD_ELEMENTS_PER_BLOB: usize = 4096;

/// The number of hexadecimal digits of a field element of a blob.
pub const HEX_DIGITS_PER_ELEMENT: usize = 64;

/// Why a text is no blob.
#[derive(Debug, Clone, Copy, PartialEq, Eq, Structural)]
pub enum BlobError {
    /// The text does not have the length of a blob.
    WrongLength { expected: usize, got: usize },
    /// An element of the text is no hexadecimal number.
    InvalidHex,
}

/// A number was too large for a `usize`.
#[derive(Debug, Clone, Copy, PartialEq, Eq, Structural)]
pub struct ValueTooLarge;

/// A text without the white space at its ends, as `str::trim` leaves it.
pub uninterp spec fn trimmed(text: Seq<char>) -> Seq<char>;

/// `str::trim`: the text without the white space at its ends.
#[verifier::external_body]
fn trim(text: &str) -> (r: &str)
    ensures
        r@ == trimmed(text@),
{
    text.trim()
}

/// A text without the `0x` that may lead it.
pub open spec fn without_prefix(text: Seq<u8>) -> Seq<u8> {
    if text.len() >= 2 && text[0] == 0x30 && text[1] == 0x78 {
        text.skip(2)
    } else {
        text
    }
}

/// The element at position `i` of a blob's digits, if its digits denote
/// one.
pub open spec fn blob_word(hex: Seq<u8>, i: int) -> Option<nat> {
    radix_value(hex.subrange(64 * i, 64 * i + 64), 16)
}

/// The elements of a blob given as text.
pub open spec fn spec_blob_data(text: Seq<u8>) -> Result<Seq<nat>, BlobError> {
    let hex = without_prefix(text);
    if hex.len() != 4096 * 64 {
        Err(BlobError::WrongLength { expected: (4096 * 64) as usize, got: hex.len() as usize })
    } else if exists|i: int| 0 <= i < 4096 && blob_word(hex, i) is None {
        Err(BlobError::InvalidHex)
    } else {
        Ok(Seq::new(4096, |i: int| blob_word(hex, i)->Some_0))
    }
}

/// Reads a blob from its digits, which `0x` may lead.
pub fn parse_blob_hex(text: &[u8]) -> (r: Result<Vec<Felt>, BlobError>)
    ensures
        match r {
            Ok(data) => spec_blob_data(text@) == Ok::<Seq<nat>, BlobError>(values(data@)),
            Err(e) => spec_blob_data(text@) == Err::<Seq<nat>, BlobError>(e),
        },
{
    let start: usize = if text.len() >= 2 && text[0] == 0x30 && text[1] == 0x78 {
        2
    } else {
        0
    };
    let ghost hex = without_prefix(text@);
    assert(hex =~= text@.subrange(start as int, text@.len() as int));
    let got = text.len() - start;
    if got != FIELD_ELEMENTS_PER_BLOB * HEX_DIGITS_PER_ELEMENT {
        return Err(
            BlobError::WrongLength {
                expected: FIELD_ELEMENTS_PER_BLOB * HEX_DIGITS_PER_ELEMENT,
                got,
            },
        );
    }
    let mut data: Vec<Felt> = Vec::new();
    let mut i: usize = 0;
    while i < FIELD_ELEMENTS_PER_BLOB
        invariant
            i <= FIELD_ELEMENTS_PER_BLOB,
            start <= 2,
            text@.len() == start + 4096 * 64,
            hex == without_prefix(text@),
            hex =~= text@.subrange(start as int, text@.len() as int),
            data@.len() == i,
            forall|j: int| 0 <= j < i ==> #[trigger] blob_word(hex, j) == Some(data@[j]@),
        decreases FIELD_ELEMENTS_PER_BLOB - i,
    {
        let from = start + i * HEX_DIGITS_PER_ELEMENT;
        let to = from + HEX_DIGITS_PER_ELEMENT;
        assert(text@.subrange(from as int, to as int) =~= hex.subrange(64 * i, 64 * i + 64));
        match Felt::parse_bytes(text, from, to, 16) {
            None => {
                assert(blob_word(hex, i as int) is None);
                return Err(BlobError::InvalidHex);
            },
            Some(d) => {
                data.push(d);
            },
        }
        i = i + 1;
    }
    assert(values(data@) =~= Seq::new(4096, |i: int| blob_word(hex, i)->Some_0));
    Ok(data)
}

/// Reads a blob from its text: the digits, which `0x` may lead, with white
/// space around them.
pub fn parse_str_to_blob_data(contents: &str) -> (r: Result<Vec<Felt>, BlobError>)
    ensures
        match r {
            Ok(data) => spec_blob_data(vstd::utf8::encode_utf8(trimmed(contents@))) == Ok::<
                Seq<nat>,
                BlobError,
            >(values(data@)),
            Err(e) => spec_blob_data(vstd::utf8::encode_utf8(trimmed(contents@))) == Err::<
                Seq<nat>,
                BlobError,
            >(e),
        },
{
    let text = trim(contents);
    parse_blob_hex(text.as_bytes())
}

/// The element as a `usize`.
pub fn parse_usize(value: &Felt) -> (r: Result<usize, ValueTooLarge>)
    ensures
        match r {
            Ok(v) => value@ == v,
            Err(_) => value@ > usize::MAX,
        },
{
    match value.to_usize() {
        Some(v) => Ok(v),
        None => Err(ValueTooLarge),
    }
}

} // verus!
