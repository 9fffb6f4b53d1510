use vstd::bytes::{spec_u64_from_le_bytes, u64_from_le_bytes};
use vstd::prelude::*;
use vstd::slice::slice_subrange;
use vstd::string::StringSliceAdditionalSpecFns;
use vstd::utf8::valid_utf8;

verus! {

/// Why bytes handed across the boundary could not be taken as input.
#[derive(Debug, Clone, Copy, PartialEq, Eq, Structural)]
pub enum BoundaryError {
    /// The region does not lie inside linear memory.
    OutOfBounds,
    /// A text payload is not well-formed UTF-8, or a word array has a
    /// length that is not a whole number of words.
    MalformedInput,
}

/// Relies on `std::str::from_utf8`: it accepts exactly the well-formed UTF-8
/// sequences, and the string it returns is a view of the same bytes.
#[verifier::external_body]
fn utf8_str(bytes: &[u8]) -> (r: Option<&str>)
    ensures
        r.is_some() == valid_utf8(bytes@),
        r matches Some(s) ==> s.spec_bytes() == bytes@,
{
    std::str::from_utf8(bytes).ok()
}

/// Reads a text payload: the bytes must be well-formed UTF-8.
pub fn decode_text(bytes: &[u8]) -> (r: Result<&str, BoundaryError>)
    ensures
        r is Ok <==> valid_utf8(bytes@),
        r matches Ok(s) ==> s.spec_bytes() == bytes@,
        r matches Err(e) ==> e == BoundaryError::MalformedInput,
{
    match utf8_str(bytes) {
        Some(s) => Ok(s),
        None => Err(BoundaryError::MalformedInput),
    }
}

/// The little-endian words that `bytes` holds, eight bytes to a word.
pub open spec fn words_of(bytes: Seq<u8>) -> Seq<u64> {
    Seq::new(
        bytes.len() / 8,
        |i: int| spec_u64_from_le_bytes(bytes.subrange(8 * i, 8 * i + 8)),
    )
}

/// Reads an array of little-endian 64-bit words.
pub fn decode_words(bytes: &[u8]) -> (r: Result<Vec<u64>, BoundaryError>)
    ensures
        r is Ok <==> bytes@.len() % 8 == 0,
        r matches Ok(w) ==> w@ == words_of(bytes@),
        r matches Err(e) ==> e == BoundaryError::MalformedInput,
{
    if bytes.len() % 8 != 0 {
        return Err(BoundaryError::MalformedInput);
    }
    let len = bytes.len();
    let n = len / 8;
    let mut words: Vec<u64> = Vec::with_capacity(n);
    let mut i: usize = 0;
    let mut off: usize = 0;
    assert(bytes@.len() == 8 * n);
    while i < n
        invariant
            n == bytes@.len() / 8,
            bytes@.len() == 8 * n,
            bytes@.len() == len,
            i <= n,
            off == 8 * i,
            words@ == words_of(bytes@).subrange(0, i as int),
        decreases n - i,
    {
        assert(off + 8 <= bytes@.len());
        let chunk = slice_subrange(bytes, off, off + 8);
        let w = u64_from_le_bytes(chunk);
        words.push(w);
        i = i + 1;
        off = off + 8;
        assert(words@ =~= words_of(bytes@).subrange(0, i as int));
    }
    assert(words@ =~= words_of(bytes@));
    Ok(words)
}

} // verus!
