use vstd::prelude::*;
use vstd::utf8::valid_utf8;

verus! {

/// The length of the longest prefix of `b[0..j]` that is valid UTF-8.
pub open spec fn longest_valid_prefix(b: Seq<u8>, j: int) -> int
    decreases j,
{
    if j <= 0 {
        0
    } else if valid_utf8(b.subrange(0, j)) {
        j
    } else {
        longest_valid_prefix(b, j - 1)
    }
}

pub proof fn lemma_valid_up_to_bounds(b: Seq<u8>, j: int)
    requires
        0 <= j,
    ensures
        0 <= longest_valid_prefix(b, j) <= j,
    decreases j,
{
    if j > 0 {
        lemma_valid_up_to_bounds(b, j - 1);
    }
}

/// The index up to which `b` is valid UTF-8: the length of its longest
/// valid prefix.
pub open spec fn spec_valid_up_to(b: Seq<u8>) -> int {
    longest_valid_prefix(b, b.len() as int)
}

/// Checks `bytes` for UTF-8 validity with `simdutf8::compat::from_utf8`.
/// The contract claims what the crate documents as the analogue of
/// `std::str::from_utf8`: success exactly on valid UTF-8, and otherwise the
/// error's `valid_up_to`, the length of the longest valid prefix.
#[verifier::external_body]
pub(crate) fn utf8_check(bytes: &[u8]) -> (r: Result<(), usize>)
    ensures
        r is Ok <==> valid_utf8(bytes@),
        r matches Err(k) ==> k == spec_valid_up_to(bytes@),
{
    match simdutf8::compat::from_utf8(bytes) {
        Ok(_) => Ok(()),
        Err(e) => Err(e.valid_up_to()),
    }
}

/// Whether `buf` is valid UTF-8.
pub fn is_valid_utf8(buf: &[u8]) -> (r: bool)
    ensures
        r == valid_utf8(buf@),
{
    utf8_check(buf).is_ok()
}

} // verus!
