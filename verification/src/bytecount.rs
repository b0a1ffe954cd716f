use vstd::prelude::*;

verus! {

/// Number of occurrences of `needle` in `s`.
pub open spec fn count_byte(s: Seq<u8>, needle: u8) -> nat
    decreases s.len(),
{
    if s.len() == 0 {
        0
    } else {
        count_byte(s.drop_last(), needle) + if s.last() == needle { 1nat } else { 0nat }
    }
}

/// A byte that starts a UTF-8 encoded character (any byte but `10xxxxxx`).
pub open spec fn is_leading_utf8_byte(b: u8) -> bool {
    b & 0xC0 != 0x80
}

/// Number of leading UTF-8 bytes in `s`: the number of characters when `s`
/// is valid UTF-8.
pub open spec fn count_chars(s: Seq<u8>) -> nat
    decreases s.len(),
{
    if s.len() == 0 {
        0
    } else {
        count_chars(s.drop_last()) + if is_leading_utf8_byte(s.last()) { 1nat } else { 0nat }
    }
}

/// Counts the bytes of `haystack` equal to `needle`.
pub fn chunk_count(haystack: &[u8], needle: u8) -> (count: usize)
    requires
        haystack.len() >= 32,
    ensures
        count == count_byte(haystack@, needle),
{
    let mut count: usize = 0;
    let mut i: usize = 0;
    while i < haystack.len()
        invariant
            i <= haystack.len(),
            count == count_byte(haystack@.subrange(0, i as int), needle),
            count <= i,
        decreases haystack.len() - i,
    {
        assert(haystack@.subrange(0, i + 1).drop_last() =~= haystack@.subrange(0, i as int));
        if haystack[i] == needle {
            count = count + 1;
        }
        i = i + 1;
    }
    assert(haystack@.subrange(0, i as int) =~= haystack@);
    count
}

/// Counts the characters of the UTF-8 text `utf8_chars`.
pub fn chunk_num_chars(utf8_chars: &[u8]) -> (count: usize)
    requires
        utf8_chars.len() >= 32,
    ensures
        count == count_chars(utf8_chars@),
{
    num_chars(utf8_chars)
}

/// Counts the characters of the UTF-8 text `utf8_chars`, of any length.
pub fn num_chars(utf8_chars: &[u8]) -> (count: usize)
    ensures
        count == count_chars(utf8_chars@),
{
    let mut count: usize = 0;
    let mut i: usize = 0;
    while i < utf8_chars.len()
        invariant
            i <= utf8_chars.len(),
            count == count_chars(utf8_chars@.subrange(0, i as int)),
            count <= i,
        decreases utf8_chars.len() - i,
    {
        assert(utf8_chars@.subrange(0, i + 1).drop_last() =~= utf8_chars@.subrange(0, i as int));
        if utf8_chars[i] & 0xC0 != 0x80 {
            count = count + 1;
        }
        i = i + 1;
    }
    assert(utf8_chars@.subrange(0, i as int) =~= utf8_chars@);
    count
}

} // verus!
