//! Patterns that are looked for at the start of a byte slice.
use vstd::prelude::*;
use vstd::slice::slice_subrange;

verus! {

/// The length of the longest prefix of `s` whose bytes all belong to `class`.
pub open spec fn leading(s: Seq<u8>, class: spec_fn(u8) -> bool) -> nat
    decreases s.len(),
{
    if s.len() > 0 && class(s[0]) {
        1 + leading(s.skip(1), class)
    } else {
        0
    }
}

/// The prefix that `leading` measures lies within `s`, holds bytes of `class`
/// only, and ends at the end of `s` or before a byte that is not of `class`.
pub proof fn lemma_leading(s: Seq<u8>, class: spec_fn(u8) -> bool)
    ensures
        leading(s, class) <= s.len(),
        forall|i: int| 0 <= i < leading(s, class) ==> class(#[trigger] s[i]),
        leading(s, class) < s.len() ==> !class(s[leading(s, class) as int]),
    decreases s.len(),
{
    if s.len() > 0 && class(s[0]) {
        let tail = s.skip(1);
        lemma_leading(tail, class);
        assert forall|i: int| 0 <= i < leading(s, class) implies class(#[trigger] s[i]) by {
            if i > 0 {
                assert(s[i] == tail[i - 1]);
            }
        }
        if leading(s, class) < s.len() {
            assert(s[leading(s, class) as int] == tail[leading(tail, class) as int]);
        }
    }
}

/// The length that `leading` measures is the only one of which all that holds.
pub proof fn lemma_leading_is(s: Seq<u8>, class: spec_fn(u8) -> bool, n: nat)
    requires
        n <= s.len(),
        forall|i: int| 0 <= i < n ==> class(#[trigger] s[i]),
        n < s.len() ==> !class(s[n as int]),
    ensures
        leading(s, class) == n,
    decreases n,
{
    if n > 0 {
        let tail = s.skip(1);
        assert(class(s[0]));
        assert forall|i: int| 0 <= i < n - 1 implies class(#[trigger] tail[i]) by {
            assert(tail[i] == s[i + 1]);
        }
        if n - 1 < tail.len() {
            assert(tail[n - 1] == s[n as int]);
        }
        lemma_leading_is(tail, class, (n - 1) as nat);
    }
}

/// Whether `s` begins with the bytes of `prefix`.
pub open spec fn starts_with(s: Seq<u8>, prefix: Seq<u8>) -> bool {
    prefix.len() <= s.len() && s.take(prefix.len() as int) == prefix
}

/// Whether two slices hold the same bytes.
pub fn same_bytes(a: &[u8], b: &[u8]) -> (same: bool)
    ensures
        same == (a@ == b@),
{
    if a.len() != b.len() {
        return false;
    }
    let mut i: usize = 0;
    while i < a.len()
        invariant
            a@.len() == b@.len(),
            i <= a@.len(),
            forall|j: int| 0 <= j < i ==> a@[j] == b@[j],
        decreases a@.len() - i,
    {
        if a[i] != b[i] {
            return false;
        }
        i = i + 1;
    }
    assert(a@ =~= b@);
    true
}

/// Whether `data` begins with the bytes of `keyword`, letter for letter.
pub fn begins_with(data: &[u8], keyword: &[u8]) -> (found: bool)
    ensures
        found == starts_with(data@, keyword@),
{
    keyword.len() <= data.len() && same_bytes(slice_subrange(data, 0, keyword.len()), keyword)
}

/// The byte with an ASCII capital letter replaced by its small letter.
pub open spec fn lower(b: u8) -> u8 {
    if 'A' as u8 <= b <= 'Z' as u8 {
        (b + 0x20) as u8
    } else {
        b
    }
}

/// Whether `s` begins with the bytes of `pattern`, which is not empty, where
/// a capital and a small ASCII letter count as the same.
pub open spec fn matches_ignoring_case(pattern: Seq<u8>, s: Seq<u8>) -> bool {
    &&& 0 < pattern.len() <= s.len()
    &&& forall|i: int| 0 <= i < pattern.len() ==> lower(#[trigger] pattern[i]) == lower(s[i])
}

/// elyze's `match_pattern` says whether `data` begins with `pattern`,
/// compared with std's `eq_ignore_ascii_case`, and gives the length of
/// `pattern` where it does. An empty pattern, or one longer than `data`,
/// matches nothing; without a match the length is 0.
pub assume_specification[ elyze::bytes::matchers::match_pattern ](
    pattern: &[u8],
    data: &[u8],
) -> (r: (bool, usize))
    ensures
        r.0 == matches_ignoring_case(pattern@, data@),
        r.1 == (if r.0 { pattern@.len() } else { 0 }),
;

/// The ASCII punctuation characters.
pub open spec fn is_punctuation(b: u8) -> bool {
    ||| '!' as u8 <= b <= '/' as u8
    ||| ':' as u8 <= b <= '@' as u8
    ||| '[' as u8 <= b <= '`' as u8
    ||| '{' as u8 <= b <= '~' as u8
}

/// The ASCII whitespace characters: space, tab, line feed, form feed and
/// carriage return.
pub open spec fn is_space(b: u8) -> bool {
    b == ' ' as u8 || b == '\t' as u8 || b == '\n' as u8 || b == 0x0c || b == '\r' as u8
}

/// The bytes that a word is made of: all but ASCII punctuation and ASCII
/// whitespace.
pub open spec fn word() -> spec_fn(u8) -> bool {
    |b: u8| !is_punctuation(b) && !is_space(b)
}

/// elyze's `match_string` gives the length of the word that `data` begins
/// with, and says whether there is one. The word ends before the first byte
/// for which std's `is_ascii_punctuation` or `is_ascii_whitespace` holds, or
/// with `data`.
pub assume_specification[ elyze::bytes::matchers::match_string ](data: &[u8]) -> (r: (
    bool,
    usize,
))
    ensures
        r.1 == leading(data@, word()),
        r.0 == (r.1 > 0),
;

/// A pattern with a fixed length that a byte slice may begin with.
pub trait Match {
    /// Whether `s` begins with a match of the pattern.
    spec fn matches(&self, s: Seq<u8>) -> bool;

    /// The number of bytes of a match.
    spec fn length(&self) -> nat;

    /// A match is not empty and lies within the bytes it was found in.
    proof fn lemma_match_fits(&self, s: Seq<u8>)
        ensures
            self.matches(s) ==> 0 < self.length() <= s.len(),
    ;

    /// Whether `data` begins with a match, and the number of bytes matched
    /// (none without a match).
    fn is_matching(&self, data: &[u8]) -> (r: (bool, usize))
        ensures
            r.0 == self.matches(data@),
            r.1 == (if r.0 { self.length() } else { 0 }),
    ;

    /// The number of bytes of a match.
    fn size(&self) -> (n: usize)
        ensures
            n == self.length(),
    ;
}

} // verus!
