//! Looking ahead for a delimiter, without moving the scanner.
use crate::matcher::Match;
use crate::scanner::Scanner;
use crate::token::{recognize, Token};
use vstd::prelude::*;
use vstd::slice::slice_subrange;

verus! {

/// The offset of the first place in `s` at which `matcher` matches, if there
/// is one.
pub open spec fn first_match<M: Match>(matcher: M, s: Seq<u8>) -> Option<nat>
    decreases s.len(),
{
    if s.len() == 0 {
        None
    } else if matcher.matches(s) {
        Some(0)
    } else {
        match first_match(matcher, s.skip(1)) {
            Some(i) => Some(i + 1),
            None => None,
        }
    }
}

/// The number of bytes of `s` before the first match of `matcher`: all of
/// them where there is no match.
pub open spec fn until<M: Match>(matcher: M, s: Seq<u8>) -> nat {
    match first_match(matcher, s) {
        Some(i) => i,
        None => s.len(),
    }
}

/// What `first_match` finds is a match, and nothing before it is one; where
/// it finds nothing, there is no match anywhere.
pub proof fn lemma_first_match<M: Match>(matcher: M, s: Seq<u8>)
    ensures
        match first_match(matcher, s) {
            Some(i) => i < s.len() && matcher.matches(s.skip(i as int)),
            None => true,
        },
        until(matcher, s) <= s.len(),
        forall|j: int| 0 <= j < until(matcher, s) ==> !matcher.matches(#[trigger] s.skip(j)),
    decreases s.len(),
{
    if s.len() > 0 {
        assert(s.skip(0) =~= s);
        if !matcher.matches(s) {
            let tail = s.skip(1);
            lemma_first_match(matcher, tail);
            if let Some(i) = first_match(matcher, tail) {
                assert(tail.skip(i as int) =~= s.skip(i as int + 1));
            }
            assert forall|j: int| 0 <= j < until(matcher, s) implies !matcher.matches(
                #[trigger] s.skip(j),
            ) by {
                if j > 0 {
                    assert(tail.skip(j - 1) =~= s.skip(j));
                }
            }
        }
    }
}

/// The first match is the only offset with a match and none before it.
pub proof fn lemma_first_match_is<M: Match>(matcher: M, s: Seq<u8>, i: nat)
    requires
        i < s.len(),
        matcher.matches(s.skip(i as int)),
        forall|j: int| 0 <= j < i ==> !matcher.matches(#[trigger] s.skip(j)),
    ensures
        first_match(matcher, s) == Some(i),
    decreases i,
{
    assert(s.skip(0) =~= s);
    if i > 0 {
        let tail = s.skip(1);
        assert(tail.skip(i - 1) =~= s.skip(i as int));
        assert forall|j: int| 0 <= j < i - 1 implies !matcher.matches(#[trigger] tail.skip(j)) by {
            assert(tail.skip(j) =~= s.skip(j + 1));
        }
        lemma_first_match_is(matcher, tail, (i - 1) as nat);
    }
}

/// Without a match at any offset, `first_match` finds nothing.
pub proof fn lemma_first_match_none<M: Match>(matcher: M, s: Seq<u8>)
    requires
        forall|j: int| 0 <= j < s.len() ==> !matcher.matches(#[trigger] s.skip(j)),
    ensures
        first_match(matcher, s) is None,
    decreases s.len(),
{
    if s.len() > 0 {
        assert(s.skip(0) =~= s);
        let tail = s.skip(1);
        assert forall|j: int| 0 <= j < tail.len() implies !matcher.matches(#[trigger] tail.skip(j)) by {
            assert(tail.skip(j) =~= s.skip(j + 1));
        }
        lemma_first_match_none(matcher, tail);
    }
}

/// What a look ahead has found.
#[derive(Debug, PartialEq)]
pub struct Peeking<'a> {
    /// The bytes that were found, without the delimiters around them.
    pub peeked: &'a [u8],
    /// The number of bytes up to the end of the closing delimiter.
    pub end_slice: usize,
}

/// Until scan: looks for the first match of `matcher` in what remains. Gives
/// the bytes before the match, and the number of bytes up to its end.
pub fn peek<'a, M: Match>(matcher: &M, scanner: &Scanner<'a>) -> (r: Option<Peeking<'a>>)
    ensures
        match first_match(*matcher, scanner@) {
            Some(i) => r matches Some(p) && p.peeked@ == scanner@.take(i as int) && p.end_slice
                == i + matcher.length(),
            None => r is None,
        },
        r matches Some(p) ==> p.peeked@.len() + matcher.length() == p.end_slice && p.end_slice
            <= scanner@.len(),
{
    let data = scanner.remaining();
    let mut i: usize = 0;
    while i < data.len()
        invariant
            data@ == scanner@,
            i <= data@.len(),
            forall|j: int| 0 <= j < i ==> !matcher.matches(#[trigger] data@.skip(j)),
        decreases data@.len() - i,
    {
        let (found, size) = matcher.is_matching(slice_subrange(data, i, data.len()));
        if found {
            proof {
                matcher.lemma_match_fits(data@.skip(i as int));
                lemma_first_match_is(*matcher, data@, i as nat);
            }
            return Some(Peeking { peeked: slice_subrange(data, 0, i), end_slice: i + size });
        }
        i = i + 1;
    }
    proof {
        lemma_first_match_none(*matcher, data@);
    }
    None
}

/// Until end: everything that remains, up to the end of the input. It never
/// fails, whatever remains.
pub fn peek_until_end<'a>(scanner: &Scanner<'a>) -> (p: Peeking<'a>)
    ensures
        p.peeked@ == scanner@,
        p.end_slice == scanner@.len(),
{
    let data = scanner.remaining();
    Peeking { peeked: data, end_slice: data.len() }
}

/// Until scan that settles for the end of the input: the bytes before the
/// first match of `matcher`, or all that remain where there is no match.
pub fn peek_or_end<'a, M: Match>(matcher: &M, scanner: &Scanner<'a>) -> (bytes: &'a [u8])
    ensures
        bytes@ == scanner@.take(until(*matcher, scanner@) as int),
        bytes@.len() == until(*matcher, scanner@),
{
    proof {
        lemma_first_match(*matcher, scanner@);
        assert(scanner@.take(scanner@.len() as int) =~= scanner@);
    }
    match peek(matcher, scanner) {
        Some(found) => found.peeked,
        None => peek_until_end(scanner).peeked,
    }
}

/// The pairs of delimiters that enclose a group.
#[derive(Debug, Clone, Copy, PartialEq, Eq)]
pub enum GroupKind {
    /// A group enclosed in parentheses
    Parenthesis,
    /// A group enclosed in double quotes
    DoubleQuotes,
}

impl GroupKind {
    /// The token that opens a group.
    pub open spec fn opening(self) -> Token {
        match self {
            GroupKind::Parenthesis => Token::OpenParen,
            GroupKind::DoubleQuotes => Token::DoubleQuote,
        }
    }

    /// The token that closes a group.
    pub open spec fn closing(self) -> Token {
        match self {
            GroupKind::Parenthesis => Token::CloseParen,
            GroupKind::DoubleQuotes => Token::DoubleQuote,
        }
    }

    /// The content of the group that `s` begins with, and the length of the
    /// group with its two delimiters. The group ends at the first closing
    /// delimiter after the opening one: groups do not nest and nothing
    /// escapes a delimiter.
    pub open spec fn group(self, s: Seq<u8>) -> Option<(Seq<u8>, nat)> {
        if self.opening().matches(s) {
            match first_match(self.closing(), s.skip(1)) {
                Some(i) => Some((s.subrange(1, i as int + 1), i + 2)),
                None => None,
            }
        } else {
            None
        }
    }

    fn tokens(self) -> (r: (Token, Token))
        ensures
            r.0 == self.opening(),
            r.1 == self.closing(),
    {
        match self {
            GroupKind::Parenthesis => (Token::OpenParen, Token::CloseParen),
            GroupKind::DoubleQuotes => (Token::DoubleQuote, Token::DoubleQuote),
        }
    }
}

/// Group scan: looks for a group of the given kind at the start of what
/// remains. Gives the bytes between the delimiters, and the length of the
/// group with them. There is none where the input does not begin with the
/// opening delimiter, or holds no closing delimiter after it.
pub fn peek_group<'a>(kind: GroupKind, scanner: &Scanner<'a>) -> (r: Option<Peeking<'a>>)
    ensures
        match kind.group(scanner@) {
            Some((content, n)) => r matches Some(p) && p.peeked@ == content && p.end_slice == n,
            None => r is None,
        },
        r matches Some(p) ==> p.peeked@.len() + 2 == p.end_slice && p.end_slice <= scanner@.len(),
{
    let data = scanner.remaining();
    let (opening, closing) = kind.tokens();
    if !recognize(opening, data) {
        return None;
    }
    let inside = Scanner::new(slice_subrange(data, 1, data.len()));
    match peek(&closing, &inside) {
        Some(found) => {
            proof {
                lemma_first_match(closing, inside@);
                assert(inside@.take(found.peeked@.len() as int) =~= data@.subrange(
                    1,
                    found.peeked@.len() as int + 1,
                ));
            }
            Some(Peeking { peeked: found.peeked, end_slice: found.end_slice + 1 })
        },
        None => None,
    }
}

} // verus!
