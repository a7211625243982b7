//! Whitespace and numbers.
use crate::errors::{ParseError, ParseResult};
use crate::matcher::{leading, lemma_leading, lemma_leading_is};
use crate::scanner::Scanner;
use crate::token::{recognize, Token};
use crate::visitor::Visitor;
use vstd::prelude::*;
use vstd::slice::slice_subrange;

verus! {

/// The bytes that may be skipped between the parts of a line: the space and
/// the tab.
pub open spec fn blank() -> spec_fn(u8) -> bool {
    |b: u8| b == Token::Whitespace.byte() || b == Token::Tab.byte()
}

/// The ASCII digits.
pub open spec fn digit() -> spec_fn(u8) -> bool {
    |b: u8| '0' as u8 <= b <= '9' as u8
}

/// Skips the spaces and tabs that what remains begins with, and says how
/// many there were. It never fails: there may be none.
pub fn optional_whitespaces(scanner: &mut Scanner) -> (n: usize)
    ensures
        n == leading(old(scanner)@, blank()),
        old(scanner).moved(*final(scanner), n as nat),
{
    let data = scanner.remaining();
    let mut n: usize = 0;
    let mut more: bool = true;
    while more
        invariant
            n <= data@.len(),
            forall|i: int| 0 <= i < n ==> blank()(#[trigger] data@[i]),
            !more ==> (n == data@.len() || !blank()(data@[n as int])),
        decreases data@.len() - n + (if more { 1nat } else { 0nat }),
    {
        let rest = slice_subrange(data, n, data.len());
        if recognize(Token::Whitespace, rest) || recognize(Token::Tab, rest) {
            n = n + 1;
        } else {
            more = false;
        }
    }
    proof {
        lemma_leading_is(data@, blank(), n as nat);
    }
    scanner.bump_by(n);
    n
}

/// The number that a run of decimal digits writes.
pub open spec fn decimal(digits: Seq<u8>) -> nat
    decreases digits.len(),
{
    if digits.len() == 0 {
        0
    } else {
        10 * decimal(digits.drop_last()) + (digits.last() - '0' as u8) as nat
    }
}

/// An unsigned number of 64 bits, written in decimal digits.
#[derive(Debug, PartialEq)]
pub struct Number(pub u64);

impl View for Number {
    type V = u64;

    open spec fn view(&self) -> u64 {
        self.0
    }
}

/// Calls `accept` of elyze's `Number<u64>` on a fresh elyze scanner over
/// `data`, and gives the number with the position that the scanner reached.
/// elyze takes the digits that `data` begins with (`match_number`) and has
/// std parse them as a `u64`: it fails where there is no digit, and where the
/// digits write a number that 64 bits cannot hold.
#[verifier::external_body]
fn accept_number(data: &[u8]) -> (r: Option<(u64, usize)>)
    ensures
        match Number::grammar(data@) {
            Some((value, n)) => r == Some((value, n as usize)),
            None => r is None,
        },
{
    let mut scanner = elyze::scanner::Scanner::new(data);
    match <elyze::bytes::primitives::number::Number<u64> as elyze::visitor::Visitor<u8>>::accept(
        &mut scanner,
    ) {
        Ok(number) => Some((number.0, scanner.current_position())),
        Err(_) => None,
    }
}

impl<'a> Visitor<'a> for Number {
    /// The digits that `s` begins with, read as a decimal number: there must
    /// be one digit at least, and the number must fit in 64 bits.
    open spec fn grammar(s: Seq<u8>) -> Option<(u64, nat)> {
        let n = leading(s, digit());
        let value = decimal(s.take(n as int));
        if n > 0 && value <= u64::MAX {
            Some((value as u64, n))
        } else {
            None
        }
    }

    fn accept(scanner: &mut Scanner<'a>) -> (r: ParseResult<Self>) {
        let data = scanner.remaining();
        proof {
            lemma_leading(data@, digit());
            assert(leading(data@, digit()) <= data.len());
        }
        match accept_number(data) {
            Some((value, n)) => {
                scanner.bump_by(n);
                Ok(Number(value))
            },
            None => Err(ParseError::UnexpectedToken),
        }
    }
}

/// A number is read from digits only: where one is read, it is the decimal
/// value of all the digits that the input begins with, of which there is one
/// at least, and it fits in 64 bits. Nothing is read from an input that is
/// empty or begins with another byte, nor from digits that write a number
/// too large for 64 bits.
pub proof fn lemma_number_reads_digits(s: Seq<u8>)
    ensures
        match Number::grammar(s) {
            Some((value, n)) => {
                &&& 0 < n <= s.len()
                &&& forall|i: int| 0 <= i < n ==> digit()(#[trigger] s[i])
                &&& n < s.len() ==> !digit()(s[n as int])
                &&& value == decimal(s.take(n as int))
            },
            None => {
                ||| s.len() == 0
                ||| !digit()(s[0])
                ||| decimal(s.take(leading(s, digit()) as int)) > u64::MAX
            },
        },
{
    lemma_leading(s, digit());
}

} // verus!
