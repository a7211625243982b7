//! A parser for the text form of a conditional key-value transaction: a
//! section of compare operations, a section of operations to apply where the
//! comparisons hold, and a section of operations to apply where they do not.
//!
//! The three sections follow one another, each on lines of its own, with a
//! blank line between two sections. A section ends where the first blank
//! line after its beginning starts, and the two line feeds of that blank line
//! belong to no section. A section without any line is written as nothing at
//! all, so two blank lines in a row enclose an empty section. The last
//! section runs to the end of the input, with no line feed after its last
//! line.
use crate::compare::{Compare, ComparisonView};
use crate::errors::{ParseError, ParseResult};
use crate::matcher::{leading, lemma_leading, starts_with, Match};
use crate::operation::{Operation, OperationView};
use crate::peek::{first_match, lemma_first_match, peek, peek_until_end};
use crate::primitives::{blank, optional_whitespaces};
use crate::scanner::{lemma_moved_twice, Scanner};
use crate::separated_list::{
    in_source_order, lemma_items_in_source_order, separated_list, SeparatedList,
};
use crate::visitor::Visitor;
use elyze::bytes::matchers::match_pattern;
use vstd::prelude::*;

pub mod compare;
pub mod errors;
pub mod matcher;
pub mod operation;
pub mod peek;
pub mod primitives;
pub mod scanner;
pub mod separated_list;
pub mod token;
pub mod visitor;

verus! {

/// Parse a transactional data structure from a byte slice.
///
/// # Errors
///
/// If the parser encounters an unexpected token, a `ParseError` is returned.
pub fn parse<'a>(data: &'a [u8]) -> (r: ParseResult<TxnData<'a>>)
    ensures
        match TxnData::grammar(data@) {
            Some((txn, _)) => r matches Ok(parsed) && parsed@ == txn,
            None => r is Err,
        },
{
    let mut scanner = Scanner::new(data);
    TxnData::accept(&mut scanner)
}

/// A transactional data structure.
#[derive(Debug, PartialEq)]
pub struct TxnData<'a> {
    /// A list of operations to compare against the current state.
    pub compares: Vec<Compare<'a>>,
    /// A list of operations to apply if the compare operations pass.
    pub success: Vec<Operation<'a>>,
    /// A list of operations to apply if the compare operations fail.
    pub failure: Vec<Operation<'a>>,
}

/// What a transactional data structure holds.
pub struct TxnDataView {
    pub compares: Seq<ComparisonView>,
    pub success: Seq<OperationView>,
    pub failure: Seq<OperationView>,
}

impl<'a> View for TxnData<'a> {
    type V = TxnDataView;

    open spec fn view(&self) -> TxnDataView {
        TxnDataView {
            compares: self.compares@.map_values(|compare: Compare| compare@),
            success: self.success@.map_values(|operation: Operation| operation@),
            failure: self.failure@.map_values(|operation: Operation| operation@),
        }
    }
}

/// The two line feeds of a blank line.
pub const BLANK_LINE: [u8; 2] = ['\n' as u8, '\n' as u8];

/// The end of a section: a blank line.
#[derive(Debug, Clone, Copy)]
pub struct SectionEnd;

impl Match for SectionEnd {
    open spec fn matches(&self, s: Seq<u8>) -> bool {
        starts_with(s, BLANK_LINE@)
    }

    open spec fn length(&self) -> nat {
        BLANK_LINE@.len()
    }

    proof fn lemma_match_fits(&self, s: Seq<u8>) {
    }

    fn is_matching(&self, data: &[u8]) -> (r: (bool, usize)) {
        proof {
            if data@.len() >= 2 {
                assert(data@.take(2) == BLANK_LINE@ <==> data@[0] == BLANK_LINE@[0] && data@[1]
                    == BLANK_LINE@[1]) by {
                    if data@[0] == BLANK_LINE@[0] && data@[1] == BLANK_LINE@[1] {
                        assert(data@.take(2) =~= BLANK_LINE@);
                    } else {
                        assert(data@.take(2)[0] == data@[0]);
                        assert(data@.take(2)[1] == data@[1]);
                    }
                }
            }
        }
        match_pattern(BLANK_LINE.as_slice(), data)
    }

    fn size(&self) -> (n: usize) {
        BLANK_LINE.len()
    }
}

/// The three sections of `s`: after the blanks that `s` begins with, the
/// bytes before the first blank line, the bytes between that blank line and
/// the next one, and the bytes after that. Without two blank lines there are
/// no sections.
pub open spec fn sections(s: Seq<u8>) -> Option<(Seq<u8>, Seq<u8>, Seq<u8>)> {
    let s1 = s.skip(leading(s, blank()) as int);
    match first_match(SectionEnd, s1) {
        Some(i) => {
            let s2 = s1.skip((i + SectionEnd.length()) as int);
            match first_match(SectionEnd, s2) {
                Some(j) => Some(
                    (s1.take(i as int), s2.take(j as int), s2.skip((j + SectionEnd.length()) as int)),
                ),
                None => None,
            }
        },
        None => None,
    }
}

impl<'a> Visitor<'a> for TxnData<'a> {
    /// The whole of `s`, as three sections: a list of compare operations and
    /// two lists of operations. Each section may be empty, and then its list
    /// is.
    open spec fn grammar(s: Seq<u8>) -> Option<(TxnDataView, nat)> {
        match sections(s) {
            Some((first, second, third)) => match (
                separated_list::<Compare>(first),
                separated_list::<Operation>(second),
                separated_list::<Operation>(third),
            ) {
                (Some(compares), Some(success), Some(failure)) => Some(
                    (TxnDataView { compares, success, failure }, s.len()),
                ),
                _ => None,
            },
            None => None,
        }
    }

    fn accept(scanner: &mut Scanner<'a>) -> (r: ParseResult<Self>) {
        let mut cursor = *scanner;
        let ghost at0 = cursor;
        let blanks: usize = optional_whitespaces(&mut cursor);
        let ghost at1 = cursor;

        // Read the compare section
        let section_compare = match peek(&SectionEnd, &cursor) {
            Some(section) => section,
            None => {
                return Err(ParseError::UnexpectedToken);
            },
        };
        let mut section_compare_scanner = Scanner::new(section_compare.peeked);
        let compares = match SeparatedList::<Compare>::accept(&mut section_compare_scanner) {
            Ok(list) => list,
            Err(error) => {
                return Err(error);
            },
        };
        cursor.bump_by(section_compare.end_slice);
        let ghost at2 = cursor;

        // Read the success section
        let section_success = match peek(&SectionEnd, &cursor) {
            Some(section) => section,
            None => {
                return Err(ParseError::UnexpectedToken);
            },
        };
        let mut section_success_scanner = Scanner::new(section_success.peeked);
        let success = match SeparatedList::<Operation>::accept(&mut section_success_scanner) {
            Ok(list) => list,
            Err(error) => {
                return Err(error);
            },
        };
        cursor.bump_by(section_success.end_slice);
        let ghost at3 = cursor;

        // Read the failure section
        let section_failure = peek_until_end(&cursor);
        let mut section_failure_scanner = Scanner::new(section_failure.peeked);
        let failure = match SeparatedList::<Operation>::accept(&mut section_failure_scanner) {
            Ok(list) => list,
            Err(error) => {
                return Err(error);
            },
        };
        cursor.bump_by(section_failure.end_slice);

        proof {
            let (blanks, first, second, third) = (
                blanks as nat,
                section_compare.end_slice as nat,
                section_success.end_slice as nat,
                section_failure.end_slice as nat,
            );
            lemma_moved_twice(at0, at1, at2, blanks, first);
            lemma_moved_twice(at0, at2, at3, blanks + first, second);
            lemma_moved_twice(at0, at3, cursor, blanks + first + second, third);
        }
        *scanner = cursor;
        let txn = TxnData { compares: compares.data, success: success.data, failure: failure.data };
        assert(txn@.compares =~= compares@);
        assert(txn@.success =~= success@);
        assert(txn@.failure =~= failure@);
        Ok(txn)
    }
}

/// The sections leave nothing of the input out: the input is the blanks
/// that it begins with, the first section, a blank line, the second section,
/// a blank line and the third section, in this order.
pub proof fn lemma_sections_cover_the_input(s: Seq<u8>)
    requires
        sections(s) is Some,
    ensures
        ({
            let (first, second, third) = sections(s)->Some_0;
            s == s.take(leading(s, blank()) as int) + first + BLANK_LINE@ + second + BLANK_LINE@
                + third
        }),
{
    let (first, second, third) = sections(s)->Some_0;
    let blanks = leading(s, blank());
    lemma_leading(s, blank());
    let s1 = s.skip(blanks as int);
    lemma_first_match(SectionEnd, s1);
    let i = first_match(SectionEnd, s1)->Some_0;
    let s2 = s1.skip((i + 2) as int);
    lemma_first_match(SectionEnd, s2);
    let j = first_match(SectionEnd, s2)->Some_0;
    assert(s1.skip(i as int).take(2) =~= s1.subrange(i as int, i as int + 2));
    assert(s2.skip(j as int).take(2) =~= s2.subrange(j as int, j as int + 2));
    assert(s2 =~= second + BLANK_LINE@ + third);
    assert(s1 =~= first + BLANK_LINE@ + s2);
    assert(s =~= s.take(blanks as int) + s1);
    assert(s =~= s.take(blanks as int) + first + BLANK_LINE@ + second + BLANK_LINE@ + third);
}

/// Each of the three sections may be empty, whatever the other two hold:
/// where the input has its two blank lines, and each section is either
/// empty or a list of well-formed lines, the input is a transaction, and the
/// list of each empty section is empty.
pub proof fn lemma_sections_may_be_empty(s: Seq<u8>)
    requires
        sections(s) is Some,
        ({
            let (first, second, third) = sections(s)->Some_0;
            &&& first.len() == 0 || separated_list::<Compare>(first) is Some
            &&& second.len() == 0 || separated_list::<Operation>(second) is Some
            &&& third.len() == 0 || separated_list::<Operation>(third) is Some
        }),
    ensures
        TxnData::grammar(s) is Some,
        ({
            let (first, second, third) = sections(s)->Some_0;
            let txn = TxnData::grammar(s)->Some_0.0;
            &&& first.len() == 0 ==> txn.compares.len() == 0
            &&& second.len() == 0 ==> txn.success.len() == 0
            &&& third.len() == 0 ==> txn.failure.len() == 0
        }),
{
}

/// The three lists of a transaction keep the order of the lines of their
/// sections: of two compare operations, and of two operations of the same
/// branch, the one that comes first in its list stands on the earlier line,
/// and each is what its own line holds.
pub proof fn lemma_transaction_keeps_line_order(s: Seq<u8>, i: nat, j: nat)
    requires
        TxnData::grammar(s) is Some,
        i < j,
    ensures
        ({
            let (first, second, third) = sections(s)->Some_0;
            let txn = TxnData::grammar(s)->Some_0.0;
            &&& separated_list::<Compare>(first) == Some(txn.compares)
            &&& separated_list::<Operation>(second) == Some(txn.success)
            &&& separated_list::<Operation>(third) == Some(txn.failure)
            &&& j < txn.compares.len() ==> in_source_order::<Compare>(first, i, j)
            &&& j < txn.success.len() ==> in_source_order::<Operation>(second, i, j)
            &&& j < txn.failure.len() ==> in_source_order::<Operation>(third, i, j)
        }),
{
    let (first, second, third) = sections(s)->Some_0;
    let txn = TxnData::grammar(s)->Some_0.0;
    if j < txn.compares.len() {
        lemma_items_in_source_order::<Compare>(first, i, j);
    }
    if j < txn.success.len() {
        lemma_items_in_source_order::<Operation>(second, i, j);
    }
    if j < txn.failure.len() {
        lemma_items_in_source_order::<Operation>(third, i, j);
    }
}

} // verus!
