//! A compare operation.
//!
//! See the [Compare API](https://github.com/etcd-io/etcd/blob/main/etcdctl/README.md#txn-options) for
//! more information.
use crate::errors::{ParseError, ParseResult};
use crate::matcher::{begins_with, leading, lemma_leading, starts_with, Match};
use crate::operation::Data;
use crate::peek::{lemma_first_match, peek_group, peek_or_end, until, GroupKind};
use crate::primitives::{blank, optional_whitespaces, Number};
use crate::scanner::{lemma_moved_twice, Scanner};
use crate::token::{recognize, Token};
use crate::visitor::Visitor;
use vstd::prelude::*;
use vstd::slice::slice_subrange;

verus! {

//----------------------------------------------------------------------------
// Key
//----------------------------------------------------------------------------
/// The key of a compare operation, which stands in parentheses.
#[derive(Debug, PartialEq)]
pub struct Key<'a>(pub &'a [u8]);

impl<'a> View for Key<'a> {
    type V = Seq<u8>;

    open spec fn view(&self) -> Seq<u8> {
        self.0@
    }
}

impl<'a> Visitor<'a> for Key<'a> {
    /// An opening parenthesis, the bytes up to the next closing one, and
    /// that parenthesis. The bytes between the two are one literal, no more
    /// and no less, and that literal is the key.
    open spec fn grammar(s: Seq<u8>) -> Option<(Seq<u8>, nat)> {
        match GroupKind::Parenthesis.group(s) {
            Some((content, n)) => match Data::grammar(content) {
                Some((key, k)) => if k == content.len() {
                    Some((key, n))
                } else {
                    None
                },
                None => None,
            },
            None => None,
        }
    }

    fn accept(scanner: &mut Scanner<'a>) -> (r: ParseResult<Self>) {
        let group = match peek_group(GroupKind::Parenthesis, scanner) {
            Some(group) => group,
            None => {
                return Err(ParseError::UnexpectedToken);
            },
        };
        let mut inner_scanner = Scanner::new(group.peeked);
        let key = match Data::accept(&mut inner_scanner) {
            Ok(key) => key.data,
            Err(error) => {
                return Err(error);
            },
        };
        if !inner_scanner.is_empty() {
            return Err(ParseError::UnexpectedToken);
        }
        scanner.bump_by(group.end_slice);
        Ok(Key(key))
    }
}

// ----------------------------------------------------------------------------
// OpType
// ----------------------------------------------------------------------------
/// A comparison operator.
#[derive(Debug, Clone, Copy, PartialEq, Eq)]
pub enum OpType {
    /// Equal
    Equal,
    /// Greater than
    GreaterThan,
    /// Less than
    LessThan,
}

impl View for OpType {
    type V = OpType;

    open spec fn view(&self) -> OpType {
        *self
    }
}

impl OpType {
    /// The token that the operator is written with.
    pub open spec fn symbol(self) -> Token {
        match self {
            OpType::Equal => Token::Equal,
            OpType::GreaterThan => Token::GreaterThan,
            OpType::LessThan => Token::LessThan,
        }
    }

    /// The operator that a byte writes, if it writes one.
    pub open spec fn written_as(byte: u8) -> Option<OpType> {
        if byte == Token::Equal.byte() {
            Some(OpType::Equal)
        } else if byte == Token::GreaterThan.byte() {
            Some(OpType::GreaterThan)
        } else if byte == Token::LessThan.byte() {
            Some(OpType::LessThan)
        } else {
            None
        }
    }
}

impl<'a> Visitor<'a> for OpType {
    /// One byte, which writes an operator.
    open spec fn grammar(s: Seq<u8>) -> Option<(OpType, nat)> {
        if s.len() > 0 {
            match OpType::written_as(s[0]) {
                Some(op) => Some((op, 1)),
                None => None,
            }
        } else {
            None
        }
    }

    fn accept(scanner: &mut Scanner<'a>) -> (r: ParseResult<Self>) {
        let data = scanner.remaining();
        let operator = if recognize(Token::Equal, data) {
            OpType::Equal
        } else if recognize(Token::GreaterThan, data) {
            OpType::GreaterThan
        } else if recognize(Token::LessThan, data) {
            OpType::LessThan
        } else {
            return Err(ParseError::UnexpectedToken);
        };
        scanner.bump_by(1);
        Ok(operator)
    }
}

/// Operators and their symbols are paired one to one: each operator is what
/// its own symbol writes, a byte that writes an operator is the symbol of
/// that operator, and so no byte but `=`, `>` and `<` writes one.
pub proof fn lemma_operator_symbols_are_paired()
    ensures
        forall|op: OpType| OpType::written_as(#[trigger] op.symbol().byte()) == Some(op),
        forall|byte: u8|
            #![trigger OpType::written_as(byte)]
            match OpType::written_as(byte) {
                Some(op) => op.symbol().byte() == byte,
                None => byte != '=' as u8 && byte != '>' as u8 && byte != '<' as u8,
            },
{
}

// ----------------------------------------------------------------------------
// Keywords
// ----------------------------------------------------------------------------
/// The short keyword of a create revision.
pub const C: [u8; 1] = ['c' as u8];

/// The long keyword of a create revision.
pub const CREATE: [u8; 6] = ['c' as u8, 'r' as u8, 'e' as u8, 'a' as u8, 't' as u8, 'e' as u8];

/// The short keyword of a modify revision.
pub const M: [u8; 1] = ['m' as u8];

/// The long keyword of a modify revision.
pub const MOD: [u8; 3] = ['m' as u8, 'o' as u8, 'd' as u8];

/// The short keyword of a value.
pub const VAL: [u8; 3] = ['v' as u8, 'a' as u8, 'l' as u8];

/// The long keyword of a value.
pub const VALUE: [u8; 5] = ['v' as u8, 'a' as u8, 'l' as u8, 'u' as u8, 'e' as u8];

/// The short keyword of a version.
pub const VER: [u8; 3] = ['v' as u8, 'e' as u8, 'r' as u8];

/// The long keyword of a version.
pub const VERSION: [u8; 7] = [
    'v' as u8,
    'e' as u8,
    'r' as u8,
    's' as u8,
    'i' as u8,
    'o' as u8,
    'n' as u8,
];

/// The keyword of a lease, which has one spelling only.
pub const LEASE: [u8; 5] = ['l' as u8, 'e' as u8, 'a' as u8, 's' as u8, 'e' as u8];

/// Whether `s` begins with `keyword` and an opening parenthesis right after
/// it.
pub open spec fn keyword_opens(s: Seq<u8>, keyword: Seq<u8>) -> bool {
    starts_with(s, keyword) && Token::OpenParen.matches(s.skip(keyword.len() as int))
}

/// The length of the keyword that `s` begins with: one of the two
/// spellings, letter for letter, with an opening parenthesis right after it.
pub open spec fn keyword(s: Seq<u8>, short: Seq<u8>, long: Seq<u8>) -> Option<nat> {
    if keyword_opens(s, short) {
        Some(short.len())
    } else if keyword_opens(s, long) {
        Some(long.len())
    } else {
        None
    }
}

/// Whether what remains begins with `keyword` and an opening parenthesis.
fn keyword_ahead(scanner: &Scanner, keyword: &[u8]) -> (found: bool)
    ensures
        found == keyword_opens(scanner@, keyword@),
{
    let data = scanner.remaining();
    begins_with(data, keyword) && recognize(
        Token::OpenParen,
        slice_subrange(data, keyword.len(), data.len()),
    )
}

/// What follows the keyword of a compare operation, up to its right-hand
/// side: the key in parentheses, blanks, the operator, blanks.
pub open spec fn key_and_operator(s: Seq<u8>) -> Option<(Seq<u8>, OpType, nat)> {
    match Key::grammar(s) {
        Some((key, k)) => {
            let s1 = s.skip(k as int);
            let a = leading(s1, blank());
            let s2 = s1.skip(a as int);
            match OpType::grammar(s2) {
                Some((op, o)) => {
                    let s3 = s2.skip(o as int);
                    let b = leading(s3, blank());
                    Some((key, op, k + a + o + b))
                },
                None => None,
            }
        },
        None => None,
    }
}

/// What every compare operation begins with: blanks, the keyword in one of
/// its spellings, and what follows a keyword.
pub open spec fn condition(s: Seq<u8>, short: Seq<u8>, long: Seq<u8>) -> Option<
    (Seq<u8>, OpType, nat),
> {
    let a = leading(s, blank());
    let s1 = s.skip(a as int);
    match keyword(s1, short, long) {
        Some(w) => match key_and_operator(s1.skip(w as int)) {
            Some((key, op, n)) => Some((key, op, a + w + n)),
            None => None,
        },
        None => None,
    }
}

/// Reads the beginning of a compare operation, up to its right-hand side.
/// Where the input does not begin with one, the scanner stays where it was.
fn accept_condition<'a>(scanner: &mut Scanner<'a>, short: &[u8], long: &[u8]) -> (r: ParseResult<
    (&'a [u8], OpType),
>)
    ensures
        match condition(old(scanner)@, short@, long@) {
            Some((key, op, n)) => r matches Ok(found) && found.0@ == key && found.1 == op && old(
                scanner,
            ).moved(*final(scanner), n),
            None => r is Err && *final(scanner) == *old(scanner),
        },
{
    let mut cursor = *scanner;
    let ghost at0 = cursor;
    let a: usize = optional_whitespaces(&mut cursor);
    let ghost at1 = cursor;
    let w: usize = if keyword_ahead(&cursor, short) {
        short.len()
    } else if keyword_ahead(&cursor, long) {
        long.len()
    } else {
        return Err(ParseError::UnexpectedToken);
    };
    cursor.bump_by(w);
    let ghost at2 = cursor;
    let key = match Key::accept(&mut cursor) {
        Ok(key) => key.0,
        Err(error) => {
            return Err(error);
        },
    };
    let ghost at3 = cursor;
    let b: usize = optional_whitespaces(&mut cursor);
    let ghost at4 = cursor;
    let op = match OpType::accept(&mut cursor) {
        Ok(op) => op,
        Err(error) => {
            return Err(error);
        },
    };
    let ghost at5 = cursor;
    let c: usize = optional_whitespaces(&mut cursor);
    proof {
        let (a, w, b, c) = (a as nat, w as nat, b as nat, c as nat);
        let k = Key::grammar(at2@)->Some_0.1;
        lemma_moved_twice(at2, at3, at4, k, b);
        lemma_moved_twice(at2, at4, at5, k + b, 1);
        lemma_moved_twice(at2, at5, cursor, k + b + 1, c);
        lemma_moved_twice(at0, at1, at2, a, w);
        lemma_moved_twice(at0, at2, cursor, a + w, k + b + 1 + c);
    }
    *scanner = cursor;
    Ok((key, op))
}

/// What a compare operation with a number on its right-hand side holds.
pub struct NumberComparisonView {
    pub key: Seq<u8>,
    pub value: u64,
    pub op: OpType,
}

/// A compare operation with a number on its right-hand side: what all of
/// them begin with, and the number.
pub open spec fn number_compare(s: Seq<u8>, short: Seq<u8>, long: Seq<u8>) -> Option<
    (NumberComparisonView, nat),
> {
    match condition(s, short, long) {
        Some((key, op, n)) => match Number::grammar(s.skip(n as int)) {
            Some((value, v)) => Some((NumberComparisonView { key, value, op }, n + v)),
            None => None,
        },
        None => None,
    }
}

/// Reads a compare operation with a number on its right-hand side. Where
/// the input does not begin with one, the scanner stays where it was.
fn accept_number_compare<'a>(scanner: &mut Scanner<'a>, short: &[u8], long: &[u8]) -> (r:
    ParseResult<(&'a [u8], u64, OpType)>)
    ensures
        match number_compare(old(scanner)@, short@, long@) {
            Some((compare, n)) => r matches Ok(found) && found.0@ == compare.key && found.1
                == compare.value && found.2 == compare.op && old(scanner).moved(
                *final(scanner),
                n,
            ),
            None => r is Err && *final(scanner) == *old(scanner),
        },
{
    let mut cursor = *scanner;
    let ghost at0 = cursor;
    let (key, op) = match accept_condition(&mut cursor, short, long) {
        Ok(found) => found,
        Err(error) => {
            return Err(error);
        },
    };
    let ghost at1 = cursor;
    let value = match Number::accept(&mut cursor) {
        Ok(number) => number.0,
        Err(error) => {
            return Err(error);
        },
    };
    proof {
        let n = condition(at0@, short@, long@)->Some_0.2;
        let v = Number::grammar(at1@)->Some_0.1;
        lemma_moved_twice(at0, at1, cursor, n, v);
    }
    *scanner = cursor;
    Ok((key, value, op))
}

// ----------------------------------------------------------------------------
// Compare create revision
// ----------------------------------------------------------------------------
/// A create revision compare operation.
#[derive(Debug, PartialEq)]
pub struct CreateRevision<'a> {
    /// The key to compare.
    pub key: &'a [u8],
    /// The value to compare with.
    pub value: u64,
    /// The comparison operator.
    pub op: OpType,
}

impl<'a> View for CreateRevision<'a> {
    type V = NumberComparisonView;

    open spec fn view(&self) -> NumberComparisonView {
        NumberComparisonView { key: self.key@, value: self.value, op: self.op }
    }
}

impl<'a> Visitor<'a> for CreateRevision<'a> {
    /// `c` or `create`, the key in parentheses, the operator and a number.
    open spec fn grammar(s: Seq<u8>) -> Option<(NumberComparisonView, nat)> {
        number_compare(s, C@, CREATE@)
    }

    fn accept(scanner: &mut Scanner<'a>) -> (r: ParseResult<Self>) {
        match accept_number_compare(scanner, C.as_slice(), CREATE.as_slice()) {
            Ok((key, value, op)) => Ok(CreateRevision { key, value, op }),
            Err(error) => Err(error),
        }
    }
}

// ----------------------------------------------------------------------------
// Compare mod revision
// ----------------------------------------------------------------------------
/// A modify revision compare operation.
#[derive(Debug, PartialEq)]
pub struct ModRevision<'a> {
    /// The key to compare.
    pub key: &'a [u8],
    /// The value to compare with.
    pub value: u64,
    /// The comparison operator.
    pub op: OpType,
}

impl<'a> View for ModRevision<'a> {
    type V = NumberComparisonView;

    open spec fn view(&self) -> NumberComparisonView {
        NumberComparisonView { key: self.key@, value: self.value, op: self.op }
    }
}

impl<'a> Visitor<'a> for ModRevision<'a> {
    /// `m` or `mod`, the key in parentheses, the operator and a number.
    open spec fn grammar(s: Seq<u8>) -> Option<(NumberComparisonView, nat)> {
        number_compare(s, M@, MOD@)
    }

    fn accept(scanner: &mut Scanner<'a>) -> (r: ParseResult<Self>) {
        match accept_number_compare(scanner, M.as_slice(), MOD.as_slice()) {
            Ok((key, value, op)) => Ok(ModRevision { key, value, op }),
            Err(error) => Err(error),
        }
    }
}

// ----------------------------------------------------------------------------
// Compare value
// ----------------------------------------------------------------------------
/// A value compare operation.
#[derive(Debug, PartialEq)]
pub struct Value<'a> {
    /// The key to compare.
    pub key: &'a [u8],
    /// The value to compare with.
    pub value: &'a [u8],
    /// The comparison operator.
    pub op: OpType,
}

/// What a value compare operation holds.
pub struct ValueView {
    pub key: Seq<u8>,
    pub value: Seq<u8>,
    pub op: OpType,
}

impl<'a> View for Value<'a> {
    type V = ValueView;

    open spec fn view(&self) -> ValueView {
        ValueView { key: self.key@, value: self.value@, op: self.op }
    }
}

impl<'a> Visitor<'a> for Value<'a> {
    /// `val` or `value`, the key in parentheses, the operator, and as the
    /// value the rest of the line as it stands: the bytes up to the next
    /// line feed, or up to the end of the input.
    open spec fn grammar(s: Seq<u8>) -> Option<(ValueView, nat)> {
        match condition(s, VAL@, VALUE@) {
            Some((key, op, n)) => {
                let rest = s.skip(n as int);
                let v = until(Token::Ln, rest);
                Some((ValueView { key, value: rest.take(v as int), op }, n + v))
            },
            None => None,
        }
    }

    fn accept(scanner: &mut Scanner<'a>) -> (r: ParseResult<Self>) {
        let mut cursor = *scanner;
        let ghost at0 = cursor;
        let (key, op) = match accept_condition(&mut cursor, VAL.as_slice(), VALUE.as_slice()) {
            Ok(found) => found,
            Err(error) => {
                return Err(error);
            },
        };
        let ghost at1 = cursor;
        let value = peek_or_end(&Token::Ln, &cursor);
        proof {
            lemma_first_match(Token::Ln, cursor@);
        }
        cursor.bump_by(value.len());
        proof {
            let n = condition(at0@, VAL@, VALUE@)->Some_0.2;
            lemma_moved_twice(at0, at1, cursor, n, value@.len());
        }
        *scanner = cursor;
        Ok(Value { key, value, op })
    }
}

// ----------------------------------------------------------------------------
// Compare version
// ----------------------------------------------------------------------------
/// A version compare operation.
#[derive(Debug, PartialEq)]
pub struct Version<'a> {
    /// The key to compare.
    pub key: &'a [u8],
    /// The value to compare with.
    pub value: u64,
    /// The comparison operator.
    pub op: OpType,
}

impl<'a> View for Version<'a> {
    type V = NumberComparisonView;

    open spec fn view(&self) -> NumberComparisonView {
        NumberComparisonView { key: self.key@, value: self.value, op: self.op }
    }
}

impl<'a> Visitor<'a> for Version<'a> {
    /// `ver` or `version`, the key in parentheses, the operator and a
    /// number.
    open spec fn grammar(s: Seq<u8>) -> Option<(NumberComparisonView, nat)> {
        number_compare(s, VER@, VERSION@)
    }

    fn accept(scanner: &mut Scanner<'a>) -> (r: ParseResult<Self>) {
        match accept_number_compare(scanner, VER.as_slice(), VERSION.as_slice()) {
            Ok((key, value, op)) => Ok(Version { key, value, op }),
            Err(error) => Err(error),
        }
    }
}

// ----------------------------------------------------------------------------
// Compare lease
// ----------------------------------------------------------------------------
/// A lease compare operation.
#[derive(Debug, PartialEq)]
pub struct Lease<'a> {
    /// The key to compare.
    pub key: &'a [u8],
    /// The value to compare with.
    pub value: u64,
    /// The comparison operator.
    pub op: OpType,
}

impl<'a> View for Lease<'a> {
    type V = NumberComparisonView;

    open spec fn view(&self) -> NumberComparisonView {
        NumberComparisonView { key: self.key@, value: self.value, op: self.op }
    }
}

impl<'a> Visitor<'a> for Lease<'a> {
    /// `lease`, the key in parentheses, the operator and a number.
    open spec fn grammar(s: Seq<u8>) -> Option<(NumberComparisonView, nat)> {
        number_compare(s, LEASE@, LEASE@)
    }

    fn accept(scanner: &mut Scanner<'a>) -> (r: ParseResult<Self>) {
        match accept_number_compare(scanner, LEASE.as_slice(), LEASE.as_slice()) {
            Ok((key, value, op)) => Ok(Lease { key, value, op }),
            Err(error) => Err(error),
        }
    }
}

//----------------------------------------------------------------------------
// Compare
//----------------------------------------------------------------------------
/// A compare operation.
#[derive(Debug, PartialEq)]
pub enum Compare<'a> {
    /// A create revision compare operation.
    CreateRevision(CreateRevision<'a>),
    /// A modify revision compare operation.
    ModRevision(ModRevision<'a>),
    /// A value compare operation.
    Value(Value<'a>),
    /// A version compare operation.
    Version(Version<'a>),
    /// A lease compare operation.
    Lease(Lease<'a>),
}

/// What a compare operation holds.
pub enum ComparisonView {
    CreateRevision(NumberComparisonView),
    ModRevision(NumberComparisonView),
    Value(ValueView),
    Version(NumberComparisonView),
    Lease(NumberComparisonView),
}

impl<'a> View for Compare<'a> {
    type V = ComparisonView;

    open spec fn view(&self) -> ComparisonView {
        match self {
            Compare::CreateRevision(compare) => ComparisonView::CreateRevision(compare@),
            Compare::ModRevision(compare) => ComparisonView::ModRevision(compare@),
            Compare::Value(compare) => ComparisonView::Value(compare@),
            Compare::Version(compare) => ComparisonView::Version(compare@),
            Compare::Lease(compare) => ComparisonView::Lease(compare@),
        }
    }
}

impl<'a> Visitor<'a> for Compare<'a> {
    /// The first of the five compare operations that the input begins with,
    /// tried in this order: modify revision, create revision, value, version,
    /// lease.
    open spec fn grammar(s: Seq<u8>) -> Option<(ComparisonView, nat)> {
        match ModRevision::grammar(s) {
            Some((compare, n)) => Some((ComparisonView::ModRevision(compare), n)),
            None => match CreateRevision::grammar(s) {
                Some((compare, n)) => Some((ComparisonView::CreateRevision(compare), n)),
                None => match Value::grammar(s) {
                    Some((compare, n)) => Some((ComparisonView::Value(compare), n)),
                    None => match Version::grammar(s) {
                        Some((compare, n)) => Some((ComparisonView::Version(compare), n)),
                        None => match Lease::grammar(s) {
                            Some((compare, n)) => Some((ComparisonView::Lease(compare), n)),
                            None => None,
                        },
                    },
                },
            },
        }
    }

    fn accept(scanner: &mut Scanner<'a>) -> (r: ParseResult<Self>) {
        match ModRevision::accept(scanner) {
            Ok(compare) => Ok(Compare::ModRevision(compare)),
            Err(_) => match CreateRevision::accept(scanner) {
                Ok(compare) => Ok(Compare::CreateRevision(compare)),
                Err(_) => match Value::accept(scanner) {
                    Ok(compare) => Ok(Compare::Value(compare)),
                    Err(_) => match Version::accept(scanner) {
                        Ok(compare) => Ok(Compare::Version(compare)),
                        Err(_) => match Lease::accept(scanner) {
                            Ok(compare) => Ok(Compare::Lease(compare)),
                            Err(error) => Err(error),
                        },
                    },
                },
            },
        }
    }
}

//----------------------------------------------------------------------------
// The order of the alternatives
//----------------------------------------------------------------------------
/// An input that begins with a keyword holds, at each place where the two
/// spellings hold the same letter, that letter.
proof fn lemma_keyword_letter(s: Seq<u8>, short: Seq<u8>, long: Seq<u8>, i: int)
    requires
        keyword(s, short, long) is Some,
        0 <= i < short.len(),
        0 <= i < long.len(),
        short[i] == long[i],
    ensures
        i < s.len(),
        s[i] == short[i],
{
    if keyword_opens(s, short) {
        assert(s.take(short.len() as int)[i] == s[i]);
    } else {
        assert(s.take(long.len() as int)[i] == s[i]);
    }
}

/// No line begins two kinds of compare operation: the keywords tell the
/// five kinds apart, so the order in which they are tried decides nothing.
pub proof fn lemma_compare_keywords_are_apart(s: Seq<u8>)
    ensures
        ModRevision::grammar(s) is Some ==> CreateRevision::grammar(s) is None && Value::grammar(
            s,
        ) is None && Version::grammar(s) is None && Lease::grammar(s) is None,
        CreateRevision::grammar(s) is Some ==> Value::grammar(s) is None && Version::grammar(s)
            is None && Lease::grammar(s) is None,
        Value::grammar(s) is Some ==> Version::grammar(s) is None && Lease::grammar(s) is None,
        Version::grammar(s) is Some ==> Lease::grammar(s) is None,
{
    let s1 = s.skip(leading(s, blank()) as int);
    if keyword(s1, M@, MOD@) is Some {
        lemma_keyword_letter(s1, M@, MOD@, 0);
    }
    if keyword(s1, C@, CREATE@) is Some {
        lemma_keyword_letter(s1, C@, CREATE@, 0);
    }
    if keyword(s1, VAL@, VALUE@) is Some {
        lemma_keyword_letter(s1, VAL@, VALUE@, 0);
        lemma_keyword_letter(s1, VAL@, VALUE@, 1);
    }
    if keyword(s1, VER@, VERSION@) is Some {
        lemma_keyword_letter(s1, VER@, VERSION@, 0);
        lemma_keyword_letter(s1, VER@, VERSION@, 1);
    }
    if keyword(s1, LEASE@, LEASE@) is Some {
        lemma_keyword_letter(s1, LEASE@, LEASE@, 0);
    }
}

//----------------------------------------------------------------------------
// The two spellings of a keyword
//----------------------------------------------------------------------------
/// Whether two readings hold the same value, the second having taken
/// `extra` bytes more than the first, or are both none.
pub open spec fn agree<T>(first: Option<(T, nat)>, second: Option<(T, nat)>, extra: nat) -> bool {
    match (first, second) {
        (Some((a, n)), Some((b, m))) => a == b && m == n + extra,
        (None, None) => true,
        _ => false,
    }
}

/// What follows a keyword lies within the input that it is read from.
proof fn lemma_key_and_operator_fits(s: Seq<u8>)
    ensures
        key_and_operator(s) matches Some((_, _, n)) ==> n <= s.len(),
{
    if let Some((key, k)) = Key::grammar(s) {
        lemma_first_match(Token::CloseParen, s.skip(1));
        let s1 = s.skip(k as int);
        lemma_leading(s1, blank());
        let s2 = s1.skip(leading(s1, blank()) as int);
        if let Some((op, o)) = OpType::grammar(s2) {
            lemma_leading(s2.skip(o as int), blank());
        }
    }
}

/// Behind a keyword that `keyword` reads, a compare operation goes on with
/// what follows a keyword.
proof fn lemma_keyword_read(word: Seq<u8>, tail: Seq<u8>, short: Seq<u8>, long: Seq<u8>)
    requires
        word.len() > 0,
        !blank()(word[0]),
        keyword(word + tail, short, long) == Some(word.len()),
    ensures
        condition(word + tail, short, long) == match key_and_operator(tail) {
            Some((key, op, n)) => Some((key, op, word.len() + n)),
            None => None,
        },
        key_and_operator(tail) matches Some((_, _, n)) ==> (word + tail).skip(
            (word.len() + n) as int,
        ) == tail.skip(n as int),
{
    let s = word + tail;
    assert(s[0] == word[0]);
    assert(s.skip(0) =~= s);
    assert(s.skip(word.len() as int) =~= tail);
    lemma_key_and_operator_fits(tail);
    if let Some((_, _, n)) = key_and_operator(tail) {
        assert(s.skip((word.len() + n) as int) =~= tail.skip(n as int));
    }
}

/// An input that differs from both spellings of a keyword, each at some
/// byte, does not begin a compare operation of that keyword.
proof fn lemma_other_keyword(s: Seq<u8>, short: Seq<u8>, long: Seq<u8>, i: int, j: int)
    requires
        s.len() > 0,
        !blank()(s[0]),
        0 <= i < short.len(),
        0 <= j < long.len(),
        i < s.len() ==> s[i] != short[i],
        j < s.len() ==> s[j] != long[j],
    ensures
        condition(s, short, long) is None,
{
    assert(s.skip(0) =~= s);
    if starts_with(s, short) {
        assert(s.take(short.len() as int)[i] == s[i]);
    }
    if starts_with(s, long) {
        assert(s.take(long.len() as int)[j] == s[j]);
    }
}

/// With either spelling of its keyword before it, what follows a keyword
/// is read the same.
proof fn lemma_spellings(short: Seq<u8>, long: Seq<u8>, tail: Seq<u8>)
    requires
        Token::OpenParen.matches(tail),
        0 < short.len() < long.len(),
        !blank()(short[0]),
        !blank()(long[0]),
        long[short.len() as int] != Token::OpenParen.byte(),
    ensures
        keyword(short + tail, short, long) == Some(short.len()),
        keyword(long + tail, short, long) == Some(long.len()),
{
    let s = short + tail;
    assert(s.take(short.len() as int) =~= short);
    assert(s.skip(short.len() as int) =~= tail);
    let l = long + tail;
    assert(l.take(long.len() as int) =~= long);
    assert(l.skip(long.len() as int) =~= tail);
    assert(l.skip(short.len() as int)[0] == long[short.len() as int]);
}

/// With `c` or with `create` before the parenthesis, a line is read as the
/// same compare operation.
pub proof fn lemma_create_spellings_agree(rest: Seq<u8>)
    ensures
        agree(
            Compare::grammar(C@ + seq![Token::OpenParen.byte()] + rest),
            Compare::grammar(CREATE@ + seq![Token::OpenParen.byte()] + rest),
            (CREATE@.len() - C@.len()) as nat,
        ),
{
    let tail = seq![Token::OpenParen.byte()] + rest;
    let s = C@ + tail;
    let l = CREATE@ + tail;
    assert(C@ + seq![Token::OpenParen.byte()] + rest =~= s);
    assert(CREATE@ + seq![Token::OpenParen.byte()] + rest =~= l);
    lemma_spellings(C@, CREATE@, tail);
    lemma_keyword_read(C@, tail, C@, CREATE@);
    lemma_keyword_read(CREATE@, tail, C@, CREATE@);
    lemma_other_keyword(s, M@, MOD@, 0, 0);
    lemma_other_keyword(l, M@, MOD@, 0, 0);
    lemma_other_keyword(s, VAL@, VALUE@, 0, 0);
    lemma_other_keyword(l, VAL@, VALUE@, 0, 0);
    lemma_other_keyword(s, VER@, VERSION@, 0, 0);
    lemma_other_keyword(l, VER@, VERSION@, 0, 0);
    lemma_other_keyword(s, LEASE@, LEASE@, 0, 0);
    lemma_other_keyword(l, LEASE@, LEASE@, 0, 0);
}

/// With `m` or with `mod` before the parenthesis, a line is read as the
/// same compare operation.
pub proof fn lemma_mod_spellings_agree(rest: Seq<u8>)
    ensures
        agree(
            Compare::grammar(M@ + seq![Token::OpenParen.byte()] + rest),
            Compare::grammar(MOD@ + seq![Token::OpenParen.byte()] + rest),
            (MOD@.len() - M@.len()) as nat,
        ),
{
    let tail = seq![Token::OpenParen.byte()] + rest;
    let s = M@ + tail;
    let l = MOD@ + tail;
    assert(M@ + seq![Token::OpenParen.byte()] + rest =~= s);
    assert(MOD@ + seq![Token::OpenParen.byte()] + rest =~= l);
    lemma_spellings(M@, MOD@, tail);
    lemma_keyword_read(M@, tail, M@, MOD@);
    lemma_keyword_read(MOD@, tail, M@, MOD@);
    lemma_other_keyword(s, C@, CREATE@, 0, 0);
    lemma_other_keyword(l, C@, CREATE@, 0, 0);
    lemma_other_keyword(s, VAL@, VALUE@, 0, 0);
    lemma_other_keyword(l, VAL@, VALUE@, 0, 0);
    lemma_other_keyword(s, VER@, VERSION@, 0, 0);
    lemma_other_keyword(l, VER@, VERSION@, 0, 0);
    lemma_other_keyword(s, LEASE@, LEASE@, 0, 0);
    lemma_other_keyword(l, LEASE@, LEASE@, 0, 0);
}

/// With `val` or with `value` before the parenthesis, a line is read as the
/// same compare operation.
pub proof fn lemma_value_spellings_agree(rest: Seq<u8>)
    ensures
        agree(
            Compare::grammar(VAL@ + seq![Token::OpenParen.byte()] + rest),
            Compare::grammar(VALUE@ + seq![Token::OpenParen.byte()] + rest),
            (VALUE@.len() - VAL@.len()) as nat,
        ),
{
    let tail = seq![Token::OpenParen.byte()] + rest;
    let s = VAL@ + tail;
    let l = VALUE@ + tail;
    assert(VAL@ + seq![Token::OpenParen.byte()] + rest =~= s);
    assert(VALUE@ + seq![Token::OpenParen.byte()] + rest =~= l);
    lemma_spellings(VAL@, VALUE@, tail);
    lemma_keyword_read(VAL@, tail, VAL@, VALUE@);
    lemma_keyword_read(VALUE@, tail, VAL@, VALUE@);
    lemma_other_keyword(s, M@, MOD@, 0, 0);
    lemma_other_keyword(l, M@, MOD@, 0, 0);
    lemma_other_keyword(s, C@, CREATE@, 0, 0);
    lemma_other_keyword(l, C@, CREATE@, 0, 0);
}

/// With `ver` or with `version` before the parenthesis, a line is read as
/// the same compare operation.
pub proof fn lemma_version_spellings_agree(rest: Seq<u8>)
    ensures
        agree(
            Compare::grammar(VER@ + seq![Token::OpenParen.byte()] + rest),
            Compare::grammar(VERSION@ + seq![Token::OpenParen.byte()] + rest),
            (VERSION@.len() - VER@.len()) as nat,
        ),
{
    let tail = seq![Token::OpenParen.byte()] + rest;
    let s = VER@ + tail;
    let l = VERSION@ + tail;
    assert(VER@ + seq![Token::OpenParen.byte()] + rest =~= s);
    assert(VERSION@ + seq![Token::OpenParen.byte()] + rest =~= l);
    lemma_spellings(VER@, VERSION@, tail);
    lemma_keyword_read(VER@, tail, VER@, VERSION@);
    lemma_keyword_read(VERSION@, tail, VER@, VERSION@);
    lemma_other_keyword(s, M@, MOD@, 0, 0);
    lemma_other_keyword(l, M@, MOD@, 0, 0);
    lemma_other_keyword(s, C@, CREATE@, 0, 0);
    lemma_other_keyword(l, C@, CREATE@, 0, 0);
    lemma_other_keyword(s, VAL@, VALUE@, 1, 1);
    lemma_other_keyword(l, VAL@, VALUE@, 1, 1);
    lemma_other_keyword(s, LEASE@, LEASE@, 0, 0);
    lemma_other_keyword(l, LEASE@, LEASE@, 0, 0);
}

} // verus!
