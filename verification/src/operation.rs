//! Transactional operations
use crate::errors::{ParseError, ParseResult};
use crate::matcher::{leading, lemma_leading, same_bytes, word, Match};
use elyze::bytes::matchers::match_string;
use crate::peek::{
    lemma_first_match, lemma_first_match_is, peek_group, peek_or_end, until, GroupKind,
};
use crate::primitives::{blank, optional_whitespaces};
use crate::scanner::{lemma_moved_twice, Scanner};
use crate::token::{recognize, Token};
use crate::visitor::Visitor;
use vstd::prelude::*;
use vstd::slice::slice_subrange;

verus! {

// ----------------------------------------------------------------------------
// QuotedString
// ----------------------------------------------------------------------------
/// A literal between two double quotes, without the quotes.
#[derive(Debug, PartialEq)]
pub struct QuotedString<'a>(pub &'a [u8]);

impl<'a> View for QuotedString<'a> {
    type V = Seq<u8>;

    open spec fn view(&self) -> Seq<u8> {
        self.0@
    }
}

impl<'a> Visitor<'a> for QuotedString<'a> {
    /// A double quote, the bytes up to the next double quote, and that
    /// quote: the literal is what stands between the two, as it stands.
    open spec fn grammar(s: Seq<u8>) -> Option<(Seq<u8>, nat)> {
        GroupKind::DoubleQuotes.group(s)
    }

    fn accept(scanner: &mut Scanner<'a>) -> (r: ParseResult<Self>) {
        match peek_group(GroupKind::DoubleQuotes, scanner) {
            Some(peeked) => {
                scanner.bump_by(peeked.end_slice);
                Ok(QuotedString(peeked.peeked))
            },
            None => Err(ParseError::UnexpectedToken),
        }
    }
}

//----------------------------------------------------------------------------
// UnquotedString
//----------------------------------------------------------------------------
/// The end of a literal that is written without quotes: a space, a tab or a
/// line feed.
#[derive(Debug, Clone, Copy)]
pub struct LiteralEnd;

impl Match for LiteralEnd {
    open spec fn matches(&self, s: Seq<u8>) -> bool {
        Token::Whitespace.matches(s) || Token::Tab.matches(s) || Token::Ln.matches(s)
    }

    open spec fn length(&self) -> nat {
        1
    }

    proof fn lemma_match_fits(&self, s: Seq<u8>) {
    }

    fn is_matching(&self, data: &[u8]) -> (r: (bool, usize)) {
        if recognize(Token::Whitespace, data) || recognize(Token::Tab, data) || recognize(
            Token::Ln,
            data,
        ) {
            (true, 1)
        } else {
            (false, 0)
        }
    }

    fn size(&self) -> (n: usize) {
        1
    }
}

/// A literal that is written without quotes.
#[derive(Debug, PartialEq)]
pub struct UnquotedString<'a>(pub &'a [u8]);

impl<'a> View for UnquotedString<'a> {
    type V = Seq<u8>;

    open spec fn view(&self) -> Seq<u8> {
        self.0@
    }
}

impl<'a> Visitor<'a> for UnquotedString<'a> {
    /// The bytes up to the next space, tab or line feed, or up to the end
    /// of the input. There must be one at least, and the first is no double
    /// quote: a quote that is opened must be closed.
    open spec fn grammar(s: Seq<u8>) -> Option<(Seq<u8>, nat)> {
        let n = until(LiteralEnd, s);
        if n > 0 && !Token::DoubleQuote.matches(s) {
            Some((s.take(n as int), n))
        } else {
            None
        }
    }

    fn accept(scanner: &mut Scanner<'a>) -> (r: ParseResult<Self>) {
        if recognize(Token::DoubleQuote, scanner.remaining()) {
            return Err(ParseError::UnexpectedToken);
        }
        let literal = peek_or_end(&LiteralEnd, scanner);
        if literal.len() == 0 {
            return Err(ParseError::UnexpectedToken);
        }
        proof {
            lemma_first_match(LiteralEnd, scanner@);
        }
        scanner.bump_by(literal.len());
        Ok(UnquotedString(literal))
    }
}

//----------------------------------------------------------------------------
// Data
//----------------------------------------------------------------------------
/// A key or a value, quoted or not.
#[derive(Debug, PartialEq)]
pub struct Data<'a> {
    /// The bytes of the literal.
    pub data: &'a [u8],
}

impl<'a> View for Data<'a> {
    type V = Seq<u8>;

    open spec fn view(&self) -> Seq<u8> {
        self.data@
    }
}

impl<'a> Visitor<'a> for Data<'a> {
    /// A quoted literal, or else an unquoted one.
    open spec fn grammar(s: Seq<u8>) -> Option<(Seq<u8>, nat)> {
        match QuotedString::grammar(s) {
            Some(quoted) => Some(quoted),
            None => UnquotedString::grammar(s),
        }
    }

    fn accept(scanner: &mut Scanner<'a>) -> (r: ParseResult<Self>) {
        match QuotedString::accept(scanner) {
            Ok(quoted) => Ok(Data { data: quoted.0 }),
            Err(_) => match UnquotedString::accept(scanner) {
                Ok(unquoted) => Ok(Data { data: unquoted.0 }),
                Err(error) => Err(error),
            },
        }
    }
}

/// A quoted literal is kept as it stands, whitespace and all, without the
/// two quotes around it: whatever bytes other than the double quote stand
/// between two quotes are the literal, and the literal ends with the second
/// quote.
pub proof fn lemma_quoted_literal_is_kept(content: Seq<u8>, rest: Seq<u8>)
    requires
        forall|i: int| 0 <= i < content.len() ==> content[i] != Token::DoubleQuote.byte(),
    ensures
        Data::grammar(
            seq![Token::DoubleQuote.byte()] + content + seq![Token::DoubleQuote.byte()] + rest,
        ) == Some((content, content.len() + 2)),
{
    let quote = seq![Token::DoubleQuote.byte()];
    let s = quote + content + quote + rest;
    let inside = s.skip(1);
    assert(inside =~= content + quote + rest);
    assert forall|j: int| 0 <= j < content.len() implies !Token::DoubleQuote.matches(
        #[trigger] inside.skip(j),
    ) by {
        assert(inside.skip(j)[0] == content[j]);
    }
    assert(inside.skip(content.len() as int)[0] == Token::DoubleQuote.byte());
    lemma_first_match_is(Token::DoubleQuote, inside, content.len());
    assert(s.subrange(1, content.len() as int + 1) =~= content);
}

/// A literal that is written without quotes holds no space, no tab and no
/// line feed, and it ends only where one of them stands, or with the input.
pub proof fn lemma_unquoted_literal_has_no_whitespace(s: Seq<u8>)
    requires
        UnquotedString::grammar(s) is Some,
    ensures
        ({
            let (literal, n) = UnquotedString::grammar(s)->Some_0;
            &&& 0 < n <= s.len()
            &&& literal == s.take(n as int)
            &&& forall|i: int|
                0 <= i < literal.len() ==> #[trigger] literal[i] != Token::Whitespace.byte()
                    && literal[i] != Token::Tab.byte() && literal[i] != Token::Ln.byte()
            &&& n < s.len() ==> s[n as int] == Token::Whitespace.byte() || s[n as int]
                == Token::Tab.byte() || s[n as int] == Token::Ln.byte()
        }),
{
    let (literal, n) = UnquotedString::grammar(s)->Some_0;
    lemma_first_match(LiteralEnd, s);
    assert forall|i: int| 0 <= i < literal.len() implies #[trigger] literal[i]
        != Token::Whitespace.byte() && literal[i] != Token::Tab.byte() && literal[i]
        != Token::Ln.byte() by {
        assert(!LiteralEnd.matches(s.skip(i)));
        assert(s.skip(i)[0] == s[i]);
    }
    if n < s.len() {
        assert(s.skip(n as int)[0] == s[n as int]);
    }
}

// ----------------------------------------------------------------------------
// Commands
// ----------------------------------------------------------------------------
/// The command that puts a value under a key.
pub const PUT: [u8; 3] = ['p' as u8, 'u' as u8, 't' as u8];

/// The command that deletes a key.
pub const DEL: [u8; 3] = ['d' as u8, 'e' as u8, 'l' as u8];

/// The command that gets the value under a key.
pub const GET: [u8; 3] = ['g' as u8, 'e' as u8, 't' as u8];

/// Whether the word that `s` begins with is `keyword`, no more and no less.
pub open spec fn command(s: Seq<u8>, keyword: Seq<u8>) -> bool {
    leading(s, word()) == keyword.len() && s.take(keyword.len() as int) == keyword
}

/// Reads the word that what remains begins with, which must be `keyword`:
/// the scanner moves past it, or stays where another word stands, or none.
pub fn accept_command(scanner: &mut Scanner, keyword: &[u8]) -> (found: bool)
    ensures
        found == command(old(scanner)@, keyword@),
        found ==> old(scanner).moved(*final(scanner), keyword@.len()),
        !found ==> *final(scanner) == *old(scanner),
{
    let data = scanner.remaining();
    let (_, n) = match_string(data);
    proof {
        lemma_leading(data@, word());
    }
    if n == keyword.len() && same_bytes(slice_subrange(data, 0, n), keyword) {
        scanner.bump_by(n);
        true
    } else {
        false
    }
}

/// What a command reads from the start of `s`, up to its key: blanks, the
/// command, blanks, the key, blanks.
pub open spec fn key_command(s: Seq<u8>, keyword: Seq<u8>) -> Option<(Seq<u8>, nat)> {
    let a = leading(s, blank());
    let s1 = s.skip(a as int);
    if command(s1, keyword) {
        let s2 = s1.skip(keyword.len() as int);
        let b = leading(s2, blank());
        let s3 = s2.skip(b as int);
        match Data::grammar(s3) {
            Some((key, k)) => {
                let s4 = s3.skip(k as int);
                let c = leading(s4, blank());
                Some((key, a + keyword.len() + b + k + c))
            },
            None => None,
        }
    } else {
        None
    }
}

/// Reads a command up to its key. Where the input does not begin with one,
/// the scanner stays where it was.
fn accept_key_command<'a>(scanner: &mut Scanner<'a>, keyword: &[u8]) -> (r: ParseResult<&'a [u8]>)
    ensures
        match key_command(old(scanner)@, keyword@) {
            Some((key, n)) => r matches Ok(k) && k@ == key && old(scanner).moved(
                *final(scanner),
                n,
            ),
            None => r is Err && *final(scanner) == *old(scanner),
        },
{
    let mut cursor = *scanner;
    let ghost at0 = cursor;
    let a: usize = optional_whitespaces(&mut cursor);
    let ghost at1 = cursor;
    if !accept_command(&mut cursor, keyword) {
        return Err(ParseError::UnexpectedToken);
    }
    let ghost at2 = cursor;
    let b: usize = optional_whitespaces(&mut cursor);
    let ghost at3 = cursor;
    let key = match Data::accept(&mut cursor) {
        Ok(key) => key.data,
        Err(error) => {
            return Err(error);
        },
    };
    let ghost at4 = cursor;
    let c: usize = optional_whitespaces(&mut cursor);
    proof {
        let (a, b, c) = (a as nat, b as nat, c as nat);
        let k = Data::grammar(at3@)->Some_0.1;
        lemma_moved_twice(at0, at1, at2, a, keyword@.len());
        lemma_moved_twice(at0, at2, at3, a + keyword@.len(), b);
        lemma_moved_twice(at0, at3, at4, a + keyword@.len() + b, k);
        lemma_moved_twice(at0, at4, cursor, a + keyword@.len() + b + k, c);
    }
    *scanner = cursor;
    Ok(key)
}

// ----------------------------------------------------------------------------
// Put Operation
// ----------------------------------------------------------------------------
/// A put operation.
#[derive(Debug, PartialEq)]
pub struct PutData<'a> {
    /// The key to put.
    pub key: &'a [u8],
    /// The value to put.
    pub value: &'a [u8],
}

/// What a put operation holds.
pub struct PutDataView {
    pub key: Seq<u8>,
    pub value: Seq<u8>,
}

impl<'a> View for PutData<'a> {
    type V = PutDataView;

    open spec fn view(&self) -> PutDataView {
        PutDataView { key: self.key@, value: self.value@ }
    }
}

impl<'a> Visitor<'a> for PutData<'a> {
    /// Blanks, `put`, blanks, the key, blanks, the value, blanks.
    open spec fn grammar(s: Seq<u8>) -> Option<(PutDataView, nat)> {
        match key_command(s, PUT@) {
            Some((key, n)) => {
                let s1 = s.skip(n as int);
                match Data::grammar(s1) {
                    Some((value, v)) => {
                        let b = leading(s1.skip(v as int), blank());
                        Some((PutDataView { key, value }, n + v + b))
                    },
                    None => None,
                }
            },
            None => None,
        }
    }

    fn accept(scanner: &mut Scanner<'a>) -> (r: ParseResult<Self>) {
        let mut cursor = *scanner;
        let ghost at0 = cursor;
        let key = match accept_key_command(&mut cursor, PUT.as_slice()) {
            Ok(key) => key,
            Err(error) => {
                return Err(error);
            },
        };
        let ghost at1 = cursor;
        let value = match Data::accept(&mut cursor) {
            Ok(value) => value.data,
            Err(error) => {
                return Err(error);
            },
        };
        let ghost at2 = cursor;
        let b: usize = optional_whitespaces(&mut cursor);
        proof {
            let n = key_command(at0@, PUT@)->Some_0.1;
            let v = Data::grammar(at1@)->Some_0.1;
            lemma_moved_twice(at0, at1, at2, n, v);
            lemma_moved_twice(at0, at2, cursor, n + v, b as nat);
        }
        *scanner = cursor;
        Ok(PutData { key, value })
    }
}

// ----------------------------------------------------------------------------
// Delete Operation
// ----------------------------------------------------------------------------
/// A delete operation.
#[derive(Debug, PartialEq)]
pub struct DeleteData<'a> {
    /// The key to delete.
    pub key: &'a [u8],
}

/// What a delete operation holds.
pub struct DeleteDataView {
    pub key: Seq<u8>,
}

impl<'a> View for DeleteData<'a> {
    type V = DeleteDataView;

    open spec fn view(&self) -> DeleteDataView {
        DeleteDataView { key: self.key@ }
    }
}

impl<'a> Visitor<'a> for DeleteData<'a> {
    /// Blanks, `del`, blanks, the key, blanks.
    open spec fn grammar(s: Seq<u8>) -> Option<(DeleteDataView, nat)> {
        match key_command(s, DEL@) {
            Some((key, n)) => Some((DeleteDataView { key }, n)),
            None => None,
        }
    }

    fn accept(scanner: &mut Scanner<'a>) -> (r: ParseResult<Self>) {
        match accept_key_command(scanner, DEL.as_slice()) {
            Ok(key) => Ok(DeleteData { key }),
            Err(error) => Err(error),
        }
    }
}

// ----------------------------------------------------------------------------
// Get Operation
// ----------------------------------------------------------------------------
/// A get operation.
#[derive(Debug, PartialEq)]
pub struct GetData<'a> {
    /// The key to get.
    pub key: &'a [u8],
}

/// What a get operation holds.
pub struct GetDataView {
    pub key: Seq<u8>,
}

impl<'a> View for GetData<'a> {
    type V = GetDataView;

    open spec fn view(&self) -> GetDataView {
        GetDataView { key: self.key@ }
    }
}

impl<'a> Visitor<'a> for GetData<'a> {
    /// Blanks, `get`, blanks, the key, blanks.
    open spec fn grammar(s: Seq<u8>) -> Option<(GetDataView, nat)> {
        match key_command(s, GET@) {
            Some((key, n)) => Some((GetDataView { key }, n)),
            None => None,
        }
    }

    fn accept(scanner: &mut Scanner<'a>) -> (r: ParseResult<Self>) {
        match accept_key_command(scanner, GET.as_slice()) {
            Ok(key) => Ok(GetData { key }),
            Err(error) => Err(error),
        }
    }
}

// ----------------------------------------------------------------------------
// Operation
// ----------------------------------------------------------------------------
/// A transactional operation.
#[derive(Debug, PartialEq)]
pub enum Operation<'a> {
    /// A put operation.
    Put(PutData<'a>),
    /// A delete operation.
    Delete(DeleteData<'a>),
    /// A get operation.
    Get(GetData<'a>),
}

/// What a transactional operation holds.
pub enum OperationView {
    Put(PutDataView),
    Delete(DeleteDataView),
    Get(GetDataView),
}

impl<'a> View for Operation<'a> {
    type V = OperationView;

    open spec fn view(&self) -> OperationView {
        match self {
            Operation::Put(put) => OperationView::Put(put@),
            Operation::Delete(delete) => OperationView::Delete(delete@),
            Operation::Get(get) => OperationView::Get(get@),
        }
    }
}

impl<'a> Visitor<'a> for Operation<'a> {
    /// The first of the three operations that the input begins with: a put,
    /// else a delete, else a get.
    open spec fn grammar(s: Seq<u8>) -> Option<(OperationView, nat)> {
        match PutData::grammar(s) {
            Some((put, n)) => Some((OperationView::Put(put), n)),
            None => match DeleteData::grammar(s) {
                Some((delete, n)) => Some((OperationView::Delete(delete), n)),
                None => match GetData::grammar(s) {
                    Some((get, n)) => Some((OperationView::Get(get), n)),
                    None => None,
                },
            },
        }
    }

    fn accept(scanner: &mut Scanner<'a>) -> (r: ParseResult<Self>) {
        match PutData::accept(scanner) {
            Ok(put) => Ok(Operation::Put(put)),
            Err(_) => match DeleteData::accept(scanner) {
                Ok(delete) => Ok(Operation::Delete(delete)),
                Err(_) => match GetData::accept(scanner) {
                    Ok(get) => Ok(Operation::Get(get)),
                    Err(error) => Err(error),
                },
            },
        }
    }
}

/// No line begins two kinds of operation: the commands tell the three kinds
/// apart, so the order in which they are tried decides nothing.
pub proof fn lemma_operation_commands_are_apart(s: Seq<u8>)
    ensures
        PutData::grammar(s) is Some ==> DeleteData::grammar(s) is None && GetData::grammar(s)
            is None,
        DeleteData::grammar(s) is Some ==> GetData::grammar(s) is None,
{
    let s1 = s.skip(leading(s, blank()) as int);
    lemma_leading(s1, word());
    if command(s1, PUT@) {
        assert(s1.take(3)[0] == PUT@[0]);
    }
    if command(s1, DEL@) {
        assert(s1.take(3)[0] == DEL@[0]);
    }
    if command(s1, GET@) {
        assert(s1.take(3)[0] == GET@[0]);
    }
}

} // verus!
