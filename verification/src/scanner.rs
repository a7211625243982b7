//! A cursor over an immutable byte buffer.
use crate::errors::{ParseError, ParseResult};
use vstd::prelude::*;
use vstd::slice::slice_subrange;

verus! {

/// A position in a byte buffer that is never written to.
///
/// The view of a scanner is the part of the buffer that remains to be read.
#[derive(Debug, Clone, Copy, PartialEq)]
pub struct Scanner<'a> {
    data: &'a [u8],
    position: usize,
}

impl<'a> View for Scanner<'a> {
    type V = Seq<u8>;

    open spec fn view(&self) -> Seq<u8> {
        self.source().skip(self.offset() as int)
    }
}

impl<'a> Scanner<'a> {
    #[verifier::type_invariant]
    spec fn in_bounds(self) -> bool {
        self.position <= self.data@.len()
    }

    /// The whole buffer, whatever the position.
    pub closed spec fn source(self) -> Seq<u8> {
        self.data@
    }

    /// The number of bytes of the buffer that lie before the position.
    pub closed spec fn offset(self) -> nat {
        self.position as nat
    }

    /// `after` is this scanner moved forward by `n` bytes of its remaining input.
    pub open spec fn moved(self, after: Scanner<'a>, n: nat) -> bool {
        &&& n <= self@.len()
        &&& after.source() == self.source()
        &&& after.offset() == self.offset() + n
        &&& after@ == self@.skip(n as int)
    }

    /// A scanner at the start of `data`. Made over a part of another
    /// scanner's input, it is independent of that scanner, and nothing read
    /// through it reaches past the end of that part.
    pub fn new(data: &'a [u8]) -> (scanner: Self)
        ensures
            scanner@ == data@,
            scanner.source() == data@,
            scanner.offset() == 0,
    {
        assert(data@.skip(0) =~= data@);
        Scanner { data, position: 0 }
    }

    /// The number of bytes already passed.
    pub fn current_position(&self) -> (position: usize)
        ensures
            position == self.offset(),
            position <= self.source().len(),
            self@.len() == self.source().len() - position,
    {
        proof {
            use_type_invariant(self);
        }
        self.position
    }

    /// The buffer the scanner was made over.
    pub fn data(&self) -> (data: &'a [u8])
        ensures
            data@ == self.source(),
    {
        self.data
    }

    /// The bytes that remain to be read.
    pub fn remaining(&self) -> (rest: &'a [u8])
        ensures
            rest@ == self@,
    {
        proof {
            use_type_invariant(self);
        }
        slice_subrange(self.data, self.position, self.data.len())
    }

    /// Whether no byte remains.
    pub fn is_empty(&self) -> (empty: bool)
        ensures
            empty == (self@.len() == 0),
    {
        proof {
            use_type_invariant(self);
        }
        self.position == self.data.len()
    }

    /// Moves forward by `n` bytes, which must remain.
    pub fn bump_by(&mut self, n: usize)
        requires
            n <= old(self)@.len(),
        ensures
            old(self).moved(*final(self), n as nat),
    {
        proof {
            use_type_invariant(&*self);
            assert(self.position + n <= self.data.len());
        }
        self.position = self.position + n;
        assert(self@ =~= old(self)@.skip(n as int));
    }

    /// Moves forward by exactly `n` bytes, or fails and stays where more than
    /// the remaining bytes are asked for.
    pub fn advance(&mut self, n: usize) -> (r: ParseResult<()>)
        ensures
            n <= old(self)@.len() ==> r is Ok && old(self).moved(*final(self), n as nat),
            n > old(self)@.len() ==> r is Err && *final(self) == *old(self),
    {
        if n <= self.remaining().len() {
            self.bump_by(n);
            Ok(())
        } else {
            Err(ParseError::UnexpectedToken)
        }
    }
}

/// Moving twice is moving once by the sum.
pub proof fn lemma_moved_twice<'a>(a: Scanner<'a>, b: Scanner<'a>, c: Scanner<'a>, n: nat, m: nat)
    requires
        a.moved(b, n),
        b.moved(c, m),
    ensures
        a.moved(c, n + m),
{
    assert(a@.skip(n as int).skip(m as int) =~= a@.skip((n + m) as int));
}

/// A scanner is where it is: it has moved by nothing.
pub proof fn lemma_moved_nowhere<'a>(a: Scanner<'a>)
    ensures
        a.moved(a, 0),
{
    assert(a@.skip(0) =~= a@);
}

} // verus!
