//! Rules of the grammar, each read from a scanner.
use crate::errors::ParseResult;
use crate::scanner::Scanner;
use vstd::prelude::*;

verus! {

/// A rule of the grammar: a value that can be read from the start of what a
/// scanner has left.
pub trait Visitor<'a>: Sized + View {
    /// What the rule reads from the start of `s`: the value, by its view, and
    /// the number of bytes that it takes; `None` where `s` does not begin as
    /// the rule demands.
    spec fn grammar(s: Seq<u8>) -> Option<(Self::V, nat)>;

    /// Reads the rule from the scanner. Where the input begins as the rule
    /// demands, the value comes back and the scanner has moved past the bytes
    /// taken. Anywhere else the call fails and the scanner stays where it was.
    fn accept(scanner: &mut Scanner<'a>) -> (r: ParseResult<Self>)
        ensures
            match Self::grammar(old(scanner)@) {
                Some((value, n)) => r matches Ok(v) && v@ == value && old(scanner).moved(
                    *final(scanner),
                    n,
                ),
                None => r is Err && *final(scanner) == *old(scanner),
            },
    ;
}

} // verus!
