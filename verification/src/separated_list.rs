//! Items that stand one on each line.
use crate::errors::{ParseError, ParseResult};
use crate::scanner::{lemma_moved_nowhere, lemma_moved_twice, Scanner};
use crate::token::{recognize, Token};
use crate::visitor::Visitor;
use vstd::prelude::*;

verus! {

/// The items that a list which is not empty reads from `s`: an item, and
/// then either the end of `s`, or a line feed and the items of the rest. A
/// line that is no item, and a byte other than a line feed after an item,
/// leave no list at all.
pub open spec fn items<'a, V: Visitor<'a>>(s: Seq<u8>) -> Option<Seq<V::V>>
    decreases s.len(),
{
    match V::grammar(s) {
        Some((item, n)) => if n >= s.len() {
            Some(seq![item])
        } else if s[n as int] == Token::Ln.byte() {
            match items::<V>(s.skip(n as int + 1)) {
                Some(rest) => Some(seq![item] + rest),
                None => None,
            }
        } else {
            None
        },
        None => None,
    }
}

/// The items that a list reads from the whole of `s`: none where `s` is
/// empty, else one for each line of `s`.
pub open spec fn separated_list<'a, V: Visitor<'a>>(s: Seq<u8>) -> Option<Seq<V::V>> {
    if s.len() == 0 {
        Some(Seq::empty())
    } else {
        items::<V>(s)
    }
}

/// The offset in `s` at which the item of index `i` begins: the first one
/// at the start, each other one after its predecessor and the line feed
/// behind it.
pub open spec fn item_offset<'a, V: Visitor<'a>>(s: Seq<u8>, i: nat) -> nat
    decreases i,
{
    if i == 0 {
        0
    } else {
        match V::grammar(s) {
            Some((_, n)) => n + 1 + item_offset::<V>(s.skip(n as int + 1), (i - 1) as nat),
            None => 0,
        }
    }
}

/// Whether the items of indices `i` and `j` of the list of `s` stand in the
/// list as their lines stand in `s`: each is what the item rule reads at the
/// place where its line begins, and the line of the first begins before the
/// line of the second.
pub open spec fn in_source_order<'a, V: Visitor<'a>>(s: Seq<u8>, i: nat, j: nat) -> bool {
    let list = separated_list::<V>(s)->Some_0;
    let (at_i, at_j) = (item_offset::<V>(s, i), item_offset::<V>(s, j));
    &&& at_i < at_j <= s.len()
    &&& V::grammar(s.skip(at_i as int)) matches Some((item, _)) && item == list[i as int]
    &&& V::grammar(s.skip(at_j as int)) matches Some((item, _)) && item == list[j as int]
}

/// A list keeps the order of the lines it was read from: each item is what
/// the item rule reads at the place where its line begins, and of two items
/// the one that comes first in the list begins first in the input.
pub proof fn lemma_items_in_source_order<'a, V: Visitor<'a>>(s: Seq<u8>, i: nat, j: nat)
    requires
        separated_list::<V>(s) is Some,
        i < j < separated_list::<V>(s)->Some_0.len(),
    ensures
        in_source_order::<V>(s, i, j),
{
    lemma_item_at::<V>(s, i);
    lemma_item_at::<V>(s, j);
    lemma_offsets_increase::<V>(s, i, j);
}

/// The item of index `i` is what the item rule reads at its offset.
proof fn lemma_item_at<'a, V: Visitor<'a>>(s: Seq<u8>, i: nat)
    requires
        items::<V>(s) is Some,
        i < items::<V>(s)->Some_0.len(),
    ensures
        item_offset::<V>(s, i) <= s.len(),
        V::grammar(s.skip(item_offset::<V>(s, i) as int)) matches Some((item, _)) && item
            == items::<V>(s)->Some_0[i as int],
    decreases i,
{
    assert(s.skip(0) =~= s);
    if i > 0 {
        let n = V::grammar(s)->Some_0.1;
        let tail = s.skip(n as int + 1);
        lemma_item_at::<V>(tail, (i - 1) as nat);
        assert(tail.skip(item_offset::<V>(tail, (i - 1) as nat) as int) =~= s.skip(
            item_offset::<V>(s, i) as int,
        ));
    }
}

/// The offsets of the items grow with their indices.
proof fn lemma_offsets_increase<'a, V: Visitor<'a>>(s: Seq<u8>, i: nat, j: nat)
    requires
        items::<V>(s) is Some,
        i < j < items::<V>(s)->Some_0.len(),
    ensures
        item_offset::<V>(s, i) < item_offset::<V>(s, j),
    decreases i,
{
    let n = V::grammar(s)->Some_0.1;
    if i > 0 {
        lemma_offsets_increase::<V>(s.skip(n as int + 1), (i - 1) as nat, (j - 1) as nat);
    }
}

/// A list leaves nothing of its input out: each item but the last is
/// followed at once by a line feed, the next item begins right behind that
/// line feed, and the last item ends where the input ends.
pub proof fn lemma_items_cover_the_input<'a, V: Visitor<'a>>(s: Seq<u8>, i: nat)
    requires
        items::<V>(s) is Some,
        i < items::<V>(s)->Some_0.len(),
    ensures
        ({
            let at = item_offset::<V>(s, i);
            let end = at + V::grammar(s.skip(at as int))->Some_0.1;
            if i + 1 < items::<V>(s)->Some_0.len() {
                &&& end < s.len()
                &&& s[end as int] == Token::Ln.byte()
                &&& item_offset::<V>(s, i + 1) == end + 1
            } else {
                end >= s.len()
            }
        }),
    decreases i,
{
    assert(s.skip(0) =~= s);
    let n = V::grammar(s)->Some_0.1;
    let tail = s.skip(n as int + 1);
    if n < s.len() {
        lemma_items_not_empty::<V>(tail);
    }
    if i > 0 {
        let at = item_offset::<V>(tail, (i - 1) as nat);
        let end = at + V::grammar(tail.skip(at as int))->Some_0.1;
        lemma_items_cover_the_input::<V>(tail, (i - 1) as nat);
        lemma_item_at::<V>(tail, (i - 1) as nat);
        assert(tail.skip(at as int) =~= s.skip(item_offset::<V>(s, i) as int));
        if i + 1 < items::<V>(s)->Some_0.len() {
            assert(tail[end as int] == s[n as int + 1 + end as int]);
        }
    }
}

/// A list that was read from lines holds one item at least.
proof fn lemma_items_not_empty<'a, V: Visitor<'a>>(s: Seq<u8>)
    ensures
        items::<V>(s) matches Some(list) ==> list.len() > 0,
{
}

/// A list of items, one on each line.
#[derive(Debug, PartialEq)]
pub struct SeparatedList<V> {
    /// The items, in the order of their lines.
    pub data: Vec<V>,
}

impl<V: View> View for SeparatedList<V> {
    type V = Seq<V::V>;

    open spec fn view(&self) -> Seq<V::V> {
        self.data@.map_values(|item: V| item@)
    }
}

impl<'a, V: Visitor<'a>> Visitor<'a> for SeparatedList<V> {
    /// The list that the whole of `s` holds, which leaves nothing of `s`.
    open spec fn grammar(s: Seq<u8>) -> Option<(Seq<V::V>, nat)> {
        match separated_list::<V>(s) {
            Some(list) => Some((list, s.len())),
            None => None,
        }
    }

    fn accept(scanner: &mut Scanner<'a>) -> (r: ParseResult<Self>) {
        let mut data: Vec<V> = Vec::new();
        if scanner.is_empty() {
            proof {
                lemma_moved_nowhere(*scanner);
            }
            let list = SeparatedList { data };
            assert(list@ =~= Seq::empty());
            return Ok(list);
        }
        let mut cursor = *scanner;
        let ghost mut passed: nat = 0;
        proof {
            lemma_moved_nowhere(*scanner);
        }
        loop
            invariant
                scanner@.len() > 0,
                *scanner == *old(scanner),
                scanner.moved(cursor, passed),
                items::<V>(scanner@) == match items::<V>(cursor@) {
                    Some(rest) => Some(data@.map_values(|item: V| item@) + rest),
                    None => None,
                },
            decreases cursor@.len(),
        {
            let ghost before = cursor;
            let ghost read = data@.map_values(|item: V| item@);
            let item = match V::accept(&mut cursor) {
                Ok(item) => item,
                Err(error) => {
                    return Err(error);
                },
            };
            let ghost n = V::grammar(before@)->Some_0.1;
            data.push(item);
            proof {
                lemma_moved_twice(*scanner, before, cursor, passed, n);
                passed = passed + n;
                assert(data@.map_values(|item: V| item@) =~= read + seq![item@]);
            }
            if cursor.is_empty() {
                *scanner = cursor;
                return Ok(SeparatedList { data });
            }
            if !recognize(Token::Ln, cursor.remaining()) {
                return Err(ParseError::UnexpectedToken);
            }
            let ghost at_line_end = cursor;
            cursor.bump_by(1);
            proof {
                lemma_moved_twice(*scanner, at_line_end, cursor, passed, 1);
                passed = passed + 1;
                assert(cursor@ =~= before@.skip(n as int + 1));
                if let Some(rest) = items::<V>(cursor@) {
                    assert(read + (seq![item@] + rest) =~= (read + seq![item@]) + rest);
                }
            }
        }
    }
}

} // verus!
