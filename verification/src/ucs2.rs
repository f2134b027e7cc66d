//! UCS-2 code units and the newline rule of the console.
//!
//! The console takes fixed-width 16-bit units. A scalar value becomes the
//! unit made of its low 16 bits, and a line feed is always sent as a carriage
//! return followed by a line feed.

use vstd::prelude::*;

verus! {

/// The unit that ends every string handed to the console.
pub const TERMINATOR: u16 = 0;

/// Carriage return as a code unit.
pub const CARRIAGE_RETURN: u16 = 0x000D;

/// Line feed as a code unit.
pub const LINE_FEED: u16 = 0x000A;

/// The code unit of a scalar value: its low 16 bits. Values above `0xFFFF`
/// lose their high bits.
pub open spec fn unit_of(c: char) -> u16 {
    (c as u32 & 0xFFFF) as u16
}

/// The units that one scalar value contributes to the output: a line feed
/// contributes a carriage return and a line feed, anything else its own unit.
pub open spec fn units_of(c: char) -> Seq<u16> {
    if c == '\n' {
        seq![CARRIAGE_RETURN, LINE_FEED]
    } else {
        seq![unit_of(c)]
    }
}

/// The unit stream of a text: the units of its scalar values, in order.
pub open spec fn expand(text: Seq<char>) -> Seq<u16>
    decreases text.len(),
{
    if text.len() == 0 {
        Seq::empty()
    } else {
        expand(text.drop_last()) + units_of(text.last())
    }
}

/// Truncates a scalar value to its code unit.
pub fn to_unit(c: char) -> (unit: u16)
    ensures
        unit == unit_of(c),
{
    let wide: u32 = c as u32;
    (wide & 0xFFFF) as u16
}

/// A scalar value of the Basic Multilingual Plane keeps its value as a unit.
pub proof fn lemma_unit_of_bmp(c: char)
    requires
        c as u32 <= 0xFFFF,
    ensures
        unit_of(c) as u32 == c as u32,
{
    let wide = c as u32;
    assert(wide <= 0xFFFF ==> (wide & 0xFFFF) == wide) by (bit_vector);
}

/// The unit stream of a text in two fragments is the stream of the first
/// followed by the stream of the second: text may be delivered piecewise.
pub proof fn lemma_expand_concat(head: Seq<char>, tail: Seq<char>)
    ensures
        expand(head + tail) == expand(head) + expand(tail),
    decreases tail.len(),
{
    if tail.len() == 0 {
        assert(head + tail =~= head);
        assert(expand(head) + expand(tail) =~= expand(head));
    } else {
        let whole = head + tail;
        assert(whole.drop_last() =~= head + tail.drop_last());
        assert(whole.last() == tail.last());
        lemma_expand_concat(head, tail.drop_last());
        assert(expand(whole) =~= expand(head) + expand(tail));
    }
}

/// Taking one more scalar value of a text appends that value's units.
pub proof fn lemma_expand_step(text: Seq<char>, i: int)
    requires
        0 <= i < text.len(),
    ensures
        expand(text.take(i + 1)) == expand(text.take(i)) + units_of(text[i]),
{
    let next = text.take(i + 1);
    assert(next.drop_last() =~= text.take(i));
    assert(next.last() == text[i]);
}

/// Where each scalar value lands in the unit stream. The units of
/// `text[i]` start right after the stream of the `i` values before it: a
/// line feed stands there as carriage return, line feed; any other value,
/// a carriage return included, as its own single unit.
pub proof fn lemma_expand_at(text: Seq<char>, i: int)
    requires
        0 <= i < text.len(),
    ensures
        ({
            let at = expand(text.take(i)).len() as int;
            let stream = expand(text);
            if text[i] == '\n' {
                &&& at + 2 <= stream.len()
                &&& stream[at] == CARRIAGE_RETURN
                &&& stream[at + 1] == LINE_FEED
            } else {
                &&& at + 1 <= stream.len()
                &&& stream[at] == unit_of(text[i])
            }
        }),
{
    let before = text.take(i);
    let rest = text.skip(i + 1);
    let upto = text.take(i + 1);
    assert(text =~= upto + rest);
    lemma_expand_concat(upto, rest);
    lemma_expand_step(text, i);
    assert(expand(text) == (expand(before) + units_of(text[i])) + expand(rest));
}

/// Only a line feed is expanded: the stream of a text without line feeds
/// has one unit per scalar value, each the truncation of its value.
pub proof fn lemma_expand_without_newline(text: Seq<char>)
    requires
        forall|i: int| 0 <= i < text.len() ==> text[i] != '\n',
    ensures
        expand(text) == text.map_values(|c: char| unit_of(c)),
    decreases text.len(),
{
    if text.len() > 0 {
        lemma_expand_without_newline(text.drop_last());
    }
    assert(expand(text) =~= text.map_values(|c: char| unit_of(c)));
}

} // verus!
