//! The flush plan: how a unit stream is cut into the null-terminated
//! strings that reach the console.
//!
//! With a staging capacity of `capacity` units, a stream of `len` units is
//! handed over in `len / capacity + 1` strings. Each carries the next
//! `capacity` units of the stream, the last one whatever is left (possibly
//! nothing), and each ends with one terminator.

use vstd::prelude::*;
use crate::output::{attempts, handed, Attempt};
use crate::ucs2::TERMINATOR;

verus! {

/// The `i`-th string of the plan: the units from `i * capacity` up to the
/// next multiple of `capacity` or the end of the stream, whichever comes
/// first, followed by the terminator.
pub open spec fn flush_at(units: Seq<u16>, capacity: nat, i: int) -> Seq<u16> {
    let from = i * capacity;
    let to = if from + capacity <= units.len() {
        from + capacity
    } else {
        units.len() as int
    };
    units.subrange(from, to).push(TERMINATOR)
}

/// The strings handed to the console for a unit stream, in order.
pub open spec fn flushes(units: Seq<u16>, capacity: nat) -> Seq<Seq<u16>> {
    Seq::new((units.len() / capacity + 1) as nat, |i: int| flush_at(units, capacity, i))
}

/// The content of a sequence of strings: each without its last unit, joined.
pub open spec fn joined(strings: Seq<Seq<u16>>) -> Seq<u16> {
    strings.map_values(|string: Seq<u16>| string.drop_last()).flatten()
}

/// What is staged once a stream has been fed: the content of the last
/// string of its plan, which waits for the final flush.
pub open spec fn staged(units: Seq<u16>, capacity: nat) -> Seq<u16> {
    flushes(units, capacity).last().drop_last()
}

/// What has been handed over once a stream has been fed: every string of
/// its plan but the last.
pub open spec fn forced(units: Seq<u16>, capacity: nat) -> Seq<Seq<u16>> {
    flushes(units, capacity).drop_last()
}

/// Quotient and remainder of a stream length by the capacity, as bounds on
/// where the last string starts.
proof fn lemma_last_start(len: nat, capacity: nat)
    requires
        capacity >= 1,
    ensures
        0 <= len / capacity,
        (len / capacity) * capacity <= len < (len / capacity) * capacity + capacity,
        len % capacity == len - (len / capacity) * capacity,
{
    assert(0 <= len / capacity && (len / capacity) * capacity <= len && len < (len / capacity)
        * capacity + capacity && len % capacity == len - (len / capacity) * capacity)
        by (nonlinear_arith)
        requires
            capacity >= 1,
    ;
}

/// A string before the last one ends within the stream.
proof fn lemma_full_end(len: nat, capacity: nat, i: int)
    requires
        capacity >= 1,
        0 <= i < len / capacity,
    ensures
        0 <= i * capacity,
        i * capacity + capacity <= len,
        i * capacity + capacity == (i + 1) * capacity,
{
    lemma_last_start(len, capacity);
    assert(0 <= i * capacity && i * capacity + capacity <= (len / capacity) * capacity && i
        * capacity + capacity == (i + 1) * capacity) by (nonlinear_arith)
        requires
            capacity >= 1,
            0 <= i < len / capacity,
    ;
}

/// The shape of the plan: every string ends with the terminator, every
/// string but the last carries exactly `capacity` units of content, and the
/// last carries the `len % capacity` units that are left.
pub proof fn lemma_flush_shape(units: Seq<u16>, capacity: nat, i: int)
    requires
        capacity >= 1,
        0 <= i < flushes(units, capacity).len(),
    ensures
        flushes(units, capacity).len() == units.len() / capacity + 1,
        flushes(units, capacity)[i].last() == TERMINATOR,
        i + 1 < flushes(units, capacity).len() ==> flushes(units, capacity)[i].len() == capacity
            + 1,
        i + 1 == flushes(units, capacity).len() ==> flushes(units, capacity)[i].len() == units.len()
            % capacity + 1,
{
    lemma_last_start(units.len(), capacity);
    if i < units.len() / capacity {
        lemma_full_end(units.len(), capacity, i);
    }
}

/// A stream shorter than the capacity is handed over in a single string:
/// the whole stream and the terminator.
pub proof fn lemma_flushes_short(units: Seq<u16>, capacity: nat)
    requires
        units.len() < capacity,
    ensures
        flushes(units, capacity) == seq![units.push(TERMINATOR)],
{
    lemma_last_start(units.len(), capacity);
    assert(units.len() / capacity == 0) by (nonlinear_arith)
        requires
            (units.len() / capacity) * capacity <= units.len() < capacity,
            0 <= units.len() / capacity,
    ;
    assert(0 * capacity == 0);
    assert(units.subrange(0, units.len() as int) =~= units);
    assert(flushes(units, capacity) =~= seq![units.push(TERMINATOR)]);
}

/// A stream whose length is a multiple of the capacity is handed over in
/// `len / capacity + 1` strings, the last of which holds only the
/// terminator.
pub proof fn lemma_flushes_exact_multiple(units: Seq<u16>, capacity: nat)
    requires
        capacity >= 1,
        units.len() % capacity == 0,
    ensures
        flushes(units, capacity).len() == units.len() / capacity + 1,
        flushes(units, capacity).last() == seq![TERMINATOR],
{
    lemma_last_start(units.len(), capacity);
    let last = (units.len() / capacity) as int;
    assert(flush_at(units, capacity, last) =~= seq![TERMINATOR]);
}

/// What the first `count` strings of the plan carry between them.
proof fn lemma_joined_prefix(units: Seq<u16>, capacity: nat, count: int)
    requires
        capacity >= 1,
        0 <= count <= units.len() / capacity + 1,
    ensures
        count <= units.len() / capacity ==> joined(flushes(units, capacity).take(count))
            == units.take(count * capacity),
        count == units.len() / capacity + 1 ==> joined(flushes(units, capacity).take(count))
            == units,
    decreases count,
{
    let plan = flushes(units, capacity);
    let strip = |string: Seq<u16>| string.drop_last();
    lemma_last_start(units.len(), capacity);
    if count == 0 {
        assert(plan.take(0).map_values(strip) =~= Seq::<Seq<u16>>::empty());
        assert(0 * capacity == 0);
        assert(units.take(0) =~= Seq::<u16>::empty());
    } else {
        let done = count - 1;
        lemma_joined_prefix(units, capacity, done);
        let earlier = plan.take(done);
        assert(plan.take(count) =~= earlier.push(plan[done]));
        assert(plan.take(count).map_values(strip) =~= earlier.map_values(strip).push(
            strip(plan[done]),
        ));
        earlier.map_values(strip).lemma_flatten_push(strip(plan[done]));
        if done < units.len() / capacity {
            lemma_full_end(units.len(), capacity, done);
            let from = done * capacity;
            assert(strip(plan[done]) =~= units.subrange(from, from + capacity));
            assert(units.take(from) + units.subrange(from, from + capacity) =~= units.take(
                count * capacity,
            ));
        } else {
            let from = done * capacity;
            assert(strip(plan[done]) =~= units.subrange(from, units.len() as int));
            assert(units.take(from) + units.subrange(from, units.len() as int) =~= units);
        }
    }
}

/// Nothing is lost or added at the string boundaries: the strings of the
/// plan, each without its terminator, joined in order, are the stream.
pub proof fn lemma_flushes_rejoin(units: Seq<u16>, capacity: nat)
    requires
        capacity >= 1,
    ensures
        joined(flushes(units, capacity)) == units,
{
    let plan = flushes(units, capacity);
    lemma_last_start(units.len(), capacity);
    lemma_joined_prefix(units, capacity, plan.len() as int);
    assert(plan.take(plan.len() as int) =~= plan);
}

/// What is staged is the tail of the stream after its last full string,
/// and it is shorter than the capacity.
pub proof fn lemma_staged(units: Seq<u16>, capacity: nat)
    requires
        capacity >= 1,
    ensures
        staged(units, capacity) == units.skip(((units.len() / capacity) * capacity) as int),
        staged(units, capacity).len() == units.len() % capacity,
        staged(units, capacity).len() < capacity,
        forced(units, capacity).len() == units.len() / capacity,
        flushes(units, capacity).last() == staged(units, capacity).push(TERMINATOR),
{
    lemma_last_start(units.len(), capacity);
    let from = ((units.len() / capacity) * capacity) as int;
    assert(staged(units, capacity) =~= units.skip(from));
    assert(flushes(units, capacity).last() =~= staged(units, capacity).push(TERMINATOR));
}

/// Feeding more units after a stream continues its plan: the strings
/// already forced stay as they are, and the rest of the plan is the plan of
/// what was staged followed by the new units.
pub proof fn lemma_flushes_splice(units: Seq<u16>, more: Seq<u16>, capacity: nat)
    requires
        capacity >= 1,
    ensures
        ({
            let fed = units.len() / capacity;
            let tail = staged(units, capacity) + more;
            let whole = units + more;
            &&& whole.len() / capacity == fed + tail.len() / capacity
            &&& forall|i: int| 0 <= i < fed ==> flush_at(whole, capacity, i) == flush_at(units, capacity, i)
            &&& forall|i: int|
                0 <= i <= tail.len() / capacity ==> flush_at(whole, capacity, fed + i) == flush_at(
                    tail,
                    capacity,
                    i,
                )
        }),
{
    let fed = (units.len() / capacity) as int;
    let tail = staged(units, capacity) + more;
    let whole = units + more;
    let start = fed * capacity;
    lemma_staged(units, capacity);
    lemma_last_start(units.len(), capacity);
    lemma_last_start(tail.len(), capacity);
    lemma_last_start(whole.len(), capacity);
    assert(whole.len() == start + tail.len());
    assert(whole.len() / capacity == fed + tail.len() / capacity) by (nonlinear_arith)
        requires
            capacity >= 1,
            fed >= 0,
            whole.len() == fed * capacity + tail.len(),
    ;
    assert forall|i: int| 0 <= i < fed implies flush_at(whole, capacity, i) == flush_at(
        units,
        capacity,
        i,
    ) by {
        lemma_full_end(units.len(), capacity, i);
        let from = i * capacity;
        assert(whole.subrange(from, from + capacity) =~= units.subrange(from, from + capacity));
    }
    assert forall|i: int| 0 <= i <= tail.len() / capacity implies flush_at(
        whole,
        capacity,
        fed + i,
    ) == flush_at(tail, capacity, i) by {
        let from = i * capacity;
        assert((fed + i) * capacity == start + from) by (nonlinear_arith)
            requires
                start == fed * capacity,
                from == i * capacity,
        ;
        assert(0 <= from) by (nonlinear_arith)
            requires
                0 <= i,
                from == i * capacity,
        ;
        if i < tail.len() / capacity {
            lemma_full_end(tail.len(), capacity, i);
            assert(whole.subrange(start + from, start + from + capacity) =~= tail.subrange(
                from,
                from + capacity,
            ));
        } else {
            assert(whole.subrange(start + from, whole.len() as int) =~= tail.subrange(
                from,
                tail.len() as int,
            ));
        }
    }
}

/// Writes compose. If a stream has been fed and all its forced strings
/// were accepted, and then the strings forced by feeding `more` on top of
/// what was staged are handed over, the transcript has grown as if the two
/// had been fed as one stream; and on success the same units are staged.
pub proof fn lemma_handed_compose(
    start: Seq<Attempt>,
    middle: Seq<Attempt>,
    end: Seq<Attempt>,
    units: Seq<u16>,
    more: Seq<u16>,
    capacity: nat,
    ok: bool,
)
    requires
        capacity >= 1,
        handed(start, middle, forced(units, capacity), true),
        handed(middle, end, forced(staged(units, capacity) + more, capacity), ok),
    ensures
        handed(start, end, forced(units + more, capacity), ok),
        staged(units + more, capacity) == staged(staged(units, capacity) + more, capacity),
{
    let fed = (units.len() / capacity) as int;
    let tail = staged(units, capacity) + more;
    let whole = units + more;
    let count = end.len() - middle.len();
    lemma_flushes_splice(units, more, capacity);
    lemma_last_start(units.len(), capacity);
    lemma_last_start(tail.len(), capacity);
    lemma_last_start(whole.len(), capacity);
    assert(end =~= start + attempts(forced(whole, capacity), (fed + count) as nat, ok));
    assert(staged(whole, capacity) == staged(tail, capacity));
}

/// A rejection stays what it is when the stream goes on: if handing over
/// the forced strings of a stream ended in a rejection, the transcript has
/// grown as a failed write of any longer stream would have it.
pub proof fn lemma_handed_rejected(
    before: Seq<Attempt>,
    after: Seq<Attempt>,
    units: Seq<u16>,
    rest: Seq<u16>,
    capacity: nat,
)
    requires
        capacity >= 1,
        handed(before, after, forced(units, capacity), false),
    ensures
        handed(before, after, forced(units + rest, capacity), false),
        handed(before, after, flushes(units + rest, capacity), false),
{
    let count = after.len() - before.len();
    lemma_flushes_splice(units, rest, capacity);
    lemma_last_start(units.len(), capacity);
    lemma_last_start((staged(units, capacity) + rest).len(), capacity);
    assert(attempts(forced(units, capacity), count as nat, false) =~= attempts(
        forced(units + rest, capacity),
        count as nat,
        false,
    ));
    assert(attempts(forced(units, capacity), count as nat, false) =~= attempts(
        flushes(units + rest, capacity),
        count as nat,
        false,
    ));
}

/// The final flush completes the plan: once the forced strings of a stream
/// were all accepted, handing over what is staged, with its terminator,
/// makes the transcript that of a write of the whole stream.
pub proof fn lemma_handed_finish(
    start: Seq<Attempt>,
    before: Seq<Attempt>,
    units: Seq<u16>,
    capacity: nat,
    ok: bool,
)
    requires
        capacity >= 1,
        handed(start, before, forced(units, capacity), true),
    ensures
        handed(
            start,
            before.push(
                (Attempt { units: staged(units, capacity).push(TERMINATOR), accepted: ok }),
            ),
            flushes(units, capacity),
            ok,
        ),
{
    let plan = flushes(units, capacity);
    let after = before.push(
        Attempt { units: staged(units, capacity).push(TERMINATOR), accepted: ok },
    );
    lemma_staged(units, capacity);
    assert(after =~= start + attempts(plan, plan.len(), ok));
}

} // verus!
