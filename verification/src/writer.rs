//! The writer: text in, null-terminated UCS-2 strings out.

use vstd::prelude::*;
use crate::flushes::{
    flushes, forced, joined, lemma_flushes_exact_multiple, lemma_flushes_rejoin,
    lemma_flushes_short, lemma_handed_compose, lemma_handed_finish, lemma_handed_rejected,
    staged,
};
use crate::output::{attempts, handed, Attempt, Console, Output, WriteError};
use crate::staging::{Capacity, Staging, BUF_SIZE};
use crate::ucs2::{expand, lemma_expand_concat, lemma_expand_step, units_of, TERMINATOR};

verus! {

/// Writes text to a firmware console.
///
/// The writer owns the console for as long as it lives. Each write has a
/// staging buffer of its own, which it leaves empty.
pub struct OutputWriter<O: Output> {
    console: Console<O>,
    capacity: Capacity,
}

impl<O: Output> OutputWriter<O> {
    /// Every string handed to the console since the writer was made, with
    /// the console's answer.
    pub closed spec fn transcript(&self) -> Seq<Attempt> {
        self.console.transcript()
    }

    /// The staging capacity of this writer's writes.
    pub closed spec fn capacity(&self) -> nat {
        self.capacity@
    }

    /// The device that the writer owns.
    pub closed spec fn device(&self) -> O {
        self.console.device()
    }

    /// A writer on `output` with the full staging capacity, `BUF_SIZE`.
    pub fn new(output: O) -> (writer: Self)
        ensures
            writer.device() == output,
            writer.capacity() == BUF_SIZE,
            writer.transcript() == Seq::<Attempt>::empty(),
    {
        OutputWriter { console: Console::new(output), capacity: Capacity::full() }
    }

    /// A writer on `output` with the given staging capacity.
    pub fn with_capacity(output: O, capacity: Capacity) -> (writer: Self)
        ensures
            writer.device() == output,
            writer.capacity() == capacity@,
            writer.transcript() == Seq::<Attempt>::empty(),
    {
        OutputWriter { console: Console::new(output), capacity }
    }

    /// Writes `s` to the console.
    ///
    /// The unit stream of `s` is handed over as its flush plan says, one
    /// string at a time and in order: a string each time the staging buffer
    /// fills up, and one more at the end with what is left, even if that is
    /// nothing. The write stops at the first string that the console
    /// rejects and reports `WriteError`; no string after that one is handed
    /// over.
    pub fn write_str(&mut self, s: &str) -> (result: Result<(), WriteError>)
        ensures
            final(self).capacity() == old(self).capacity(),
            handed(
                old(self).transcript(),
                final(self).transcript(),
                flushes(expand(s@), old(self).capacity()),
                result is Ok,
            ),
    {
        let ghost start = self.console.transcript();
        let ghost capacity = self.capacity@;
        let mut staging = Staging::new(self.capacity);
        proof {
            assert(s@.take(0) =~= Seq::<char>::empty());
            lemma_flushes_short(Seq::<u16>::empty(), capacity);
            assert(forced(Seq::<u16>::empty(), capacity) =~= Seq::<Seq<u16>>::empty());
            assert(staged(Seq::<u16>::empty(), capacity) =~= Seq::<u16>::empty());
            assert(start =~= start + attempts(Seq::<Seq<u16>>::empty(), 0, true));
        }
        for c in chars: s.chars()
            invariant
                chars.seq() == s@,
                start == old(self).transcript(),
                capacity == old(self).capacity(),
                capacity >= 1,
                staging.capacity() == capacity,
                self.capacity@ == capacity,
                staging.pending() == staged(expand(s@.take(chars.index() as int)), capacity),
                handed(
                    start,
                    self.console.transcript(),
                    forced(expand(s@.take(chars.index() as int)), capacity),
                    true,
                ),
        {
            let ghost taken = s@.take(chars.index() as int);
            let ghost middle = self.console.transcript();
            let step = staging.append(&mut self.console, c);
            proof {
                lemma_expand_step(s@, chars.index() as int);
                lemma_handed_compose(
                    start,
                    middle,
                    self.console.transcript(),
                    expand(taken),
                    units_of(c),
                    capacity,
                    step is Ok,
                );
            }
            if let Err(e) = step {
                proof {
                    let fed = s@.take(chars.index() + 1);
                    let rest = s@.skip(chars.index() + 1);
                    assert(s@ =~= fed + rest);
                    lemma_expand_concat(fed, rest);
                    lemma_handed_rejected(
                        start,
                        self.console.transcript(),
                        expand(fed),
                        expand(rest),
                        capacity,
                    );
                }
                return Err(e);
            }
        }
        let ghost before = self.console.transcript();
        let result = staging.flush(&mut self.console);
        proof {
            assert(s@.take(s@.len() as int) =~= s@);
            lemma_handed_finish(start, before, expand(s@), capacity, result is Ok);
        }
        result
    }

    /// Gives up the writer and returns the device.
    pub fn into_output(self) -> (output: O)
        ensures
            output == self.device(),
    {
        self.console.into_device()
    }
}

/// A text whose unit stream is shorter than the capacity reaches the
/// console in exactly one call, made at the end of the write: the whole
/// stream followed by the terminator.
pub proof fn lemma_short_write(
    before: Seq<Attempt>,
    after: Seq<Attempt>,
    text: Seq<char>,
    capacity: nat,
    ok: bool,
)
    requires
        expand(text).len() < capacity,
        handed(before, after, flushes(expand(text), capacity), ok),
    ensures
        after == before.push((Attempt { units: expand(text).push(TERMINATOR), accepted: ok })),
{
    lemma_flushes_short(expand(text), capacity);
    assert(after =~= before.push(Attempt { units: expand(text).push(TERMINATOR), accepted: ok }));
}

/// An empty text still reaches the console, in exactly one call that
/// carries the terminator alone.
pub proof fn lemma_empty_write(
    before: Seq<Attempt>,
    after: Seq<Attempt>,
    capacity: nat,
    ok: bool,
)
    requires
        capacity >= 1,
        handed(before, after, flushes(expand(Seq::<char>::empty()), capacity), ok),
    ensures
        after == before.push((Attempt { units: seq![TERMINATOR], accepted: ok })),
{
    lemma_short_write(before, after, Seq::<char>::empty(), capacity, ok);
    assert(expand(Seq::<char>::empty()).push(TERMINATOR) =~= seq![TERMINATOR]);
}

/// A successful write of a text whose unit stream is a whole number of
/// capacities takes one call per capacity and one more, and that last call
/// carries the terminator alone.
pub proof fn lemma_exact_multiple_write(
    before: Seq<Attempt>,
    after: Seq<Attempt>,
    text: Seq<char>,
    capacity: nat,
)
    requires
        capacity >= 1,
        expand(text).len() % capacity == 0,
        handed(before, after, flushes(expand(text), capacity), true),
    ensures
        after.len() - before.len() == expand(text).len() / capacity + 1,
        after.last() == (Attempt { units: seq![TERMINATOR], accepted: true }),
{
    lemma_flushes_exact_multiple(expand(text), capacity);
}

/// A successful write carries the unit stream of its text, whole and in
/// order: the strings it handed over, each without its terminator and
/// joined, are the stream. Where a string ends makes no difference to what
/// arrives.
pub proof fn lemma_write_carries_stream(
    before: Seq<Attempt>,
    after: Seq<Attempt>,
    text: Seq<char>,
    capacity: nat,
)
    requires
        capacity >= 1,
        handed(before, after, flushes(expand(text), capacity), true),
    ensures
        joined(after.skip(before.len() as int).map_values(|attempt: Attempt| attempt.units))
            == expand(text),
{
    let plan = flushes(expand(text), capacity);
    lemma_flushes_rejoin(expand(text), capacity);
    assert(after.skip(before.len() as int).map_values(|attempt: Attempt| attempt.units) =~= plan);
}

} // verus!
