//! The staging buffer: a fixed array in which units wait until there are
//! enough of them for one string, or until the text ends.

use vstd::prelude::*;
use vstd::slice::slice_subrange;
use crate::flushes::{
    flushes, forced, lemma_flushes_short, lemma_handed_compose, lemma_handed_rejected,
    lemma_staged, staged,
};
use crate::output::{attempts, handed, Attempt, Console, Output, WriteError};
use crate::ucs2::{to_unit, unit_of, units_of, CARRIAGE_RETURN, LINE_FEED, TERMINATOR};

verus! {

/// The most units of content that one string can carry.
pub const BUF_SIZE: usize = 128;

/// A staging capacity: how many units are gathered before a string is
/// forced out. Between 1 and `BUF_SIZE`.
#[derive(Clone, Copy, Debug)]
pub struct Capacity {
    units: usize,
}

impl Capacity {
    #[verifier::type_invariant]
    spec fn in_range(&self) -> bool {
        1 <= self.units <= BUF_SIZE
    }

    /// The capacity as a number of units.
    pub closed spec fn view(&self) -> nat {
        self.units as nat
    }

    /// A capacity of `units`, if that is at least 1 and at most `BUF_SIZE`.
    pub fn new(units: usize) -> (capacity: Option<Capacity>)
        ensures
            capacity is Some <==> 1 <= units <= BUF_SIZE,
            capacity matches Some(c) ==> c@ == units,
    {
        if 1 <= units && units <= BUF_SIZE {
            Some(Capacity { units })
        } else {
            None
        }
    }

    /// The largest capacity, `BUF_SIZE`.
    pub fn full() -> (capacity: Capacity)
        ensures
            capacity@ == BUF_SIZE,
    {
        Capacity { units: BUF_SIZE }
    }

    /// The capacity as a number of units.
    pub fn get(&self) -> (units: usize)
        ensures
            units == self@,
            1 <= units <= BUF_SIZE,
    {
        proof {
            use_type_invariant(self);
        }
        self.units
    }
}

/// A staging buffer and its fill cursor.
///
/// The array has one slot more than the largest capacity, so that the
/// terminator always has room behind the content. The cursor stays below
/// the capacity: the unit that fills the buffer forces a flush at once.
pub struct Staging {
    buf: [u16; 129],
    cursor: usize,
    capacity: usize,
}

impl Staging {
    #[verifier::type_invariant]
    spec fn inv(&self) -> bool {
        &&& 1 <= self.capacity <= BUF_SIZE
        &&& self.cursor < self.capacity
    }

    /// How many units are gathered before a flush is forced.
    pub closed spec fn capacity(&self) -> nat {
        self.capacity as nat
    }

    /// The units that wait in the buffer, oldest first.
    pub closed spec fn pending(&self) -> Seq<u16> {
        self.buf@.take(self.cursor as int)
    }

    /// An empty buffer of the given capacity.
    pub fn new(capacity: Capacity) -> (staging: Self)
        ensures
            staging.capacity() == capacity@,
            1 <= staging.capacity() <= BUF_SIZE,
            staging.pending() == Seq::<u16>::empty(),
    {
        Staging { buf: [0u16; 129], cursor: 0, capacity: capacity.get() }
    }

    /// Terminates the first `len` units of the buffer, empties the buffer
    /// and hands the terminated string to the console.
    fn emit<O: Output>(&mut self, console: &mut Console<O>, len: usize) -> (result: Result<
        (),
        WriteError,
    >)
        requires
            len <= old(self).capacity,
        ensures
            final(self).capacity() == old(self).capacity(),
            final(self).pending() == Seq::<u16>::empty(),
            final(console).transcript() == old(console).transcript().push(
                (Attempt {
                    units: old(self).buf@.take(len as int).push(TERMINATOR),
                    accepted: result is Ok,
                }),
            ),
    {
        proof {
            use_type_invariant(&*self);
        }
        self.buf[len] = TERMINATOR;
        self.cursor = 0;
        let string = slice_subrange(self.buf.as_slice(), 0, len + 1);
        assert(string@ =~= old(self).buf@.take(len as int).push(TERMINATOR));
        match console.output_string(string) {
            Ok(()) => Ok(()),
            Err(_) => Err(WriteError),
        }
    }

    /// Stores one unit behind the pending ones. If that fills the buffer,
    /// the buffer is flushed.
    fn push<O: Output>(&mut self, console: &mut Console<O>, unit: u16) -> (result: Result<
        (),
        WriteError,
    >)
        ensures
            final(self).capacity() == old(self).capacity(),
            final(self).pending().len() < final(self).capacity(),
            ({
                let stream = old(self).pending().push(unit);
                let capacity = old(self).capacity();
                &&& handed(
                    old(console).transcript(),
                    final(console).transcript(),
                    forced(stream, capacity),
                    result is Ok,
                )
                &&& result is Ok ==> final(self).pending() == staged(stream, capacity)
                &&& result is Err ==> final(self).pending() == Seq::<u16>::empty()
            }),
    {
        proof {
            use_type_invariant(&*self);
        }
        let ghost stream = self.pending().push(unit);
        let ghost capacity = self.capacity();
        self.buf[self.cursor] = unit;
        let filled = self.cursor + 1;
        assert(self.buf@.take(filled as int) =~= stream);
        if filled == self.capacity {
            proof {
                lemma_staged(stream, capacity);
                assert(stream.len() / capacity == 1) by (nonlinear_arith)
                    requires
                        stream.len() == capacity,
                        capacity >= 1,
                ;
                assert(1 * capacity == capacity) by (nonlinear_arith);
                assert(0 * capacity == 0) by (nonlinear_arith);
                assert(flushes(stream, capacity)[0] =~= stream.push(TERMINATOR));
                assert(staged(stream, capacity) =~= Seq::<u16>::empty());
            }
            let result = self.emit(console, filled);
            assert(console.transcript() =~= old(console).transcript() + attempts(
                forced(stream, capacity),
                1,
                result is Ok,
            ));
            result
        } else {
            self.cursor = filled;
            proof {
                lemma_flushes_short(stream, capacity);
                assert(forced(stream, capacity) =~= Seq::<Seq<u16>>::empty());
                assert(staged(stream, capacity) =~= stream);
                assert(console.transcript() =~= old(console).transcript()
                    + attempts(forced(stream, capacity), 0, true));
            }
            Ok(())
        }
    }

    /// Takes one scalar value: stages its unit, after a carriage return if
    /// it is a line feed, and flushes each time the buffer fills up.
    ///
    /// The strings forced out are those of the plan for the pending units
    /// followed by the units of `c`, all but the last; the content of the
    /// last stays pending. At the first rejection nothing more is staged or
    /// handed over, and the buffer is left empty.
    pub fn append<O: Output>(&mut self, console: &mut Console<O>, c: char) -> (result: Result<
        (),
        WriteError,
    >)
        ensures
            final(self).capacity() == old(self).capacity(),
            final(self).pending().len() < final(self).capacity(),
            ({
                let stream = old(self).pending() + units_of(c);
                let capacity = old(self).capacity();
                &&& handed(
                    old(console).transcript(),
                    final(console).transcript(),
                    forced(stream, capacity),
                    result is Ok,
                )
                &&& result is Ok ==> final(self).pending() == staged(stream, capacity)
                &&& result is Err ==> final(self).pending() == Seq::<u16>::empty()
            }),
    {
        proof {
            use_type_invariant(&*self);
        }
        let ghost capacity = self.capacity();
        let ghost pending = self.pending();
        if c == '\n' {
            let ghost first = pending.push(CARRIAGE_RETURN);
            let ghost second = seq![LINE_FEED];
            match self.push(console, CARRIAGE_RETURN) {
                Ok(()) => {},
                Err(e) => {
                    proof {
                        lemma_handed_rejected(
                            old(console).transcript(),
                            console.transcript(),
                            first,
                            second,
                            capacity,
                        );
                        assert(first + second =~= pending + units_of(c));
                    }
                    return Err(e);
                },
            }
            let ghost middle = console.transcript();
            let result = self.push(console, LINE_FEED);
            proof {
                assert(staged(first, capacity).push(LINE_FEED) =~= staged(
                    first,
                    capacity,
                ) + second);
                lemma_handed_compose(
                    old(console).transcript(),
                    middle,
                    console.transcript(),
                    first,
                    second,
                    capacity,
                    result is Ok,
                );
                assert(first + second =~= pending + units_of(c));
            }
            result
        } else {
            let result = self.push(console, to_unit(c));
            assert(pending.push(unit_of(c)) =~= pending + units_of(c));
            result
        }
    }

    /// Terminates the pending units, hands them to the console as one
    /// string and empties the buffer. With nothing pending the string is the
    /// terminator alone.
    pub fn flush<O: Output>(&mut self, console: &mut Console<O>) -> (result: Result<
        (),
        WriteError,
    >)
        ensures
            final(self).capacity() == old(self).capacity(),
            final(self).pending() == Seq::<u16>::empty(),
            final(console).transcript() == old(console).transcript().push(
                (Attempt {
                    units: old(self).pending().push(TERMINATOR),
                    accepted: result is Ok,
                }),
            ),
    {
        proof {
            use_type_invariant(&*self);
        }
        self.emit(console, self.cursor)
    }
}

} // verus!
