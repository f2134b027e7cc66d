//! The console as the writer sees it: a device that takes one
//! null-terminated string at a time and accepts or rejects it, and a handle
//! that keeps a record of every string handed to the device.

use vstd::prelude::*;
use crate::ucs2::TERMINATOR;

verus! {

/// A string that may be handed to the console: at least the terminator,
/// and the terminator at its end.
pub open spec fn terminated(units: Seq<u16>) -> bool {
    units.len() > 0 && units.last() == TERMINATOR
}

/// The firmware's text output.
///
/// `output_string` is given a string that ends with the terminator; the
/// device writes the units before the first terminator. Nothing is assumed
/// about the result: the device may reject any string.
pub trait Output {
    /// What the device reports when it rejects a string.
    type Error;

    /// Writes one null-terminated string, or rejects it.
    fn output_string(&mut self, units: &[u16]) -> (result: Result<(), Self::Error>)
        requires
            terminated(units@),
    ;
}

/// The one error of a write: the device rejected a string. Whatever the
/// device reported is not kept.
#[derive(Clone, Copy, Debug, PartialEq, Eq)]
pub struct WriteError;

/// One call of the device: the string it was handed and whether it
/// accepted it.
pub struct Attempt {
    pub units: Seq<u16>,
    pub accepted: bool,
}

/// The calls made when the first `count` strings of `plan` are handed over
/// in order. All but the last were accepted; the last was accepted exactly
/// when `ok`.
pub open spec fn attempts(plan: Seq<Seq<u16>>, count: nat, ok: bool) -> Seq<Attempt> {
    Seq::new(count, |i: int| Attempt { units: plan[i], accepted: ok || i + 1 < count })
}

/// How a transcript grows when `plan` is handed over string by string,
/// stopping at the first rejection: the strings are tried in order, each
/// once; with `ok` the whole plan was accepted, without it the last string
/// tried was rejected and none after it was tried.
pub open spec fn handed(
    before: Seq<Attempt>,
    after: Seq<Attempt>,
    plan: Seq<Seq<u16>>,
    ok: bool,
) -> bool {
    let count = after.len() - before.len();
    &&& 0 <= count <= plan.len()
    &&& after == before + attempts(plan, count as nat, ok)
    &&& ok ==> count == plan.len()
    &&& !ok ==> count >= 1
}

/// Exclusive access to a device, with a transcript of the calls made on
/// it through this handle since the handle was made.
pub struct Console<O: Output> {
    device: O,
    log: Ghost<Seq<Attempt>>,
}

impl<O: Output> Console<O> {
    /// Every call of the device made through this handle, oldest first.
    pub closed spec fn transcript(&self) -> Seq<Attempt> {
        self.log@
    }

    /// The device behind the handle.
    pub closed spec fn device(&self) -> O {
        self.device
    }

    /// Takes the device. The transcript starts empty.
    pub fn new(device: O) -> (console: Self)
        ensures
            console.device() == device,
            console.transcript() == Seq::<Attempt>::empty(),
    {
        Console { device, log: Ghost(Seq::empty()) }
    }

    /// Hands one string to the device and records the call.
    pub fn output_string(&mut self, units: &[u16]) -> (result: Result<(), O::Error>)
        requires
            terminated(units@),
        ensures
            final(self).transcript() == old(self).transcript().push(
                (Attempt { units: units@, accepted: result is Ok }),
            ),
    {
        let result = self.device.output_string(units);
        proof {
            self.log@ = self.log@.push(Attempt { units: units@, accepted: result is Ok });
        }
        result
    }

    /// Gives the device back.
    pub fn into_device(self) -> (device: O)
        ensures
            device == self.device(),
    {
        self.device
    }
}

} // verus!
