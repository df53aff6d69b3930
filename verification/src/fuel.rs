//! Fuel accounting: how much metered computation an agent has used.
//!
//! The engine only tells how much fuel is left in a store. The meter kept
//! here remembers how much was granted at the last top-up and how much of it
//! has been seen to be used, and adds up the total over the agent's life.

use vstd::prelude::*;

verus! {

/// Fuel granted to every agent at the start of each of its turns. Very
/// basic players spend about a thousandth of it per turn.
pub const FUEL_PER_TICK: u64 = 15_000_000;

/// The books do not add up: the store holds more fuel than it can hold
/// since the last top-up, or the total no longer fits its counter. This is
/// a fault of the host, never of an agent.
#[derive(Copy, Clone, Debug, PartialEq, Eq, Structural)]
pub struct InternalInvariantViolation;

/// The fuel books of one agent.
#[derive(Copy, Clone, Debug, PartialEq, Eq, Structural)]
pub struct FuelMeter {
    total_consumed: u64,
    granted: u64,
    consumed_since_top_up: u64,
}

impl FuelMeter {
    /// Fuel used over the agent's whole life, as far as recorded.
    pub closed spec fn total(self) -> nat {
        self.total_consumed as nat
    }

    /// Fuel granted at the last top-up.
    pub closed spec fn grant(self) -> nat {
        self.granted as nat
    }

    /// Fuel used since the last top-up, as far as recorded.
    pub closed spec fn since_top_up(self) -> nat {
        self.consumed_since_top_up as nat
    }

    /// Never more is used than was granted.
    pub closed spec fn wf(self) -> bool {
        self.consumed_since_top_up <= self.granted
    }

    #[verifier::type_invariant]
    spec fn sound(self) -> bool {
        self.consumed_since_top_up <= self.granted
    }

    /// Fuel that the store should still hold.
    pub open spec fn left(self) -> int {
        self.grant() - self.since_top_up()
    }

    /// Whether a reading of the fuel left in the store can be entered into
    /// the books.
    pub open spec fn accepts(self, remaining: u64) -> bool {
        remaining <= self.left() && self.total() + (self.left() - remaining) <= u64::MAX
    }

    /// The books after a reading has been entered; unchanged where the
    /// reading cannot be entered.
    pub closed spec fn recorded(self, remaining: u64) -> FuelMeter {
        if self.accepts(remaining) {
            FuelMeter {
                total_consumed: (self.total_consumed + (self.left() - remaining)) as u64,
                granted: self.granted,
                consumed_since_top_up: (self.granted - remaining) as u64,
            }
        } else {
            self
        }
    }

    /// The books after a series of readings, taken without a top-up in
    /// between.
    pub open spec fn recorded_all(self, readings: Seq<u64>) -> FuelMeter
        decreases readings.len(),
    {
        if readings.len() == 0 {
            self
        } else {
            self.recorded_all(readings.drop_last()).recorded(readings.last())
        }
    }

    /// The books after a top-up.
    pub closed spec fn topped_up(self, amount: u64) -> FuelMeter {
        FuelMeter { total_consumed: self.total_consumed, granted: amount, consumed_since_top_up: 0 }
    }

    /// Fresh books: nothing granted, nothing used.
    pub fn new() -> (meter: FuelMeter)
        ensures
            meter.wf(),
            meter.total() == 0,
            meter.grant() == 0,
            meter.since_top_up() == 0,
    {
        FuelMeter { total_consumed: 0, granted: 0, consumed_since_top_up: 0 }
    }

    /// Fuel used over the agent's whole life.
    pub fn total_consumed(&self) -> (total: u64)
        ensures
            total == self.total(),
    {
        self.total_consumed
    }

    /// Fuel used since the last top-up.
    pub fn consumed_since_top_up(&self) -> (consumed: u64)
        ensures
            consumed == self.since_top_up(),
    {
        self.consumed_since_top_up
    }

    /// Enters a top-up: the store has been filled to `amount`.
    pub fn top_up(&mut self, amount: u64)
        ensures
            *final(self) == old(self).topped_up(amount),
            final(self).wf(),
            final(self).total() == old(self).total(),
            final(self).grant() == amount,
            final(self).since_top_up() == 0,
    {
        self.consumed_since_top_up = 0;
        self.granted = amount;
    }

    /// Enters a reading of the fuel left in the store, and says how much was
    /// used since the reading before. A reading that shows more fuel than
    /// the store can hold, or that would make the total overflow, is refused
    /// and changes nothing.
    pub fn record(&mut self, remaining: u64) -> (used: Result<u64, InternalInvariantViolation>)
        ensures
            old(self).wf(),
            final(self).wf(),
            *final(self) == old(self).recorded(remaining),
            final(self).grant() == old(self).grant(),
            final(self).total() >= old(self).total(),
            final(self).since_top_up() >= old(self).since_top_up(),
            old(self).accepts(remaining) ==> {
                &&& used == Ok::<u64, InternalInvariantViolation>(
                    (old(self).left() - remaining) as u64,
                )
                &&& final(self).total() == old(self).total() + (old(self).left() - remaining)
                &&& final(self).left() == remaining
            },
            !old(self).accepts(remaining) ==> {
                &&& used == Err::<u64, InternalInvariantViolation>(InternalInvariantViolation)
                &&& *final(self) == *old(self)
            },
    {
        proof {
            use_type_invariant(&*self);
        }
        let left = self.granted - self.consumed_since_top_up;
        if remaining > left {
            return Err(InternalInvariantViolation);
        }
        let used = left - remaining;
        match self.total_consumed.checked_add(used) {
            Some(total) => {
                self.total_consumed = total;
                self.consumed_since_top_up = self.granted - remaining;
                Ok(used)
            },
            None => Err(InternalInvariantViolation),
        }
    }
}

/// What a top-up does to the books: the grant is the amount, nothing of it
/// is used yet, and the total is as it was.
pub proof fn law_top_up(meter: FuelMeter, amount: u64)
    ensures
        meter.topped_up(amount).wf(),
        meter.topped_up(amount).total() == meter.total(),
        meter.topped_up(amount).grant() == amount,
        meter.topped_up(amount).since_top_up() == 0,
        meter.topped_up(amount).left() == amount,
{
}

/// What a reading does to the books. One that can be entered adds what was
/// used since the reading before to the total, and leaves the books showing
/// the reading as what is left; one that cannot be entered changes nothing.
pub proof fn law_record(meter: FuelMeter, remaining: u64)
    requires
        meter.wf(),
    ensures
        meter.recorded(remaining).wf(),
        meter.recorded(remaining).grant() == meter.grant(),
        meter.accepts(remaining) ==> {
            &&& meter.recorded(remaining).total() == meter.total() + (meter.left() - remaining)
            &&& meter.recorded(remaining).since_top_up() == meter.grant() - remaining
            &&& meter.recorded(remaining).left() == remaining
        },
        !meter.accepts(remaining) ==> meter.recorded(remaining) == meter,
{
}

/// Whatever readings come in without a top-up in between, the recorded
/// total never goes down and the books stay sound.
pub proof fn law_fuel_monotone(meter: FuelMeter, readings: Seq<u64>)
    requires
        meter.wf(),
    ensures
        meter.recorded_all(readings).wf(),
        meter.recorded_all(readings).total() >= meter.total(),
        meter.recorded_all(readings).since_top_up() >= meter.since_top_up(),
        meter.recorded_all(readings).grant() == meter.grant(),
    decreases readings.len(),
{
    if readings.len() > 0 {
        law_fuel_monotone(meter, readings.drop_last());
    }
}

/// A longer series of readings never shows a smaller total than a shorter
/// one that it starts with.
pub proof fn law_fuel_non_decreasing(meter: FuelMeter, readings: Seq<u64>, shorter: int)
    requires
        meter.wf(),
        0 <= shorter <= readings.len(),
    ensures
        meter.recorded_all(readings.take(shorter)).total() <= meter.recorded_all(readings).total(),
    decreases readings.len() - shorter,
{
    if shorter == readings.len() {
        assert(readings.take(shorter) =~= readings);
    } else {
        law_fuel_non_decreasing(meter, readings.drop_last(), shorter);
        assert(readings.drop_last().take(shorter) =~= readings.take(shorter));
        law_fuel_monotone(meter, readings.drop_last());
    }
}

/// After a top-up of any amount, whatever readings follow, what is booked as
/// used since the top-up never exceeds that amount.
pub proof fn law_top_up_bounds_consumption(meter: FuelMeter, amount: u64, readings: Seq<u64>)
    ensures
        meter.topped_up(amount).recorded_all(readings).since_top_up() <= amount,
{
    law_fuel_monotone(meter.topped_up(amount), readings);
}

} // verus!
