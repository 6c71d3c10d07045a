//! The stability gate: a change is let through only after it has been asked
//! for on enough consecutive ticks.
//!
//! A gate remembers the value that is applied, the value that is waiting, and
//! for how many ticks in a row it has been waiting. Proposing the applied
//! value drops whatever waits. Proposing another value starts or continues
//! its count, and when the count reaches the threshold, a gate fires once
//! and forgets the count. What is applied changes only when the caller
//! reports that the change was carried out.

use vstd::prelude::*;

verus! {

/// A value that a gate can hold. Two values are the same to a gate when
/// their identities are equal.
pub trait GateValue: Sized {
    /// What a value is identified by.
    type Id;

    /// The identity of the value.
    spec fn id(&self) -> Self::Id;

    /// Whether two values have the same identity.
    fn same(&self, other: &Self) -> (same: bool)
        ensures
            same == (self.id() == other.id()),
    ;
}

impl GateValue for bool {
    type Id = bool;

    open spec fn id(&self) -> bool {
        *self
    }

    fn same(&self, other: &bool) -> (same: bool) {
        *self == *other
    }
}

impl GateValue for String {
    type Id = Seq<char>;

    open spec fn id(&self) -> Seq<char> {
        self@
    }

    fn same(&self, other: &String) -> (same: bool) {
        *self == *other
    }
}

impl<T: GateValue> GateValue for Option<T> {
    type Id = Option<T::Id>;

    open spec fn id(&self) -> Option<T::Id> {
        match self {
            Some(value) => Some(value.id()),
            None => None,
        }
    }

    fn same(&self, other: &Option<T>) -> (same: bool) {
        match (self, other) {
            (Some(a), Some(b)) => a.same(b),
            (None, None) => true,
            _ => false,
        }
    }
}

/// The state of a gate, as contracts see it.
pub struct Gate<Id> {
    /// The value that is in effect.
    pub applied: Id,
    /// The value that is waiting to be applied.
    pub pending: Option<Id>,
    /// Consecutive ticks the pending value has been proposed.
    pub stable_ticks: nat,
    /// The count at which a proposal fires.
    pub threshold: nat,
}

impl<Id> Gate<Id> {
    /// A value waits exactly while its count is at least 1, and a count that
    /// has reached the threshold does not outlive the call that reached it.
    pub open spec fn wf(self) -> bool {
        &&& self.pending is Some <==> self.stable_ticks >= 1
        &&& self.stable_ticks == 0 || self.stable_ticks < self.threshold
    }

    /// A gate with `applied` in effect and nothing waiting.
    pub open spec fn idle(applied: Id, threshold: nat) -> Gate<Id> {
        Gate { applied, pending: None, stable_ticks: 0, threshold }
    }

    /// This gate with nothing waiting.
    pub open spec fn cleared(self) -> Gate<Id> {
        Gate { pending: None, stable_ticks: 0, ..self }
    }

    /// The count that `desired` reaches when it is proposed: one more than
    /// before if it is the value that waits, 1 if it is not.
    pub open spec fn count_for(self, desired: Id) -> nat {
        if self.pending == Some(desired) {
            self.stable_ticks + 1
        } else {
            1
        }
    }

    /// Whether proposing `desired` fires this gate.
    pub open spec fn fires(self, desired: Id) -> bool {
        desired != self.applied && self.count_for(desired) >= self.threshold
    }

    /// This gate after `desired` has been proposed.
    pub open spec fn propose(self, desired: Id) -> Gate<Id> {
        if desired == self.applied || self.fires(desired) {
            self.cleared()
        } else {
            Gate { pending: Some(desired), stable_ticks: self.count_for(desired), ..self }
        }
    }

    /// This gate after `value` has been put in effect.
    pub open spec fn commit(self, value: Id) -> Gate<Id> {
        Gate { applied: value, ..self }
    }

    /// This gate after `desired` has been proposed `times` times in a row.
    pub open spec fn propose_repeatedly(self, desired: Id, times: nat) -> Gate<Id>
        decreases times,
    {
        if times == 0 {
            self
        } else {
            self.propose_repeatedly(desired, (times - 1) as nat).propose(desired)
        }
    }
}

/// Proposing keeps a gate well formed.
pub proof fn lemma_propose_wf<Id>(gate: Gate<Id>, desired: Id)
    requires
        gate.wf(),
    ensures
        gate.propose(desired).wf(),
        gate.propose(desired).applied == gate.applied,
        gate.propose(desired).threshold == gate.threshold,
{
}

/// A value that differs from the applied one and is proposed on consecutive
/// ticks to a gate with nothing waiting fires it on the tick that
/// completes the threshold and on none before it.
pub proof fn lemma_fires_at_threshold<Id>(gate: Gate<Id>, desired: Id, tick: nat)
    requires
        gate.wf(),
        gate.pending is None,
        gate.threshold >= 1,
        desired != gate.applied,
        1 <= tick <= gate.threshold,
    ensures
        gate.propose_repeatedly(desired, tick).applied == gate.applied,
        gate.propose_repeatedly(desired, tick).threshold == gate.threshold,
        tick < gate.threshold ==> {
            &&& !gate.propose_repeatedly(desired, (tick - 1) as nat).fires(desired)
            &&& gate.propose_repeatedly(desired, tick).pending == Some(desired)
            &&& gate.propose_repeatedly(desired, tick).stable_ticks == tick
        },
        tick == gate.threshold ==> {
            &&& gate.propose_repeatedly(desired, (tick - 1) as nat).fires(desired)
            &&& gate.propose_repeatedly(desired, tick) == gate.cleared()
        },
    decreases tick,
{
    reveal_with_fuel(Gate::propose_repeatedly, 2);
    if tick > 1 {
        lemma_fires_at_threshold(gate, desired, (tick - 1) as nat);
    }
}

/// A proposal that differs from the value that waits restarts the count: it
/// fires only a gate whose threshold is at most 1.
pub proof fn lemma_change_restarts_count<Id>(gate: Gate<Id>, desired: Id)
    requires
        gate.wf(),
        desired != gate.applied,
        gate.pending != Some(desired),
    ensures
        gate.fires(desired) <==> gate.threshold <= 1,
        !gate.fires(desired) ==> gate.propose(desired).stable_ticks == 1,
{
}

/// A gate over values of type `T`.
pub struct HysteresisGate<T: GateValue> {
    applied: T,
    pending: Option<T>,
    stable_ticks: u32,
    threshold: u32,
}

impl<T: GateValue> View for HysteresisGate<T> {
    type V = Gate<T::Id>;

    closed spec fn view(&self) -> Gate<T::Id> {
        Gate {
            applied: self.applied.id(),
            pending: match self.pending {
                Some(value) => Some(value.id()),
                None => None,
            },
            stable_ticks: self.stable_ticks as nat,
            threshold: self.threshold as nat,
        }
    }
}

impl<T: GateValue> HysteresisGate<T> {
    /// A gate with `applied` in effect, nothing waiting, and the given
    /// threshold.
    pub fn new(applied: T, threshold: u32) -> (gate: HysteresisGate<T>)
        ensures
            gate@ == Gate::idle(applied.id(), threshold as nat),
            gate@.wf(),
    {
        HysteresisGate { applied, pending: None, stable_ticks: 0, threshold }
    }

    /// Proposes `desired` for this tick and says whether this gate fires.
    ///
    /// When it fires, the caller carries the change out and, if that
    /// succeeded, reports it with `commit`. The count is forgotten either way.
    pub fn propose(&mut self, desired: T) -> (fire: bool)
        requires
            old(self)@.wf(),
        ensures
            final(self)@.wf(),
            final(self)@ == old(self)@.propose(desired.id()),
            fire == old(self)@.fires(desired.id()),
    {
        if desired.same(&self.applied) {
            self.pending = None;
            self.stable_ticks = 0;
            return false;
        }
        let continues: bool = match &self.pending {
            Some(waiting) => waiting.same(&desired),
            None => false,
        };
        if continues {
            self.stable_ticks += 1;
        } else {
            self.stable_ticks = 1;
        }
        if self.stable_ticks >= self.threshold {
            self.pending = None;
            self.stable_ticks = 0;
            true
        } else {
            self.pending = Some(desired);
            false
        }
    }

    /// Records that `value` is now in effect.
    pub fn commit(&mut self, value: T)
        ensures
            final(self)@ == old(self)@.commit(value.id()),
    {
        self.applied = value;
    }

    /// Drops whatever waits.
    pub fn clear(&mut self)
        ensures
            final(self)@ == old(self)@.cleared(),
            final(self)@.wf(),
    {
        self.pending = None;
        self.stable_ticks = 0;
    }

    /// Ticks the waiting value has been proposed in a row; 0 if none waits.
    pub fn stable_ticks(&self) -> (ticks: u32)
        ensures
            ticks == self@.stable_ticks,
    {
        self.stable_ticks
    }

    /// The value in effect.
    pub fn applied(&self) -> (applied: &T)
        ensures
            applied.id() == self@.applied,
    {
        &self.applied
    }

    /// The value that waits, if any.
    pub fn pending(&self) -> (pending: &Option<T>)
        ensures
            pending.id() == self@.pending,
    {
        &self.pending
    }
}

} // verus!
