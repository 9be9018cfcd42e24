//! What the render loop carries from tick to tick: the history of display
//! levels, the factor of the velocity last seen, and the highest factor so
//! far.
//!
//! A factor is held by its order key: the bit pattern of its single-precision
//! value, read as an unsigned number. No factor is negative, and among values
//! that are not negative the greater value has the greater key, the unbounded
//! value the greatest of all. A key beyond that one is the key of no such
//! value. It is taken for a factor that is undefined, as the factor of a speed
//! beyond the limit is, and never becomes the peak. The arithmetic that leads
//! from a sample to its level and to the key of its factor is the caller's.
use vstd::prelude::*;
use crate::history::History;

verus! {

/// Order key of the factor one, the factor at rest.
pub const UNIT_FACTOR: u32 = 0x3f80_0000;

/// Order key of the unbounded factor, the factor at the limit speed. No
/// defined factor has a greater key.
pub const UNBOUNDED_FACTOR: u32 = 0x7f80_0000;

/// What a sample contributes to its tick.
#[derive(Clone, Copy, Debug, PartialEq, Eq)]
pub struct Reading {
    /// Display level of the sample's speed.
    pub level: u8,
    /// Order key of the factor at the sample's velocity.
    pub factor: u32,
}

/// The carried state as plain values.
pub struct State {
    /// Display levels, one for each tick so far, oldest first.
    pub history: Seq<u8>,
    /// Order key of the factor at the current velocity.
    pub factor: u32,
    /// Order key of the highest factor so far.
    pub peak: u32,
}

/// Whether `factor` is the key of a defined factor.
pub open spec fn is_defined(factor: u32) -> bool {
    factor <= UNBOUNDED_FACTOR
}

/// The peak after a tick at `factor`: the greater of the two, where `factor`
/// is defined and greater, and the peak as it was otherwise.
pub open spec fn raised(peak: u32, factor: u32) -> u32 {
    if is_defined(factor) && factor > peak {
        factor
    } else {
        peak
    }
}

/// The state before the first tick: no history, at rest.
pub open spec fn initial() -> State {
    State { history: Seq::empty(), factor: UNIT_FACTOR, peak: UNIT_FACTOR }
}

/// The state after one tick. A tick with a sample takes the sample's level
/// and factor; one without appends a zero and keeps the factor it had. Either
/// way the peak is then raised to the factor.
pub open spec fn step(state: State, arrived: Option<Reading>) -> State {
    let factor = match arrived {
        Some(reading) => reading.factor,
        None => state.factor,
    };
    let level = match arrived {
        Some(reading) => reading.level,
        None => 0,
    };
    State { history: state.history.push(level), factor, peak: raised(state.peak, factor) }
}

/// The state after one tick for each entry of `arrivals`, in their order.
pub open spec fn run(state: State, arrivals: Seq<Option<Reading>>) -> State
    decreases arrivals.len(),
{
    if arrivals.len() == 0 {
        state
    } else {
        step(run(state, arrivals.drop_last()), arrivals.last())
    }
}

/// What holds of every state that ticks lead to from the initial one: the
/// peak is a defined factor, not below one, and not below the current factor
/// where that is defined.
pub open spec fn well_formed(state: State) -> bool {
    &&& UNIT_FACTOR <= state.peak <= UNBOUNDED_FACTOR
    &&& is_defined(state.factor) ==> state.factor <= state.peak
}

/// The carried state.
pub struct Integrator {
    history: History,
    factor: u32,
    peak: u32,
}

impl View for Integrator {
    type V = State;

    closed spec fn view(&self) -> State {
        State { history: self.history@, factor: self.factor, peak: self.peak }
    }
}

impl Integrator {
    /// The state before the first tick.
    pub fn new() -> (fresh: Integrator)
        ensures
            fresh@ == initial(),
    {
        Integrator { history: History::new(), factor: UNIT_FACTOR, peak: UNIT_FACTOR }
    }

    /// One tick: with the reading of the sample that arrived, or with none.
    pub fn tick(&mut self, arrived: Option<Reading>)
        ensures
            final(self)@ == step(old(self)@, arrived),
            final(self)@.history.len() == old(self)@.history.len() + 1,
            final(self)@.peak >= old(self)@.peak,
            well_formed(old(self)@) ==> well_formed(final(self)@),
    {
        match arrived {
            Some(reading) => {
                self.factor = reading.factor;
                self.history.record(Some(reading.level));
            },
            None => {
                self.history.record(None);
            },
        }
        if self.factor <= UNBOUNDED_FACTOR && self.factor > self.peak {
            self.peak = self.factor;
        }
    }

    /// Order key of the highest factor so far.
    pub fn peak(&self) -> (peak: u32)
        ensures
            peak == self@.peak,
    {
        self.peak
    }

    /// Order key of the factor at the current velocity.
    pub fn factor(&self) -> (factor: u32)
        ensures
            factor == self@.factor,
    {
        self.factor
    }

    /// The display levels of the ticks so far.
    pub fn history(&self) -> (history: &History)
        ensures
            history@ == self@.history,
    {
        &self.history
    }
}

/// A tick keeps a well-formed state well-formed.
pub proof fn lemma_step_well_formed(state: State, arrived: Option<Reading>)
    requires
        well_formed(state),
    ensures
        well_formed(step(state, arrived)),
{
}

/// Every state reached from the initial one is well-formed.
pub proof fn lemma_run_well_formed(arrivals: Seq<Option<Reading>>)
    ensures
        well_formed(run(initial(), arrivals)),
    decreases arrivals.len(),
{
    if arrivals.len() > 0 {
        lemma_run_well_formed(arrivals.drop_last());
    }
}

/// The peak never falls: over any sequence of ticks, from any state, the peak
/// after tick `t + 1` is at least the peak after tick `t`.
pub proof fn lemma_peak_never_falls(state: State, arrivals: Seq<Option<Reading>>, t: int)
    requires
        0 <= t < arrivals.len(),
    ensures
        run(state, arrivals.take(t + 1)).peak >= run(state, arrivals.take(t)).peak,
{
    assert(arrivals.take(t + 1).drop_last() =~= arrivals.take(t));
}

/// The peak after any number of ticks is at least the peak before them.
pub proof fn lemma_peak_at_least_start(state: State, arrivals: Seq<Option<Reading>>)
    ensures
        run(state, arrivals).peak >= state.peak,
    decreases arrivals.len(),
{
    if arrivals.len() > 0 {
        lemma_peak_at_least_start(state, arrivals.drop_last());
    }
}

/// Every tick appends exactly one level, whether a sample arrived or not:
/// after the ticks of `arrivals` the history is longer by their number, and
/// what it held before is untouched.
pub proof fn lemma_history_grows(state: State, arrivals: Seq<Option<Reading>>)
    ensures
        run(state, arrivals).history.len() == state.history.len() + arrivals.len(),
        run(state, arrivals).history.take(state.history.len() as int) == state.history,
    decreases arrivals.len(),
{
    if arrivals.len() > 0 {
        lemma_history_grows(state, arrivals.drop_last());
        let before = run(state, arrivals.drop_last()).history;
        assert(run(state, arrivals).history.take(state.history.len() as int) =~= before.take(
            state.history.len() as int,
        ));
    } else {
        assert(state.history.take(state.history.len() as int) =~= state.history);
    }
}

/// A tick without a sample leaves the factor and the peak of a well-formed
/// state as they were.
pub proof fn lemma_quiet_tick(state: State)
    requires
        well_formed(state),
    ensures
        step(state, None).factor == state.factor,
        step(state, None).peak == state.peak,
        step(state, None).history == state.history.push(0u8),
{
}

/// Where no sample ever arrives, the history after `n` ticks is `n` zeros and
/// the peak is still the factor one.
pub proof fn lemma_idle(arrivals: Seq<Option<Reading>>)
    requires
        forall|t: int| 0 <= t < arrivals.len() ==> arrivals[t] is None,
    ensures
        run(initial(), arrivals).history == Seq::new(arrivals.len(), |t: int| 0u8),
        run(initial(), arrivals).factor == UNIT_FACTOR,
        run(initial(), arrivals).peak == UNIT_FACTOR,
    decreases arrivals.len(),
{
    if arrivals.len() > 0 {
        lemma_idle(arrivals.drop_last());
    }
    assert(run(initial(), arrivals).history =~= Seq::new(arrivals.len(), |t: int| 0u8));
}

} // verus!
