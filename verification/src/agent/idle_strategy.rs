//! What an agent does between duty cycles that found no work.
//!
//! The usual strategy backs off in three phases: spin, yield, park. Work resets
//! it to the first. What is decided here is carried out by the thread that runs
//! the agent.

use vstd::prelude::*;

verus! {

/// Idle strategy configuration.
#[derive(Debug, Clone, Copy, PartialEq, Eq, Structural)]
pub enum IdleStrategy {
    /// Spin. Lowest latency, a whole CPU.
    BusySpin,
    /// Do nothing between cycles.
    Noop,
    /// Always sleep for a fixed time.
    Sleeping { period_ns: u64 },
    /// Back off: spin, then yield, then park for longer and longer.
    Backoff { max_spins: u64, max_yields: u64, min_park_ns: u64, max_park_ns: u64 },
}

/// Progress of a strategy through its phases.
#[derive(Debug, Clone, Copy, PartialEq, Eq, Structural)]
pub struct IdleStrategyState {
    pub spin_count: u64,
    pub yield_count: u64,
    pub park_ns: u64,
}

/// What the running thread is to do.
#[derive(Debug, Clone, Copy, PartialEq, Eq, Structural)]
pub enum IdleAction {
    /// Go on at once.
    Nothing,
    /// Hint to the CPU that this is a spin loop.
    Spin,
    /// Give up the time slice.
    Yield,
    /// Park for this many nanoseconds at most.
    Park(u64),
}

impl IdleStrategy {
    /// Backoff with the usual parameters.
    pub fn default_backoff() -> (r: Self)
        ensures
            r == (IdleStrategy::Backoff {
                max_spins: 10,
                max_yields: 5,
                min_park_ns: 1_000,
                max_park_ns: 1_000_000,
            }),
    {
        IdleStrategy::Backoff {
            max_spins: 10,
            max_yields: 5,
            min_park_ns: 1_000,
            max_park_ns: 1_000_000,
        }
    }

    /// The state that a strategy starts with.
    pub open spec fn initial_state(self) -> IdleStrategyState {
        IdleStrategyState {
            spin_count: 0,
            yield_count: 0,
            park_ns: match self {
                IdleStrategy::Backoff { min_park_ns, .. } => min_park_ns,
                _ => 0,
            },
        }
    }

    /// The state that this strategy starts with.
    pub fn new_state(&self) -> (r: IdleStrategyState)
        ensures
            r == self.initial_state(),
    {
        let initial_park: u64 = match self {
            IdleStrategy::Backoff { min_park_ns, .. } => *min_park_ns,
            _ => 0,
        };
        IdleStrategyState { spin_count: 0, yield_count: 0, park_ns: initial_park }
    }

    /// What to do after a duty cycle with the given work count.
    pub open spec fn action(self, state: IdleStrategyState, work_count: i32) -> IdleAction {
        match self {
            IdleStrategy::Noop => IdleAction::Nothing,
            IdleStrategy::BusySpin => if work_count == 0 {
                IdleAction::Spin
            } else {
                IdleAction::Nothing
            },
            IdleStrategy::Sleeping { period_ns } => if work_count == 0 {
                IdleAction::Park(period_ns)
            } else {
                IdleAction::Nothing
            },
            IdleStrategy::Backoff { max_spins, max_yields, .. } => if work_count > 0 {
                IdleAction::Nothing
            } else if state.spin_count < max_spins {
                IdleAction::Spin
            } else if state.yield_count < max_yields {
                IdleAction::Yield
            } else {
                IdleAction::Park(state.park_ns)
            },
        }
    }

    /// The state after that.
    pub open spec fn next_state(
        self,
        state: IdleStrategyState,
        work_count: i32,
    ) -> IdleStrategyState {
        match self {
            IdleStrategy::Backoff { max_spins, max_yields, min_park_ns, max_park_ns } => {
                if work_count > 0 {
                    self.initial_state()
                } else if state.spin_count < max_spins {
                    IdleStrategyState { spin_count: (state.spin_count + 1) as u64, ..state }
                } else if state.yield_count < max_yields {
                    IdleStrategyState { yield_count: (state.yield_count + 1) as u64, ..state }
                } else {
                    IdleStrategyState {
                        park_ns: if state.park_ns + min_park_ns > max_park_ns {
                            max_park_ns
                        } else {
                            (state.park_ns + min_park_ns) as u64
                        },
                        ..state
                    }
                }
            },
            _ => state,
        }
    }
}

/// One idle step: says what to do and moves the state on.
pub fn idle(strategy: &IdleStrategy, state: &mut IdleStrategyState, work_count: i32) -> (r:
    IdleAction)
    ensures
        r == strategy.action(*old(state), work_count),
        *final(state) == strategy.next_state(*old(state), work_count),
{
    match strategy {
        IdleStrategy::Noop => IdleAction::Nothing,
        IdleStrategy::BusySpin => {
            if work_count == 0 {
                IdleAction::Spin
            } else {
                IdleAction::Nothing
            }
        },
        IdleStrategy::Sleeping { period_ns } => {
            if work_count == 0 {
                IdleAction::Park(*period_ns)
            } else {
                IdleAction::Nothing
            }
        },
        IdleStrategy::Backoff { max_spins, max_yields, min_park_ns, max_park_ns } => {
            if work_count > 0 {
                state.spin_count = 0;
                state.yield_count = 0;
                state.park_ns = *min_park_ns;
                return IdleAction::Nothing;
            }
            if state.spin_count < *max_spins {
                state.spin_count = state.spin_count + 1;
                return IdleAction::Spin;
            }
            if state.yield_count < *max_yields {
                state.yield_count = state.yield_count + 1;
                return IdleAction::Yield;
            }
            let park: u64 = state.park_ns;
            let next: u64 = park.saturating_add(*min_park_ns);
            state.park_ns = if next > *max_park_ns {
                *max_park_ns
            } else {
                next
            };
            IdleAction::Park(park)
        },
    }
}

/// The state stays within a strategy's limits: no more spins and yields than the
/// maximum are counted, and the park time is in range if there is a range.
pub open spec fn within_limits(strategy: IdleStrategy, state: IdleStrategyState) -> bool {
    match strategy {
        IdleStrategy::Backoff { max_spins, max_yields, min_park_ns, max_park_ns } => {
            &&& state.spin_count <= max_spins
            &&& state.yield_count <= max_yields
            &&& min_park_ns <= max_park_ns ==> min_park_ns <= state.park_ns <= max_park_ns
        },
        _ => state == strategy.initial_state(),
    }
}

/// The state after the first `k` of a sequence of duty cycles with these work
/// counts.
pub open spec fn state_after(strategy: IdleStrategy, work_counts: Seq<i32>, k: int) ->
    IdleStrategyState
    decreases k,
{
    if k <= 0 {
        strategy.initial_state()
    } else {
        strategy.next_state(state_after(strategy, work_counts, k - 1), work_counts[k - 1])
    }
}

/// Whatever the duty cycles come to, a strategy stays within its limits from its
/// first state on. So backoff never parks shorter than its minimum or longer than
/// its maximum.
pub proof fn law_idling_stays_within_limits(
    strategy: IdleStrategy,
    work_counts: Seq<i32>,
    k: int,
    work_count: i32,
)
    requires
        0 <= k <= work_counts.len(),
    ensures
        within_limits(strategy, state_after(strategy, work_counts, k)),
        strategy matches IdleStrategy::Backoff { min_park_ns, max_park_ns, .. } ==> (
        strategy.action(state_after(strategy, work_counts, k), work_count) matches IdleAction::Park(
            park_ns,
        ) ==> min_park_ns <= max_park_ns ==> min_park_ns <= park_ns <= max_park_ns),
    decreases k,
{
    if k > 0 {
        law_idling_stays_within_limits(strategy, work_counts, k - 1, work_count);
    }
}

/// One step keeps a strategy within its limits.
pub proof fn law_step_stays_within_limits(
    strategy: IdleStrategy,
    state: IdleStrategyState,
    work_count: i32,
)
    requires
        within_limits(strategy, state),
    ensures
        within_limits(strategy, strategy.next_state(state, work_count)),
{
}

/// Without work the park time never gets shorter.
pub proof fn law_backoff_park_ramps_up(strategy: IdleStrategy, state: IdleStrategyState)
    requires
        strategy is Backoff,
        state.park_ns <= strategy->max_park_ns,
    ensures
        strategy.next_state(state, 0).park_ns >= state.park_ns,
{
}

/// What one idle step does. Work sends backoff back to its start, and the others
/// do nothing then. Without work one spins, one sleeps for its period, one does
/// nothing, and backoff uses up its spins, then its yields, and then parks, each
/// time by its minimum longer, up to its maximum.
pub proof fn law_idle_step(
    strategy: &IdleStrategy,
    before: IdleStrategyState,
    after: IdleStrategyState,
    work_count: i32,
    r: IdleAction,
)
    requires
        exists|state: &mut IdleStrategyState|
            *state == before && *final(state) == after && #[trigger] call_ensures(
                idle,
                (strategy, state, work_count),
                r,
            ),
    ensures
        work_count > 0 ==> r == IdleAction::Nothing,
        *strategy is Noop ==> r == IdleAction::Nothing && after == before,
        *strategy is BusySpin ==> (work_count == 0 ==> r == IdleAction::Spin) && after == before,
        *strategy matches IdleStrategy::Sleeping { period_ns } ==> {
            &&& work_count == 0 ==> r == IdleAction::Park(period_ns)
            &&& after == before
        },
        *strategy matches IdleStrategy::Backoff {
            max_spins,
            max_yields,
            min_park_ns,
            max_park_ns,
        } ==> {
            &&& work_count > 0 ==> after.spin_count == 0 && after.yield_count == 0 && after.park_ns
                == min_park_ns
            &&& work_count <= 0 && before.spin_count < max_spins ==> {
                &&& r == IdleAction::Spin
                &&& after.spin_count == before.spin_count + 1
                &&& after.yield_count == before.yield_count
                &&& after.park_ns == before.park_ns
            }
            &&& work_count <= 0 && before.spin_count >= max_spins && before.yield_count
                < max_yields ==> {
                &&& r == IdleAction::Yield
                &&& after.spin_count == before.spin_count
                &&& after.yield_count == before.yield_count + 1
                &&& after.park_ns == before.park_ns
            }
            &&& work_count <= 0 && before.spin_count >= max_spins && before.yield_count
                >= max_yields ==> {
                &&& r == IdleAction::Park(before.park_ns)
                &&& after.spin_count == before.spin_count
                &&& after.yield_count == before.yield_count
                &&& before.park_ns + min_park_ns <= max_park_ns ==> after.park_ns == before.park_ns
                    + min_park_ns
                &&& before.park_ns + min_park_ns > max_park_ns ==> after.park_ns == max_park_ns
            }
        },
{
}

/// A strategy starts with no spin and no yield counted, and backoff with its
/// shortest park time.
pub proof fn law_idling_starts_over(strategy: &IdleStrategy, state: IdleStrategyState)
    requires
        call_ensures(IdleStrategy::new_state, (strategy,), state),
    ensures
        state.spin_count == 0,
        state.yield_count == 0,
        *strategy matches IdleStrategy::Backoff { min_park_ns, .. } ==> state.park_ns
            == min_park_ns,
        !(*strategy is Backoff) ==> state.park_ns == 0,
{
}

/// Left without work from its start, backoff spins as often as it may, then yields
/// as often as it may, and parks after that, the first time for its minimum and
/// each time by as much longer until the maximum is reached.
pub proof fn law_backoff_runs_through_its_phases(
    strategy: IdleStrategy,
    work_counts: Seq<i32>,
    k: int,
)
    requires
        strategy is Backoff,
        strategy->min_park_ns <= strategy->max_park_ns,
        0 <= k < work_counts.len(),
        forall|i: int| 0 <= i < work_counts.len() ==> #[trigger] work_counts[i] == 0,
    ensures
        ({
            let state = state_after(strategy, work_counts, k);
            let r = strategy.action(state, work_counts[k]);
            let spins = strategy->max_spins as int;
            let yields = strategy->max_yields as int;
            let long = strategy->min_park_ns * (k - spins - yields + 1);
            &&& k < spins ==> r == IdleAction::Spin
            &&& spins <= k < spins + yields ==> r == IdleAction::Yield
            &&& k >= spins + yields ==> r == IdleAction::Park(
                if long < strategy->max_park_ns {
                    long as u64
                } else {
                    strategy->max_park_ns
                },
            )
        }),
{
    lemma_idle_state(strategy, work_counts, k);
}

/// The state of backoff after `k` duty cycles without work.
proof fn lemma_idle_state(strategy: IdleStrategy, work_counts: Seq<i32>, k: int)
    requires
        strategy is Backoff,
        strategy->min_park_ns <= strategy->max_park_ns,
        0 <= k <= work_counts.len(),
        forall|i: int| 0 <= i < work_counts.len() ==> #[trigger] work_counts[i] == 0,
    ensures
        ({
            let state = state_after(strategy, work_counts, k);
            let spins = strategy->max_spins as int;
            let yields = strategy->max_yields as int;
            let min = strategy->min_park_ns as int;
            let max = strategy->max_park_ns as int;
            let parks = if k < spins + yields {
                0
            } else {
                k - spins - yields
            };
            &&& state.spin_count == if k < spins {
                k
            } else {
                spins
            }
            &&& state.yield_count == if k < spins {
                0
            } else if k < spins + yields {
                k - spins
            } else {
                yields
            }
            &&& state.park_ns == if min * (parks + 1) < max {
                min * (parks + 1)
            } else {
                max
            }
        }),
    decreases k,
{
    let min = strategy->min_park_ns as int;
    if k == 0 {
        assert(min * 1 == min);
    } else {
        lemma_idle_state(strategy, work_counts, k - 1);
        let spins = strategy->max_spins as int;
        let yields = strategy->max_yields as int;
        if k > spins + yields {
            let parks = k - 1 - spins - yields;
            assert(min * (parks + 2) == min * (parks + 1) + min) by (nonlinear_arith);
            assert(parks + 2 == (k - spins - yields) + 1);
            assert(min >= 0);
        }
    }
}

/// Backoff by default spins ten times, yields five times, and parks from one
/// microsecond to one millisecond.
pub proof fn law_default_backoff(r: IdleStrategy)
    requires
        call_ensures(IdleStrategy::default_backoff, (), r),
    ensures
        r is Backoff,
        r->max_spins == 10,
        r->max_yields == 5,
        r->min_park_ns == 1_000,
        r->max_park_ns == 1_000 * 1_000,
{
}

} // verus!
