//! Runs an agent: start, duty cycles with idling in between, close.
//!
//! A runner is driven step by step by the thread that runs it: `step` takes the
//! run from phase to phase, until it has ended, and says how to idle in between.

use crate::agent::idle_strategy::{idle, IdleAction, IdleStrategy, IdleStrategyState};
use crate::agent::{Agent, AgentError};
use std::sync::atomic::{AtomicBool, Ordering};
use std::sync::Arc;
use vstd::prelude::*;

verus! {

/// Runs an agent with an idle strategy until it is told to stop.
#[derive(Debug)]
pub struct AgentRunner<A: Agent> {
    pub agent: A,
    pub idle_strategy: IdleStrategy,
    pub idle_state: IdleStrategyState,
    pub running: Arc<AtomicBool>,
}

/// What a step of the runner came to.
#[derive(Debug, Clone, Copy, PartialEq, Eq, Structural)]
pub enum Cycle {
    /// A duty cycle was done: idle like this, then go on.
    Continue(IdleAction),
    /// The runner was told to stop: close.
    Stopped,
}

/// What a run ends with: the error of its duty cycles if there was one, else what
/// closing came to.
pub open spec fn run_result(
    work: Result<(), AgentError>,
    close: Result<(), AgentError>,
) -> Result<(), AgentError> {
    match work {
        Err(e) => Err(e),
        Ok(_) => close,
    }
}

/// What a run ends with: the error of its duty cycles if there was one, else what
/// closing came to.
pub fn first_error(work: Result<(), AgentError>, close: Result<(), AgentError>) -> (r: Result<
    (),
    AgentError,
>)
    ensures
        r == run_result(work, close),
{
    match work {
        Err(e) => Err(e),
        Ok(()) => close,
    }
}

/// How far a run has come.
#[derive(Debug)]
pub enum RunPhase {
    /// The agent is to be started.
    Start,
    /// Duty cycles are to be done.
    Work,
    /// The agent is to be closed, after duty cycles that came to this.
    Close(Result<(), AgentError>),
    /// The run has ended with this.
    End(Result<(), AgentError>),
}

/// What happens in a run.
#[derive(Debug)]
pub enum RunEvent {
    /// The agent was started, which came to this.
    Started(Result<(), AgentError>),
    /// The runner's flag was read as true, and a duty cycle came to this.
    Worked(Result<i32, AgentError>),
    /// The runner's flag was read as false.
    Stopped,
    /// The agent was closed, which came to this.
    Closed(Result<(), AgentError>),
}

impl RunPhase {
    /// The event can happen in this phase.
    pub open spec fn takes(self, event: RunEvent) -> bool {
        match self {
            RunPhase::Start => event is Started,
            RunPhase::Work => event is Worked || event is Stopped,
            RunPhase::Close(_) => event is Closed,
            RunPhase::End(_) => false,
        }
    }

    /// The phase after an event. One that cannot happen changes nothing.
    pub open spec fn after(self, event: RunEvent) -> RunPhase {
        match (self, event) {
            (RunPhase::Start, RunEvent::Started(Ok(_))) => RunPhase::Work,
            (RunPhase::Start, RunEvent::Started(Err(e))) => RunPhase::End(Err(e)),
            (RunPhase::Work, RunEvent::Worked(Err(e))) => RunPhase::Close(Err(e)),
            (RunPhase::Work, RunEvent::Stopped) => RunPhase::Close(Ok(())),
            (RunPhase::Close(work), RunEvent::Closed(close)) => RunPhase::End(
                run_result(work, close),
            ),
            _ => self,
        }
    }

    /// Takes an event in.
    pub fn on_event(self, event: RunEvent) -> (r: RunPhase)
        ensures
            r == self.after(event),
    {
        match self {
            RunPhase::Start => match event {
                RunEvent::Started(Ok(())) => RunPhase::Work,
                RunEvent::Started(Err(e)) => RunPhase::End(Err(e)),
                _ => RunPhase::Start,
            },
            RunPhase::Work => match event {
                RunEvent::Worked(Err(e)) => RunPhase::Close(Err(e)),
                RunEvent::Stopped => RunPhase::Close(Ok(())),
                _ => RunPhase::Work,
            },
            RunPhase::Close(work) => match event {
                RunEvent::Closed(close) => RunPhase::End(first_error(work, close)),
                _ => RunPhase::Close(work),
            },
            RunPhase::End(result) => RunPhase::End(result),
        }
    }
}

impl<A: Agent> AgentRunner<A> {
    /// What a duty cycle that came to `work` leads to: how to idle after it, or
    /// its error.
    pub open spec fn cycle_result(self, work: Result<i32, AgentError>) -> Result<
        Cycle,
        AgentError,
    > {
        match work {
            Ok(work_count) => Ok(
                Cycle::Continue(self.idle_strategy.action(self.idle_state, work_count)),
            ),
            Err(e) => Err(e),
        }
    }

    /// How far idling has come after a duty cycle that came to `work`.
    pub open spec fn idle_after(self, work: Result<i32, AgentError>) -> IdleStrategyState {
        match work {
            Ok(work_count) => self.idle_strategy.next_state(self.idle_state, work_count),
            Err(_) => self.idle_state,
        }
    }

    /// A load of the runner's flag can return this.
    pub open spec fn can_load(self, running: bool) -> bool {
        call_ensures(AtomicBool::load, (&*self.running, Ordering::Acquire), running)
    }

    /// A runner that has not started yet.
    pub fn new(agent: A, idle_strategy: IdleStrategy) -> (r: Self)
        ensures
            r.agent == agent,
            r.idle_strategy == idle_strategy,
            r.idle_state == idle_strategy.initial_state(),
            call_ensures(AtomicBool::new, (true,), *r.running),
    {
        let idle_state = idle_strategy.new_state();
        AgentRunner { agent, idle_strategy, idle_state, running: Arc::new(AtomicBool::new(true)) }
    }

    /// A handle that stops this runner.
    pub fn stop_handle(&self) -> (r: StopHandle)
        ensures
            r.running == self.running,
    {
        StopHandle { running: Arc::clone(&self.running) }
    }

    /// Starts the agent: its `on_start` is called, and what that returns is passed
    /// on. A run whose start fails has no duty cycles and is not closed.
    pub fn open(&mut self) -> (r: Result<(), AgentError>)
        ensures
            exists|agent: &mut A|
                *agent == old(self).agent && *final(agent) == final(self).agent
                    && #[trigger] call_ensures(A::on_start, (agent,), r),
            final(self).idle_strategy == old(self).idle_strategy,
            final(self).idle_state == old(self).idle_state,
            final(self).running == old(self).running,
    {
        self.agent.on_start()
    }

    /// Takes in what a duty cycle came to, and says how to idle after it.
    pub fn on_work(&mut self, work: Result<i32, AgentError>) -> (r: Result<Cycle, AgentError>)
        ensures
            r == old(self).cycle_result(work),
            final(self).idle_state == old(self).idle_after(work),
            final(self).agent == old(self).agent,
            final(self).idle_strategy == old(self).idle_strategy,
            final(self).running == old(self).running,
    {
        match work {
            Ok(work_count) => {
                let action = idle(&self.idle_strategy, &mut self.idle_state, work_count);
                Ok(Cycle::Continue(action))
            },
            Err(e) => Err(e),
        }
    }

    /// Does one duty cycle if the runner is to go on: the agent's `do_work` is
    /// called, and how to idle after it, or its error, is passed on.
    pub fn cycle_if(&mut self, running: bool) -> (r: Result<Cycle, AgentError>)
        ensures
            r == Ok::<Cycle, AgentError>(Cycle::Stopped) <==> !running,
            !running ==> *final(self) == *old(self),
            running ==> {
                &&& exists|agent: &mut A, work: Result<i32, AgentError>|
                    *agent == old(self).agent && *final(agent) == final(self).agent
                        && #[trigger] call_ensures(A::do_work, (agent,), work) && r == old(
                        self,
                    ).cycle_result(work) && final(self).idle_state == old(self).idle_after(work)
                &&& final(self).idle_strategy == old(self).idle_strategy
                &&& final(self).running == old(self).running
            },
    {
        if !running {
            return Ok(Cycle::Stopped);
        }
        let work = self.agent.do_work();
        self.on_work(work)
    }

    /// Does one duty cycle, unless the runner was told to stop, and says how to
    /// idle after it. Whether it was told to stop is for other threads to say.
    pub fn cycle(&mut self) -> (r: Result<Cycle, AgentError>)
        ensures
            r == Ok::<Cycle, AgentError>(Cycle::Stopped) ==> {
                &&& old(self).can_load(false)
                &&& *final(self) == *old(self)
            },
            r != Ok::<Cycle, AgentError>(Cycle::Stopped) ==> {
                &&& old(self).can_load(true)
                &&& exists|agent: &mut A, work: Result<i32, AgentError>|
                    *agent == old(self).agent && *final(agent) == final(self).agent
                        && #[trigger] call_ensures(A::do_work, (agent,), work) && r == old(
                        self,
                    ).cycle_result(work) && final(self).idle_state == old(self).idle_after(work)
                &&& final(self).idle_strategy == old(self).idle_strategy
                &&& final(self).running == old(self).running
            },
    {
        let running = self.running.load(Ordering::Acquire);
        self.cycle_if(running)
    }

    /// Closes the agent, whatever its duty cycles came to: its `on_close` is called.
    /// An error of the duty cycles is passed on, else what closing came to.
    pub fn close(&mut self, work: Result<(), AgentError>) -> (r: Result<(), AgentError>)
        ensures
            exists|agent: &mut A, closed: Result<(), AgentError>|
                *agent == old(self).agent && *final(agent) == final(self).agent
                    && #[trigger] call_ensures(A::on_close, (agent,), closed) && r == run_result(
                    work,
                    closed,
                ),
            work is Err ==> r == work,
            final(self).idle_strategy == old(self).idle_strategy,
            final(self).idle_state == old(self).idle_state,
            final(self).running == old(self).running,
    {
        let close_result = self.agent.on_close();
        first_error(work, close_result)
    }

    /// How to idle after a duty cycle that came to `work`.
    pub open spec fn idle_action(self, work: Result<i32, AgentError>) -> IdleAction {
        match work {
            Ok(work_count) => self.idle_strategy.action(self.idle_state, work_count),
            Err(_) => IdleAction::Nothing,
        }
    }

    /// Does what a run's phase asks for: starts the agent, does one duty cycle
    /// unless the flag says stop, or closes the agent. Returns the phase after it
    /// and how to idle before the next step. A run that has ended stays as it is.
    pub fn step(&mut self, phase: RunPhase) -> (r: (RunPhase, IdleAction))
        ensures
            phase is Start ==> {
                &&& exists|agent: &mut A, started: Result<(), AgentError>|
                    *agent == old(self).agent && *final(agent) == final(self).agent
                        && #[trigger] call_ensures(A::on_start, (agent,), started) && r.0
                        == phase.after(RunEvent::Started(started))
                &&& r.1 == IdleAction::Nothing
            },
            phase is Work ==> {
                ||| {
                    &&& old(self).can_load(false)
                    &&& r.0 == phase.after(RunEvent::Stopped)
                    &&& r.1 == IdleAction::Nothing
                    &&& *final(self) == *old(self)
                }
                ||| {
                    &&& old(self).can_load(true)
                    &&& exists|agent: &mut A, work: Result<i32, AgentError>|
                        *agent == old(self).agent && *final(agent) == final(self).agent
                            && #[trigger] call_ensures(A::do_work, (agent,), work) && r.0
                            == phase.after(RunEvent::Worked(work)) && r.1 == old(
                            self,
                        ).idle_action(work) && final(self).idle_state == old(self).idle_after(work)
                }
            },
            phase is Close ==> {
                &&& exists|agent: &mut A, closed: Result<(), AgentError>|
                    *agent == old(self).agent && *final(agent) == final(self).agent
                        && #[trigger] call_ensures(A::on_close, (agent,), closed) && r.0
                        == phase.after(RunEvent::Closed(closed))
                &&& r.1 == IdleAction::Nothing
            },
            phase is End ==> r == (phase, IdleAction::Nothing) && *final(self) == *old(self),
            !(phase is Work) ==> final(self).idle_state == old(self).idle_state,
            final(self).idle_strategy == old(self).idle_strategy,
            final(self).running == old(self).running,
    {
        match phase {
            RunPhase::Start => {
                let started = self.open();
                (RunPhase::Start.on_event(RunEvent::Started(started)), IdleAction::Nothing)
            },
            RunPhase::Work => match self.cycle() {
                Ok(Cycle::Continue(action)) => (RunPhase::Work, action),
                Ok(Cycle::Stopped) => (
                    RunPhase::Work.on_event(RunEvent::Stopped),
                    IdleAction::Nothing,
                ),
                Err(e) => (
                    RunPhase::Work.on_event(RunEvent::Worked(Err(e))),
                    IdleAction::Nothing,
                ),
            },
            RunPhase::Close(work) => (RunPhase::End(self.close(work)), IdleAction::Nothing),
            RunPhase::End(result) => (RunPhase::End(result), IdleAction::Nothing),
        }
    }
}

/// The phase that the first `k` events of a run lead to.
pub open spec fn phase_after(events: Seq<RunEvent>, k: int) -> RunPhase
    decreases k,
{
    if k <= 0 {
        RunPhase::Start
    } else {
        phase_after(events, k - 1).after(events[k - 1])
    }
}

/// The events are those of a run: each can happen when it does.
pub open spec fn is_run(events: Seq<RunEvent>) -> bool {
    forall|i: int|
        0 <= i < events.len() ==> phase_after(events, i).takes(#[trigger] events[i])
}

/// The run stops where its flag is read as false, and nowhere else: `flag` says
/// what the flag is read as in each step.
pub open spec fn heeds(events: Seq<RunEvent>, flag: spec_fn(int) -> bool) -> bool {
    forall|i: int|
        0 <= i < events.len() && phase_after(events, i) is Work ==> (#[trigger] events[i] is Stopped
            <==> !flag(i))
}

/// What a run's duty cycles come to, judged by the last event before closing.
pub open spec fn work_result(event: RunEvent) -> Result<(), AgentError> {
    match event {
        RunEvent::Worked(Err(e)) => Err(e),
        _ => Ok(()),
    }
}

/// How a run of at least `k` events, which has not ended by then, began.
proof fn lemma_run_so_far(events: Seq<RunEvent>, k: int)
    requires
        is_run(events),
        0 < k <= events.len(),
        !(phase_after(events, k) is End),
    ensures
        events[0] is Started,
        events[0]->Started_0 is Ok,
        phase_after(events, k) is Work ==> forall|i: int|
            0 < i < k ==> #[trigger] events[i] is Worked && events[i]->Worked_0 is Ok,
        phase_after(events, k) is Close ==> {
            &&& 2 <= k
            &&& forall|i: int|
                0 < i < k - 1 ==> #[trigger] events[i] is Worked && events[i]->Worked_0 is Ok
            &&& events[k - 1] is Stopped || (events[k - 1] is Worked && events[k - 1]->Worked_0
                is Err)
            &&& phase_after(events, k) == RunPhase::Close(work_result(events[k - 1]))
        },
        !(phase_after(events, k) is Start),
    decreases k,
{
    assert(phase_after(events, k - 1).takes(events[k - 1]));
    if k == 1 {
        assert(phase_after(events, 0) is Start);
    } else {
        lemma_run_so_far(events, k - 1);
    }
}

/// A run that has ended stays so: no event comes after.
proof fn lemma_ended_run_is_over(events: Seq<RunEvent>, k: int)
    requires
        is_run(events),
        0 <= k <= events.len(),
        phase_after(events, k) is End,
    ensures
        k == events.len(),
{
    if k < events.len() {
        assert(phase_after(events, k).takes(events[k]));
    }
}

/// A run starts its agent first and once. If that fails, the run ends with the
/// error and does nothing else. Else it does duty cycles until one fails or the
/// flag is read as false, closes the agent last and once, and ends with the error
/// of the failed cycle or, without one, with what closing came to.
pub proof fn law_run_order(events: Seq<RunEvent>)
    requires
        is_run(events),
        phase_after(events, events.len() as int) is End,
    ensures
        ({
            let n = events.len() as int;
            &&& 1 <= n
            &&& events[0] is Started
            &&& match events[0]->Started_0 {
                Err(e) => n == 1 && phase_after(events, n) == RunPhase::End(Err(e)),
                Ok(_) => {
                    &&& 3 <= n
                    &&& forall|i: int|
                        0 < i < n - 2 ==> #[trigger] events[i] is Worked && events[i]->Worked_0 is Ok
                    &&& events[n - 2] is Stopped || (events[n - 2] is Worked && events[n
                        - 2]->Worked_0 is Err)
                    &&& events[n - 1] is Closed
                    &&& phase_after(events, n) == RunPhase::End(
                        run_result(work_result(events[n - 2]), events[n - 1]->Closed_0),
                    )
                },
            }
        }),
{
    let n = events.len() as int;
    if n > 0 {
        assert(phase_after(events, n - 1).takes(events[n - 1]));
        if n == 1 {
            assert(phase_after(events, 0) is Start);
        } else {
            if phase_after(events, n - 1) is End {
                lemma_ended_run_is_over(events, n - 1);
            }
            lemma_run_so_far(events, n - 1);
        }
    }
}

/// No duty cycle is done once a run's flag is read as false for good.
pub proof fn law_no_work_once_stopped(
    events: Seq<RunEvent>,
    flag: spec_fn(int) -> bool,
    n: int,
)
    requires
        is_run(events),
        heeds(events, flag),
        forall|i: int| n <= i ==> !#[trigger] flag(i),
    ensures
        forall|i: int| 0 <= i < events.len() && n <= i ==> !(#[trigger] events[i] is Worked),
{
    assert forall|i: int| 0 <= i < events.len() && n <= i implies !(#[trigger] events[i]
        is Worked) by {
        assert(phase_after(events, i).takes(events[i]));
        assert(!flag(i));
    }
}

/// A run that was told to stop before it began, and whose agent starts, starts it
/// once, does no duty cycle, closes it once, and ends with what closing came to.
pub proof fn law_stopped_run_does_no_work(events: Seq<RunEvent>, flag: spec_fn(int) -> bool)
    requires
        is_run(events),
        phase_after(events, events.len() as int) is End,
        heeds(events, flag),
        forall|i: int| !#[trigger] flag(i),
        events[0] is Started ==> events[0]->Started_0 is Ok,
    ensures
        events.len() == 3,
        events[0] is Started,
        events[1] is Stopped,
        events[2] is Closed,
        phase_after(events, 3) == RunPhase::End(events[2]->Closed_0),
{
    law_run_order(events);
    law_no_work_once_stopped(events, flag, 0);
    let n = events.len() as int;
    if n > 3 {
        assert(!(events[1] is Worked));
    }
}

/// Stops a runner, from any thread.
#[derive(Debug, Clone)]
pub struct StopHandle {
    pub running: Arc<AtomicBool>,
}

impl StopHandle {
    /// A store of false into the runner's flag can have been made.
    pub open spec fn can_store_stop(self) -> bool {
        call_ensures(AtomicBool::store, (&*self.running, false, Ordering::Release), ())
    }

    /// Tells the runner to stop: stores false into its flag.
    pub fn stop(&self)
        ensures
            self.can_store_stop(),
    {
        self.running.store(false, Ordering::Release);
    }
}

/// What each event makes of each phase. A run that started goes to work, one that
/// did not has ended with the error. A failed cycle and a stop go to closing, and
/// closing ends the run with the error of its work or else with its own. Every
/// other event leaves the phase alone.
pub proof fn law_events_move_the_run_on(phase: RunPhase, event: RunEvent, r: RunPhase)
    requires
        call_ensures(RunPhase::on_event, (phase, event), r),
    ensures
        phase is Start && event is Started && event->Started_0 is Ok ==> r is Work,
        phase is Start ==> (event matches RunEvent::Started(Err(e)) ==> r == RunPhase::End(Err(e))),
        phase is Start && !(event is Started) ==> r is Start,
        phase is Work && event is Stopped ==> r == RunPhase::Close(Ok(())),
        phase is Work ==> (event matches RunEvent::Worked(Err(e)) ==> r == RunPhase::Close(
            Err(e),
        )),
        phase is Work && event is Worked && event->Worked_0 is Ok ==> r is Work,
        phase is Work && (event is Started || event is Closed) ==> r is Work,
        phase matches RunPhase::Close(Err(e)) ==> (event is Closed ==> r == RunPhase::End(Err(e))),
        phase matches RunPhase::Close(Ok(_)) ==> (event matches RunEvent::Closed(close) ==> r
            == RunPhase::End(close)),
        phase is Close && !(event is Closed) ==> r == phase,
        phase is End ==> r == phase,
{
}

/// The error of the work hides that of the closing.
pub proof fn law_first_error_counts(
    work: Result<(), AgentError>,
    close: Result<(), AgentError>,
    r: Result<(), AgentError>,
)
    requires
        call_ensures(first_error, (work, close), r),
    ensures
        work is Err ==> r == work,
        work is Ok ==> r == close,
{
}

/// A cycle that worked idles as the strategy says of its work count, and one that
/// failed hands its error on and does not idle.
pub proof fn law_worked_cycle_idles<A: Agent>(
    before: AgentRunner<A>,
    after: AgentRunner<A>,
    work: Result<i32, AgentError>,
    idled: IdleStrategyState,
    action: IdleAction,
    r: Result<Cycle, AgentError>,
)
    requires
        exists|runner: &mut AgentRunner<A>|
            *runner == before && *final(runner) == after && #[trigger] call_ensures(
                AgentRunner::<A>::on_work,
                (runner, work),
                r,
            ),
        work is Ok ==> exists|state: &mut IdleStrategyState|
            *state == before.idle_state && *final(state) == idled && #[trigger] call_ensures(
                idle,
                (&before.idle_strategy, state, work->Ok_0),
                action,
            ),
    ensures
        work is Ok ==> r == Ok::<Cycle, AgentError>(Cycle::Continue(action)) && after.idle_state
            == idled,
        work matches Err(e) ==> r == Err::<Cycle, AgentError>(e) && after.idle_state
            == before.idle_state,
        after.agent == before.agent,
        after.idle_strategy == before.idle_strategy,
        after.running == before.running,
{
}

/// A runner starts with its flag up and its strategy at its start, and its handle
/// shares the flag.
pub proof fn law_runner_starts_running<A: Agent>(
    agent: A,
    idle_strategy: IdleStrategy,
    runner: AgentRunner<A>,
    state: IdleStrategyState,
    handle: StopHandle,
)
    requires
        call_ensures(AgentRunner::<A>::new, (agent, idle_strategy), runner),
        call_ensures(IdleStrategy::new_state, (&idle_strategy,), state),
        call_ensures(AgentRunner::<A>::stop_handle, (&runner,), handle),
    ensures
        runner.agent == agent,
        runner.idle_strategy == idle_strategy,
        runner.idle_state == state,
        handle.running == runner.running,
        call_ensures(AtomicBool::new, (true,), *runner.running),
{
}

/// Stopping takes the flag down.
pub proof fn law_stop_takes_the_flag_down(handle: &StopHandle)
    requires
        call_ensures(StopHandle::stop, (handle,), ()),
    ensures
        call_ensures(AtomicBool::store, (&*handle.running, false, Ordering::Release), ()),
{
}

/// A cycle works exactly where it found the flag up. Where it found it down, it
/// says so and leaves everything alone.
pub proof fn law_cycle_heeds_the_flag<A: Agent>(
    before: AgentRunner<A>,
    after: AgentRunner<A>,
    r: Result<Cycle, AgentError>,
)
    requires
        exists|runner: &mut AgentRunner<A>|
            *runner == before && *final(runner) == after && #[trigger] call_ensures(
                AgentRunner::<A>::cycle,
                (runner,),
                r,
            ),
    ensures
        r == Ok::<Cycle, AgentError>(Cycle::Stopped) ==> {
            &&& after == before
            &&& call_ensures(AtomicBool::load, (&*before.running, Ordering::Acquire), false)
        },
        r != Ok::<Cycle, AgentError>(Cycle::Stopped) ==> call_ensures(
            AtomicBool::load,
            (&*before.running, Ordering::Acquire),
            true,
        ),
{
}

/// A cycle is stopped exactly where the flag that it was given is down.
pub proof fn law_cycle_is_stopped_by_its_flag<A: Agent>(
    before: AgentRunner<A>,
    after: AgentRunner<A>,
    running: bool,
    r: Result<Cycle, AgentError>,
)
    requires
        exists|runner: &mut AgentRunner<A>|
            *runner == before && *final(runner) == after && #[trigger] call_ensures(
                AgentRunner::<A>::cycle_if,
                (runner, running),
                r,
            ),
    ensures
        r == Ok::<Cycle, AgentError>(Cycle::Stopped) <==> !running,
        !running ==> after == before,
        running ==> exists|agent: &mut A, work: Result<i32, AgentError>|
            *agent == before.agent && *final(agent) == after.agent && #[trigger] call_ensures(
                A::do_work,
                (agent,),
                work,
            ) && (work is Ok <==> r is Ok) && (work matches Err(e) ==> r == Err::<
                Cycle,
                AgentError,
            >(e)),
{
}

/// Starting calls the agent's start once and hands its answer on.
pub proof fn law_open_starts_the_agent<A: Agent>(
    before: AgentRunner<A>,
    after: AgentRunner<A>,
    r: Result<(), AgentError>,
)
    requires
        exists|runner: &mut AgentRunner<A>|
            *runner == before && *final(runner) == after && #[trigger] call_ensures(
                AgentRunner::<A>::open,
                (runner,),
                r,
            ),
    ensures
        exists|agent: &mut A|
            *agent == before.agent && *final(agent) == after.agent && #[trigger] call_ensures(
                A::on_start,
                (agent,),
                r,
            ),
        after.idle_state == before.idle_state,
        after.idle_strategy == before.idle_strategy,
        after.running == before.running,
{
}

/// Closing calls the agent's close once, and answers with the error of the work or
/// else with the answer of the close.
pub proof fn law_close_closes_the_agent<A: Agent>(
    before: AgentRunner<A>,
    after: AgentRunner<A>,
    work: Result<(), AgentError>,
    r: Result<(), AgentError>,
)
    requires
        exists|runner: &mut AgentRunner<A>|
            *runner == before && *final(runner) == after && #[trigger] call_ensures(
                AgentRunner::<A>::close,
                (runner, work),
                r,
            ),
    ensures
        exists|agent: &mut A, closed: Result<(), AgentError>|
            *agent == before.agent && *final(agent) == after.agent && #[trigger] call_ensures(
                A::on_close,
                (agent,),
                closed,
            ) && (work is Ok ==> r == closed),
        work is Err ==> r == work,
        after.idle_state == before.idle_state,
        after.idle_strategy == before.idle_strategy,
        after.running == before.running,
{
}

/// The first step of a run starts the agent: where it started the run goes to work,
/// where not the run has ended with its error.
pub proof fn law_first_step_starts_the_agent<A: Agent>(
    before: AgentRunner<A>,
    after: AgentRunner<A>,
    r: (RunPhase, IdleAction),
)
    requires
        exists|runner: &mut AgentRunner<A>|
            *runner == before && *final(runner) == after && #[trigger] call_ensures(
                AgentRunner::<A>::step,
                (runner, RunPhase::Start),
                r,
            ),
    ensures
        exists|agent: &mut A, started: Result<(), AgentError>|
            *agent == before.agent && *final(agent) == after.agent && #[trigger] call_ensures(
                A::on_start,
                (agent,),
                started,
            ) && (started is Ok ==> r.0 is Work) && (started is Err ==> r.0 == RunPhase::End(
                started,
            )),
        r.1 == IdleAction::Nothing,
        after.idle_state == before.idle_state,
{
}

/// A step of work goes to closing without work where the flag is down. Where it is
/// up the agent works: a run whose agent failed goes to closing with the error, and
/// another goes on and idles as its strategy says.
pub proof fn law_working_step<A: Agent>(
    before: AgentRunner<A>,
    after: AgentRunner<A>,
    r: (RunPhase, IdleAction),
)
    requires
        exists|runner: &mut AgentRunner<A>|
            *runner == before && *final(runner) == after && #[trigger] call_ensures(
                AgentRunner::<A>::step,
                (runner, RunPhase::Work),
                r,
            ),
    ensures
        ({
            ||| {
                &&& call_ensures(AtomicBool::load, (&*before.running, Ordering::Acquire), false)
                &&& r.0 == RunPhase::Close(Ok(()))
                &&& r.1 == IdleAction::Nothing
                &&& after == before
            }
            ||| {
                &&& call_ensures(AtomicBool::load, (&*before.running, Ordering::Acquire), true)
                &&& exists|agent: &mut A, work: Result<i32, AgentError>|
                    *agent == before.agent && *final(agent) == after.agent
                        && #[trigger] call_ensures(A::do_work, (agent,), work) && works_out(
                        before,
                        after,
                        work,
                        r,
                    )
            }
        }),
{
}

/// What a step of work comes to where the agent worked: its error and no idling, or
/// the idling that its strategy wants of its work count.
pub open spec fn works_out<A: Agent>(
    before: AgentRunner<A>,
    after: AgentRunner<A>,
    work: Result<i32, AgentError>,
    r: (RunPhase, IdleAction),
) -> bool {
    match work {
        Err(e) => {
            &&& r.0 == RunPhase::Close(Err(e))
            &&& r.1 == IdleAction::Nothing
            &&& after.idle_state == before.idle_state
        },
        Ok(work_count) => {
            &&& r.0 is Work
            &&& work_count > 0 ==> r.1 == IdleAction::Nothing
            &&& r.1 == before.idle_strategy.action(before.idle_state, work_count)
            &&& after.idle_state == before.idle_strategy.next_state(before.idle_state, work_count)
        },
    }
}

/// A closing step closes the agent and ends the run with the error of its work or
/// else with the answer of the close. A run that has ended stays as it is.
pub proof fn law_closing_step<A: Agent>(
    before: AgentRunner<A>,
    after: AgentRunner<A>,
    phase: RunPhase,
    r: (RunPhase, IdleAction),
)
    requires
        exists|runner: &mut AgentRunner<A>|
            *runner == before && *final(runner) == after && #[trigger] call_ensures(
                AgentRunner::<A>::step,
                (runner, phase),
                r,
            ),
    ensures
        phase matches RunPhase::Close(work) ==> {
            &&& r.1 == IdleAction::Nothing
            &&& r.0 is End
            &&& work is Err ==> r.0 == RunPhase::End(work)
            &&& exists|agent: &mut A, closed: Result<(), AgentError>|
                *agent == before.agent && *final(agent) == after.agent
                    && #[trigger] call_ensures(A::on_close, (agent,), closed) && (work is Ok
                    ==> r.0 == RunPhase::End(closed))
        },
        phase is End ==> r == (phase, IdleAction::Nothing) && after == before,
{
}

} // verus!
