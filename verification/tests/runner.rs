use aeron_rs::agent::idle_strategy::{IdleAction, IdleStrategy};
use aeron_rs::agent::runner::{
    first_error, AgentRunner, Cycle, RunEvent, RunPhase, StopHandle,
};
use aeron_rs::agent::{Agent, AgentError};

// Stub agent for testing

struct CountingAgent {
    started: bool,
    closed: bool,
    iterations: i32,
    max_iterations: i32,
}

impl CountingAgent {
    fn new(max_iterations: i32) -> Self {
        Self {
            started: false,
            closed: false,
            iterations: 0,
            max_iterations,
        }
    }
}

impl Agent for CountingAgent {
    fn name(&self) -> &str {
        "counting-agent"
    }

    fn do_work(&mut self) -> Result<i32, AgentError> {
        self.iterations += 1;
        if self.iterations >= self.max_iterations {
            // Return 0 work to allow idle strategy to park.
            Ok(0)
        } else {
            Ok(1)
        }
    }

    fn on_start(&mut self) -> Result<(), AgentError> {
        self.started = true;
        Ok(())
    }

    fn on_close(&mut self) -> Result<(), AgentError> {
        self.closed = true;
        Ok(())
    }
}

/// Runs an agent to its end, without idling.
fn run<A: Agent>(runner: &mut AgentRunner<A>) -> Result<(), AgentError> {
    let mut phase = RunPhase::Start;
    loop {
        phase = runner.step(phase).0;
        if let RunPhase::End(result) = phase {
            return result;
        }
    }
}

// run() tests

#[test]
fn run_calls_on_start_and_on_close() {
    let agent = CountingAgent::new(5);
    let mut runner = AgentRunner::new(agent, IdleStrategy::Noop);
    let stop = runner.stop_handle();

    // Stop after a few iterations via a separate mechanism.
    // We set running to false before run() so it exits after one check.
    stop.stop();

    let result = run(&mut runner);
    assert!(result.is_ok());
    assert!(runner.agent.started, "on_start should have been called");
    assert!(runner.agent.closed, "on_close should have been called");
}

#[test]
fn run_exits_when_running_set_to_false() {
    let agent = CountingAgent::new(i32::MAX); // never finishes on its own
    let mut runner = AgentRunner::new(agent, IdleStrategy::Noop);

    // Pre-set running to false so the loop exits immediately.
    runner.running.store(false, std::sync::atomic::Ordering::Release);

    let result = run(&mut runner);
    assert!(result.is_ok());
    // May have done 0 or 1 iterations depending on check order.
    assert!(runner.agent.iterations <= 1);
}

#[test]
fn run_propagates_do_work_error() {
    struct FailingAgent;

    impl Agent for FailingAgent {
        fn name(&self) -> &str {
            "failing-agent"
        }
        fn do_work(&mut self) -> Result<i32, AgentError> {
            Err(AgentError::Io(std::io::Error::other("test error")))
        }
    }

    let mut runner = AgentRunner::new(FailingAgent, IdleStrategy::Noop);
    let result = run(&mut runner);
    assert!(result.is_err());
}

// stopping

/// Counts to a limit, then stops its own runner.
struct StoppingAgent {
    iterations: i32,
    limit: i32,
    stop: Option<StopHandle>,
}

impl Agent for StoppingAgent {
    fn name(&self) -> &str {
        "stopping-agent"
    }

    fn do_work(&mut self) -> Result<i32, AgentError> {
        self.iterations += 1;
        if self.iterations == self.limit {
            if let Some(stop) = &self.stop {
                stop.stop();
            }
        }
        Ok(0)
    }
}

#[test]
fn stop_handle_stops_runner() {
    let agent = StoppingAgent { iterations: 0, limit: 20, stop: None };
    let mut runner = AgentRunner::new(agent, IdleStrategy::Noop);
    runner.agent.stop = Some(runner.stop_handle());

    let result = run(&mut runner);
    assert!(result.is_ok());
    assert_eq!(runner.agent.iterations, 20);
}

#[test]
fn stopping_twice_is_harmless() {
    let agent = CountingAgent::new(i32::MAX);
    let mut runner = AgentRunner::new(agent, IdleStrategy::Noop);
    let handle = runner.stop_handle();

    handle.stop();
    handle.stop(); // second call should not panic

    let result = run(&mut runner);
    assert!(result.is_ok());
}

#[test]
fn backoff_strategy_runs_to_the_end() {
    let agent = StoppingAgent { iterations: 0, limit: 100, stop: None };
    let mut runner = AgentRunner::new(agent, IdleStrategy::default_backoff());
    runner.agent.stop = Some(runner.stop_handle());

    let result = run(&mut runner);
    assert!(result.is_ok());
}

#[test]
fn cycles_idle_as_the_strategy_says() {
    let mut runner = AgentRunner::new(CountingAgent::new(2), IdleStrategy::default_backoff());
    runner.open().expect("open");
    assert!(matches!(runner.cycle(), Ok(Cycle::Continue(IdleAction::Nothing))));
    assert!(matches!(runner.cycle(), Ok(Cycle::Continue(IdleAction::Spin))));
    runner.stop_handle().stop();
    assert!(matches!(runner.cycle(), Ok(Cycle::Stopped)));
}

#[test]
fn error_of_the_work_comes_before_that_of_closing() {
    let work = Err(AgentError::from(std::io::Error::other("work")));
    let close = Err(AgentError::from(std::io::Error::other("close")));
    match first_error(work, close) {
        Err(AgentError::Io(e)) => assert_eq!(e.to_string(), "work"),
        Ok(()) => panic!("expected an error"),
    }
    let close = Err(AgentError::from(std::io::Error::other("close")));
    match first_error(Ok(()), close) {
        Err(AgentError::Io(e)) => assert_eq!(e.to_string(), "close"),
        Ok(()) => panic!("expected an error"),
    }
}

/// Notes the calls it gets. Closing it fails.
struct NotingAgent {
    calls: Vec<&'static str>,
    work_fails: bool,
    stop: Option<StopHandle>,
}

impl Agent for NotingAgent {
    fn name(&self) -> &str {
        "noting-agent"
    }

    fn on_start(&mut self) -> Result<(), AgentError> {
        self.calls.push("start");
        Ok(())
    }

    fn do_work(&mut self) -> Result<i32, AgentError> {
        self.calls.push("work");
        if self.work_fails {
            return Err(AgentError::from(std::io::Error::other("work")));
        }
        if let Some(stop) = &self.stop {
            stop.stop();
        }
        Ok(1)
    }

    fn on_close(&mut self) -> Result<(), AgentError> {
        self.calls.push("close");
        Err(AgentError::from(std::io::Error::other("close")))
    }
}

#[test]
fn agent_is_closed_once_and_its_result_passed_on() {
    for (work_fails, expected) in [(false, "close"), (true, "work")] {
        let agent = NotingAgent { calls: Vec::new(), work_fails, stop: None };
        let mut runner = AgentRunner::new(agent, IdleStrategy::Noop);
        runner.agent.stop = Some(runner.stop_handle());
        match run(&mut runner) {
            Err(AgentError::Io(e)) => assert_eq!(e.to_string(), expected),
            Ok(()) => panic!("expected an error"),
        }
        assert_eq!(runner.agent.calls, vec!["start", "work", "close"]);
    }
}

#[test]
fn stopped_run_starts_does_no_work_and_closes_once() {
    let agent = NotingAgent { calls: Vec::new(), work_fails: true, stop: None };
    let mut runner = AgentRunner::new(agent, IdleStrategy::Noop);
    let handle = runner.stop_handle();
    handle.clone().stop();
    handle.stop();
    match run(&mut runner) {
        Err(AgentError::Io(e)) => assert_eq!(e.to_string(), "close"),
        Ok(()) => panic!("expected the error of closing"),
    }
    assert_eq!(runner.agent.calls, vec!["start", "close"]);
}

#[test]
fn run_whose_start_fails_does_nothing_else() {
    struct Unwilling {
        calls: Vec<&'static str>,
    }

    impl Agent for Unwilling {
        fn name(&self) -> &str {
            "unwilling-agent"
        }

        fn on_start(&mut self) -> Result<(), AgentError> {
            self.calls.push("start");
            Err(AgentError::from(std::io::Error::other("start")))
        }

        fn do_work(&mut self) -> Result<i32, AgentError> {
            self.calls.push("work");
            Ok(0)
        }

        fn on_close(&mut self) -> Result<(), AgentError> {
            self.calls.push("close");
            Ok(())
        }
    }

    let mut runner = AgentRunner::new(Unwilling { calls: Vec::new() }, IdleStrategy::Noop);
    match run(&mut runner) {
        Err(AgentError::Io(e)) => assert_eq!(e.to_string(), "start"),
        Ok(()) => panic!("expected an error"),
    }
    assert_eq!(runner.agent.calls, vec!["start"]);
}

#[test]
fn events_lead_from_phase_to_phase() {
    let failed = || AgentError::from(std::io::Error::other("failed"));
    let start = || RunPhase::Start;
    assert!(matches!(start().on_event(RunEvent::Started(Ok(()))), RunPhase::Work));
    assert!(matches!(
        start().on_event(RunEvent::Started(Err(failed()))),
        RunPhase::End(Err(_))
    ));
    assert!(matches!(RunPhase::Work.on_event(RunEvent::Worked(Ok(3))), RunPhase::Work));
    assert!(matches!(
        RunPhase::Work.on_event(RunEvent::Worked(Err(failed()))),
        RunPhase::Close(Err(_))
    ));
    assert!(matches!(RunPhase::Work.on_event(RunEvent::Stopped), RunPhase::Close(Ok(()))));
    assert!(matches!(
        RunPhase::Close(Ok(())).on_event(RunEvent::Closed(Ok(()))),
        RunPhase::End(Ok(()))
    ));
    assert!(matches!(
        RunPhase::Close(Err(failed())).on_event(RunEvent::Closed(Ok(()))),
        RunPhase::End(Err(_))
    ));
    assert!(matches!(RunPhase::Start.on_event(RunEvent::Stopped), RunPhase::Start));
    let ended = RunPhase::End(Ok(())).on_event(RunEvent::Started(Ok(())));
    assert!(matches!(ended, RunPhase::End(Ok(()))));
}

#[test]
fn steps_say_how_to_idle() {
    let mut runner = AgentRunner::new(CountingAgent::new(2), IdleStrategy::default_backoff());
    let (phase, action) = runner.step(RunPhase::Start);
    assert_eq!(action, IdleAction::Nothing);
    let (phase, action) = runner.step(phase);
    assert_eq!(action, IdleAction::Nothing);
    let (phase, action) = runner.step(phase);
    assert_eq!(action, IdleAction::Spin);
    assert!(matches!(phase, RunPhase::Work));
}
