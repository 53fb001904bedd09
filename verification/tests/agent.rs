use aeron_rs::agent::{Agent, AgentError};

struct StubAgent {
    work_count: i32,
}

impl Agent for StubAgent {
    fn name(&self) -> &str {
        "stub-agent"
    }

    fn do_work(&mut self) -> Result<i32, AgentError> {
        self.work_count += 1;
        Ok(self.work_count)
    }
}

#[test]
fn default_on_start_returns_ok() {
    let mut agent = StubAgent { work_count: 0 };
    assert!(agent.on_start().is_ok());
}

#[test]
fn default_on_close_returns_ok() {
    let mut agent = StubAgent { work_count: 0 };
    assert!(agent.on_close().is_ok());
}

#[test]
fn do_work_increments() {
    let mut agent = StubAgent { work_count: 0 };
    assert_eq!(agent.do_work().unwrap(), 1);
    assert_eq!(agent.do_work().unwrap(), 2);
}

#[test]
fn agent_name() {
    let agent = StubAgent { work_count: 0 };
    assert_eq!(agent.name(), "stub-agent");
}
