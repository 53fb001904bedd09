//! The agents of the driver.
//!
//! An agent does its work in small pieces, one duty cycle after the other, on a
//! thread of its own.

pub mod conductor;
pub mod idle_strategy;
pub mod image_index;
pub mod receiver;
pub mod runner;
pub mod sender;

use vstd::prelude::*;

verus! {

/// `std::io::Error`, carried through as it is.
#[verifier::external_type_specification]
#[verifier::external_body]
pub struct ExIoError(std::io::Error);

/// Why a duty cycle failed.
#[derive(Debug)]
pub enum AgentError {
    Io(std::io::Error),
}

impl From<std::io::Error> for AgentError {
    fn from(e: std::io::Error) -> (r: Self) {
        AgentError::Io(e)
    }
}

impl vstd::std_specs::convert::FromSpecImpl<std::io::Error> for AgentError {
    open spec fn obeys_from_spec() -> bool {
        true
    }

    open spec fn from_spec(e: std::io::Error) -> Self {
        AgentError::Io(e)
    }
}

/// Something that works in duty cycles.
pub trait Agent: Sized {
    /// Name for diagnostics.
    fn name(&self) -> &str;

    /// Does one piece of work. Returns how much was done, zero when idle.
    fn do_work(&mut self) -> Result<i32, AgentError>;

    /// Called once before the first duty cycle.
    fn on_start(&mut self) -> (r: Result<(), AgentError>)
        default_ensures
            r is Ok,
            *final(self) == *old(self),
    {
        Ok(())
    }

    /// Called once after the last duty cycle.
    fn on_close(&mut self) -> (r: Result<(), AgentError>)
        default_ensures
            r is Ok,
            *final(self) == *old(self),
    {
        Ok(())
    }
}

} // verus!
