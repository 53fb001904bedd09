//! Core of an Aeron-style media driver.
//!
//! A driver has three agents. The conductor takes commands from clients out of a
//! shared region of memory and answers them, the sender moves publications onto
//! the network, and the receiver takes frames in and sends feedback. Sockets, term
//! buffers, threads and clocks stand outside: the agents decide, and their callers
//! act and report back.

pub mod agent;
pub mod client;
pub mod clock;
pub mod cnc;
pub mod context;
pub mod frame;
pub mod math;
pub mod term;
pub mod text;
pub mod wire;
