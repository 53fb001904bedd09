//! Command and control: the shared-memory channels between the driver and its
//! clients.

pub mod broadcast;
pub mod cnc_file;
pub mod command;
pub mod position;
pub mod ring_buffer;
