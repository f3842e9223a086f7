//! A small process-level debugger: breakpoint patching, wait-status
//! translation, frame-pointer stack walking and the session state machine
//! that ties them together, plus a few standalone utilities.

pub mod memory;
pub mod command;
pub mod symbols;
pub mod breakpoint;
pub mod trace;
pub mod backtrace;
pub mod status;
pub mod inferior;
pub mod debugger;
pub mod linked_list;
pub mod process;
pub mod text;
pub mod primes;
