//! Decoding of kernel socket tables and resolution of sockets to processes.
use vstd::prelude::*;

pub mod address;
pub mod digits;
pub mod monitor;
pub mod process;
pub mod state;
mod text;

pub use monitor::{Connection, ConnectionTables, NetworkMonitor};
pub use process::ProcessEntry;

verus! {

} // verus!
