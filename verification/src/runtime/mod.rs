//! Runtime-level logic of the Lua virtual machine: lifecycle phases, closing
//! and its reports, the native request mailbox, the coroutine protocol and the
//! trampoline's activation stack, and the bookkeeping of mark-only root
//! tracing with its root kinds, edge counts and sorted report.

pub mod roots;
pub mod lifecycle;
pub mod mailbox;
pub mod snapshot;
pub mod coroutine;
pub mod trace;
pub mod scheduler;
pub mod turns;
pub mod shutdown;
pub mod driver;
