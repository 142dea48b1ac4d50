//! Verified state and runtime bookkeeping of a Lua 5.1 virtual machine (the
//! interpreter, tables and collector are not part of this crate), and the
//! logic of its process-level fixture runner.
//!
//! - `lua_string`: byte-string ordering that matches the reference interpreter.
//! - `state_arena`: the generational arena that owns coroutine state slots.
//! - `state`: the value stack and the call frames of one Lua state.
//! - `runtime`: lifecycle and close decisions, the native request mailbox, the
//!   coroutine trampoline's activation stack, and mark-only root tracing.
//! - `fixture`: manifest validation, output normalization and comparison logic
//!   of the differential fixture runner.

mod text;
pub mod lua_string;
pub mod state_arena;
pub mod fixture;
pub mod runtime;
pub mod state;
