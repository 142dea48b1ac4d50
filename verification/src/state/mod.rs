//! Per-state execution structures of the Lua virtual machine: the value
//! stack, the call frames over it, and the open upvalues that alias its
//! slots.

pub mod stack;
pub mod frames;
pub mod upvalues;
