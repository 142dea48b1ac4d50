# lua_rust

Verified logic of the state, stack and runtime bookkeeping of a Lua 5.1
virtual machine, and of its process-level differential fixture runner,
written in Verus.

What is here is the part of the runtime that works on plain values: the
state arena, stacks, frames and open upvalues, the lifecycle and close of a
runtime, the coroutine and native-call scheduling decisions, and the
bookkeeping of mark-only root tracing. The bytecode interpreter, table
operations, metamethods and the garbage collector are not in this crate:
they work on the Lua core's value, prototype and collector types, which
this crate does not contain.

## Layout

- `src/lua_string.rs` — ordering of Lua byte strings with embedded NULs, and
  its laws (equality, antisymmetry, transitivity, plain lexicographic order
  without NULs).
- `src/state_arena.rs` — the generational arena of Lua states: handles,
  validation, borrows, removal, draining, and the internal-invariant check.
- `src/state/` — the value stack, call frames and open upvalues of a state: API index
  arithmetic, frame entry and exit, argument placement for coroutine resumes.
- `src/runtime/` — runtime lifecycle, admission and close decisions, the
  driver's checks on resumed targets and upvalue responses, the
  checks and arena work of a close with its report, the native request mailbox, the coroutine resume protocol and
  the trampoline's activation stack, sessions driven as non-overlapping
  state turns, root kinds with their edge counts, the
  stack-window scan and the state-handle worklist of mark-only tracing, and
  its sorted report.
- `src/fixture/` — the fixture runner's decisions: command line, manifest
  validation, output normalization, comparison of executions, case
  classification and the run artifact.
- `app/` — the runner program: argument and environment handling, file system
  probes, process spawning, JSON reading and writing.
- `tests/` — tests of the library on concrete values.

Everything in `src/` carries its contract and is proved, except the small
trusted wrappers around outside functions (`regex`, and a few `std` string
and character functions in `src/text.rs`, `src/fixture/normalize.rs`,
`src/fixture/compare.rs`, `src/fixture/regex_support.rs` and
`src/state/stack.rs`), whose contracts are believed as written. `app/` is
ordinary Rust around the library.
