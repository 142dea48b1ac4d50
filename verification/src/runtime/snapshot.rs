//! The stack-window part of a state snapshot taken by mark-only root
//! tracing: which stack slots and frames are scanned, and which unsafe gaps
//! are reported instead of being dereferenced.

use vstd::prelude::*;
use crate::state::frames::{CallInfo, Frames};
use super::roots::{RuntimeRootKind, UnsafeTraceGapKind};

verus! {

/// Per-kind edge counts of the stack window of one state.
#[derive(Clone, Copy, Debug, PartialEq, Eq, Structural)]
pub struct WindowEdges {
    /// Root kind of the stack slots: the main stack or a coroutine stack.
    pub stack_kind: RuntimeRootKind,
    /// Live stack slots scanned.
    pub stack_values: usize,
    /// Active frames whose function slot was scanned.
    pub call_functions: usize,
    /// Variable arguments held by active frames.
    pub call_varargs: usize,
    /// Active frames that hold a prototype.
    pub active_protos: usize,
    /// Open upvalues of the state.
    pub open_upvalues: usize,
}

/// Number of initialized-and-live stack slots of the value stack.
pub open spec fn stack_size<V: Copy, P>(f: Frames<V, P>) -> nat {
    f.value_stack().top_index()
}

/// Number of frames scanned: the active ones, or every frame when the
/// current index lies beyond them.
pub open spec fn active_count<V: Copy, P>(f: Frames<V, P>) -> nat {
    if f.current() + 1 <= f.frames().len() {
        f.current() + 1
    } else {
        f.frames().len()
    }
}

/// Whether a frame is the empty sentinel of an idle state.
pub open spec fn placeholder_frame<V, P>(ci: CallInfo<V, P>) -> bool {
    ci.func == 0 && ci.base == 0 && ci.top == 0 && ci.savedpc is None && ci.proto is None
        && ci.varargs@.len() == 0
}

/// Whether frame `k` is the sentinel frame of a freshly created or fully
/// unwound state, which owns no function slot.
pub open spec fn idle_frame<V: Copy, P>(f: Frames<V, P>, k: int) -> bool {
    k == 0 && active_count(f) == 1 && f.top_index() == 0 && stack_size(f) == 0
        && placeholder_frame(f.frames()[0])
}

/// Whether frame `k`'s function slot lies within the value stack.
pub open spec fn function_in_window<V: Copy, P>(f: Frames<V, P>, k: int) -> bool {
    f.frames()[k].func < stack_size(f)
}

/// Gaps of the first `n` scanned frames, in frame order.
pub open spec fn frame_gaps<V: Copy, P>(f: Frames<V, P>, n: nat) -> Seq<UnsafeTraceGapKind>
    decreases n,
{
    if n == 0 {
        Seq::empty()
    } else {
        let k = n - 1;
        let rest = frame_gaps(f, (n - 1) as nat);
        if !idle_frame(f, k) && !function_in_window(f, k) {
            rest.push(
                UnsafeTraceGapKind::CallFunctionOutOfBounds {
                    frame: k as usize,
                    function_index: f.frames()[k].func,
                },
            )
        } else {
            rest
        }
    }
}

/// Number of the first `n` scanned frames whose function slot is scanned.
pub open spec fn scanned_functions<V: Copy, P>(f: Frames<V, P>, n: nat) -> nat
    decreases n,
{
    if n == 0 {
        0
    } else {
        scanned_functions(f, (n - 1) as nat) + if !idle_frame(f, n - 1) && function_in_window(
            f,
            n - 1,
        ) {
            1nat
        } else {
            0nat
        }
    }
}

/// Variable arguments held by the first `n` scanned frames.
pub open spec fn held_varargs<V: Copy, P>(f: Frames<V, P>, n: nat) -> nat
    decreases n,
{
    if n == 0 {
        0
    } else {
        held_varargs(f, (n - 1) as nat) + f.frames()[n - 1].varargs@.len()
    }
}

/// Number of the first `n` scanned frames that hold a prototype.
pub open spec fn held_protos<V: Copy, P>(f: Frames<V, P>, n: nat) -> nat
    decreases n,
{
    if n == 0 {
        0
    } else {
        held_protos(f, (n - 1) as nat) + if f.frames()[n - 1].proto is Some {
            1nat
        } else {
            0nat
        }
    }
}

/// The unsafe gaps of a state's stack window, in the order they are found:
/// a top beyond the value stack, a current frame beyond the frames, and each
/// scanned frame whose function slot lies beyond the value stack (the idle
/// sentinel excepted).
pub open spec fn window_gaps<V: Copy, P>(f: Frames<V, P>) -> Seq<UnsafeTraceGapKind> {
    let stack_gap = if f.top_index() > stack_size(f) {
        seq![
            UnsafeTraceGapKind::StackWindowOutOfBounds {
                top: f.top_index() as usize,
                available: stack_size(f) as usize,
            },
        ]
    } else {
        Seq::empty()
    };
    let frame_gap = if f.current() + 1 > f.frames().len() {
        seq![
            UnsafeTraceGapKind::ActiveCallStackOutOfBounds {
                current_ci: f.current() as usize,
                available: f.frames().len() as usize,
            },
        ]
    } else {
        Seq::empty()
    };
    stack_gap + frame_gap + frame_gaps(f, active_count(f))
}

/// Scan the stack window of a state: report its unsafe gaps, and count the
/// edges of each kind that the scan takes (the live stack slots below both
/// tops, the function slot of each scanned frame, the variable arguments and
/// prototypes those frames hold, and the open upvalues).
pub fn scan_window<V: Copy, P>(f: &Frames<V, P>, is_main: bool) -> (r: (
    Vec<UnsafeTraceGapKind>,
    WindowEdges,
))
    requires
        f.frames().len() <= usize::MAX,
        held_varargs(*f, active_count(*f)) <= usize::MAX,
    ensures
        r.0@ == window_gaps(*f),
        r.1.stack_kind == if is_main {
            RuntimeRootKind::MainStack
        } else {
            RuntimeRootKind::CoroutineStack
        },
        r.1.stack_values == if f.top_index() < stack_size(*f) {
            f.top_index()
        } else {
            stack_size(*f)
        },
        r.1.call_functions == scanned_functions(*f, active_count(*f)),
        r.1.call_varargs == held_varargs(*f, active_count(*f)),
        r.1.active_protos == held_protos(*f, active_count(*f)),
        r.1.open_upvalues == f.upvalues().len(),
{
    let stack = f.stack();
    let size = stack.size();
    let top = f.top();
    let frames = f.frame_slice();
    let current = f.current_index();
    let mut gaps: Vec<UnsafeTraceGapKind> = Vec::new();
    if top > size {
        gaps.push(UnsafeTraceGapKind::StackWindowOutOfBounds { top, available: size });
    }
    let stack_values = if top < size {
        top
    } else {
        size
    };
    let active: usize = if current < frames.len() {
        current + 1
    } else {
        gaps.push(
            UnsafeTraceGapKind::ActiveCallStackOutOfBounds {
                current_ci: current,
                available: frames.len(),
            },
        );
        frames.len()
    };
    let ghost prefix = gaps@;
    proof {
        assert(prefix =~= window_gaps(*f).take(prefix.len() as int)) by {
            assert(window_gaps(*f) =~= prefix + frame_gaps(*f, active_count(*f)));
        }
    }
    let mut call_functions: usize = 0;
    let mut call_varargs: usize = 0;
    let mut active_protos: usize = 0;
    let mut k: usize = 0;
    while k < active
        invariant
            active == active_count(*f),
            active <= frames@.len(),
            frames@ == f.frames(),
            size == stack_size(*f),
            top == f.top_index(),
            k <= active,
            gaps@ == prefix + frame_gaps(*f, k as nat),
            call_functions == scanned_functions(*f, k as nat),
            call_varargs == held_varargs(*f, k as nat),
            active_protos == held_protos(*f, k as nat),
            call_functions <= k,
            active_protos <= k,
            held_varargs(*f, active as nat) <= usize::MAX,
        decreases active - k,
    {
        let ci = &frames[k];
        let idle = k == 0 && active == 1 && top == 0 && size == 0 && ci.func == 0 && ci.base == 0
            && ci.top == 0 && ci.savedpc.is_none() && ci.proto.is_none() && ci.varargs.len() == 0;
        if !idle {
            if ci.func < size {
                call_functions = call_functions + 1;
            } else {
                gaps.push(
                    UnsafeTraceGapKind::CallFunctionOutOfBounds { frame: k, function_index: ci.func },
                );
            }
        }
        proof {
            lemma_varargs_monotone(*f, (k + 1) as nat, active as nat);
        }
        call_varargs = call_varargs + ci.varargs.len();
        if ci.proto.is_some() {
            active_protos = active_protos + 1;
        }
        k += 1;
    }
    let kind = if is_main {
        RuntimeRootKind::MainStack
    } else {
        RuntimeRootKind::CoroutineStack
    };
    (
        gaps,
        WindowEdges {
            stack_kind: kind,
            stack_values,
            call_functions,
            call_varargs,
            active_protos,
            open_upvalues: f.open_upvalues().len(),
        },
    )
}

/// Held variable arguments only grow with the number of frames counted.
proof fn lemma_varargs_monotone<V: Copy, P>(f: Frames<V, P>, i: nat, j: nat)
    requires
        i <= j,
    ensures
        held_varargs(f, i) <= held_varargs(f, j),
    decreases j - i,
{
    if i < j {
        lemma_varargs_monotone(f, i, (j - 1) as nat);
    }
}

} // verus!
