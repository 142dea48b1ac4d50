//! The activation stack of the runtime's coroutine trampoline.
//!
//! One execution session runs state turns one after another. After each turn
//! the scheduler is told how the turn ended (a resume request, an access to
//! an open upvalue owned by another state, a coroutine that stopped, or the
//! main state that stopped) and decides which state runs next and what that
//! turn does. Resume requests push an activation frame; a stopped coroutine
//! delivers its result to the caller recorded by the top frame, and the turn
//! that receives the delivery pops that frame.
//!
//! The scheduler works on identities only: state handles, request
//! identifiers, and the keys of thread objects. Request arguments, deferred
//! call metadata and responses travel beside it, pushed and popped in step
//! with the frames. The statuses of thread objects are read by the caller
//! and handed in; the statuses to write back are decided here, as is the
//! classification of how the VM left a turn.

use vstd::prelude::*;
use crate::state_arena::StateHandle;
use super::coroutine::{
    begin_activation, finish_turn, release_yield_permission, restored_caller_status,
    status_after_turn, waiting_caller, ActivationLinks, ActivationRefusal, ActiveStatuses,
    CoroutineStatus, TurnOutcome,
};
use super::lifecycle::{ExecResult, NativeRequestId};
use super::mailbox::{sealed_with, NativeRequestMailbox, PendingRequest};

verus! {

/// One active resume: `caller` asked for the coroutine `thread`, whose state
/// is `target`, to run.
#[derive(Clone, Copy, Debug, PartialEq, Eq, Structural)]
pub struct ActivationFrame {
    /// State that published the request and receives the result.
    pub caller: StateHandle,
    /// Thread object of the caller, when the caller is a coroutine.
    pub caller_thread: Option<u64>,
    /// Statuses before the resume, restored when it ends.
    pub links: ActivationLinks,
    /// The target thread's caller link before the resume.
    pub previous_target_caller: Option<u64>,
    /// The request being served.
    pub request_id: NativeRequestId,
    /// State of the resumed coroutine.
    pub target: StateHandle,
    /// Thread object of the resumed coroutine.
    pub thread: u64,
    /// Whether the caller died while the target ran, so that the delivery
    /// replays the caller's own resume as a failed one.
    pub replay_dead_ancestor: bool,
}

/// One access to an open upvalue whose stack lives in another state.
#[derive(Clone, Copy, Debug, PartialEq, Eq, Structural)]
pub struct UpvalueTransfer {
    pub requester: StateHandle,
    pub owner: StateHandle,
}

/// A delivery that completes when the receiving turn ends.
#[derive(Clone, Copy, Debug, PartialEq, Eq, Structural)]
pub struct Completion {
    /// The request whose frame the delivery pops.
    pub request_id: NativeRequestId,
    /// The caller thread whose resume is replayed as failed, if any.
    pub replay_thread: Option<u64>,
}

/// What the next turn does.
#[derive(Clone, Copy, Debug, PartialEq, Eq, Structural)]
pub enum DriverAction {
    /// Run the session's prototype on the main state.
    StartProto,
    /// Start or continue the coroutine named by the top frame.
    StartTarget,
    /// Hand a stopped coroutine's result to its caller.
    Deliver(Completion),
    /// Hand the result of an upvalue access back to its requester.
    DeliverUpvalue,
}

/// A requesting coroutine: its thread object and its current status.
#[derive(Clone, Copy, Debug, PartialEq, Eq, Structural)]
pub struct CallerThread {
    pub thread: u64,
    pub status: CoroutineStatus,
}

/// How a turn ended, in terms of identities.
#[derive(Clone, Copy, Debug, PartialEq, Eq, Structural)]
pub enum TurnEvent {
    /// The state published a resume request for the coroutine `thread` whose
    /// state is `target`; `caller` is the requesting thread and its status
    /// when the requester is a coroutine.
    Request {
        request_id: NativeRequestId,
        target: StateHandle,
        thread: u64,
        caller: Option<CallerThread>,
        has_deferred_call: bool,
        target_status: CoroutineStatus,
        target_caller: Option<u64>,
    },
    /// The state needs an open upvalue owned by `owner`.
    UpvalueAccess { requester: StateHandle, owner: StateHandle },
    /// The coroutine `thread` yielded, returned or failed; `caller_status` is
    /// the current status of the caller thread recorded by the top frame.
    Coroutine { thread: u64, caller_status: Option<CoroutineStatus> },
    /// The main state's execution finished.
    Main,
}

/// What the driver does next.
#[derive(Clone, Copy, Debug, PartialEq, Eq, Structural)]
pub enum TurnDecision {
    /// Mark the caller thread and the target thread as `active` says, link
    /// the target to the caller, and run the target. A target that was in
    /// the normal status continues with the deferred call of the frame at
    /// `normal_deferred`.
    StartTarget { frame: ActivationFrame, active: ActiveStatuses, normal_deferred: Option<usize> },
    /// Perform the upvalue access on `owner`, then deliver it to the
    /// requester.
    AccessUpvalue { owner: StateHandle },
    /// Restore the target's caller link, set the caller thread to
    /// `restored_caller_status` (running instead when replaying), and deliver
    /// the result to the frame's caller.
    DeliverToCaller {
        frame: ActivationFrame,
        restored_caller_status: Option<CoroutineStatus>,
        replay_dead_ancestor: bool,
    },
    /// The session is over.
    Finished,
}

/// The outcome of one accepted turn.
#[derive(Clone, Copy, Debug, PartialEq, Eq, Structural)]
pub struct TurnReport {
    /// The frame that the turn's delivery completed, popped from the stack.
    pub completed: Option<ActivationFrame>,
    /// Whether the stopped coroutine's result is replaced by a "cannot resume
    /// dead coroutine" error, because its caller died meanwhile.
    pub dead_caller_response: bool,
    pub decision: TurnDecision,
}

/// A violation of the trampoline's protocol; the session must end.
#[derive(Clone, Copy, Debug, PartialEq, Eq, Structural)]
pub enum ProtocolError {
    /// A new session found activations left by an earlier one.
    ActivationsAtEntry,
    /// An upvalue delivery found no transfer frame.
    UpvalueTransferLost,
    /// A delivery found no activation frame.
    DeliveryFrameLost,
    /// A delivery found another request's frame on top.
    DeliveryFrameMismatch,
    /// A resume request carried no deferred call.
    MissingDeferredCall,
    /// A resume request named a running or dead coroutine.
    TargetNotResumable(ActivationRefusal),
    /// A normal coroutine was resumed but no frame was called by it.
    NormalTargetWithoutAncestor,
    /// An upvalue request named a requester other than the current state.
    UpvalueRequesterMismatch,
    /// An upvalue request named the requesting state itself as owner.
    LocalUpvalueEscaped,
    /// A coroutine stopped while no activation was active.
    StoppedWithoutActivation,
    /// The stopped coroutine is not the one the top frame resumed.
    StoppedThreadMismatch,
    /// The main state stopped while activations remain.
    MainStoppedWithActivations,
}

/// The abstract state of the scheduler.
pub struct SchedulerModel {
    pub current: StateHandle,
    pub action: DriverAction,
    pub frames: Seq<ActivationFrame>,
    pub transfers: Seq<UpvalueTransfer>,
    pub pending: Option<Completion>,
}

/// The last frame whose caller is `state`, if any.
pub open spec fn last_called_by(frames: Seq<ActivationFrame>, state: StateHandle) -> Option<nat>
    decreases frames.len(),
{
    if frames.len() == 0 {
        None
    } else if frames.last().caller == state {
        Some((frames.len() - 1) as nat)
    } else {
        last_called_by(frames.drop_last(), state)
    }
}

impl SchedulerModel {
    /// The delivery that the last turn completes, and the completion still
    /// held afterwards: a delivery completes itself; otherwise a completion
    /// held across an upvalue access is taken.
    pub open spec fn completion(self) -> (Option<Completion>, Option<Completion>) {
        match self.action {
            DriverAction::Deliver(c) => (Some(c), self.pending),
            _ => (self.pending, None),
        }
    }

    /// Settle what the last action finished: an upvalue delivery pops its
    /// transfer frame; a completed delivery pops its activation frame (unless
    /// the turn stopped again for an upvalue access, which keeps the
    /// completion for later). Gives the settled state, the popped frame, and
    /// whether the stopped coroutine's result is replaced because the popped
    /// frame replays a dead caller that is that coroutine.
    pub open spec fn settled(self, e: TurnEvent) -> Result<
        (SchedulerModel, Option<ActivationFrame>, bool),
        ProtocolError,
    > {
        let (completed, held) = self.completion();
        if self.action == DriverAction::DeliverUpvalue && self.transfers.len() == 0 {
            Err(ProtocolError::UpvalueTransferLost)
        } else {
            let transfers = if self.action == DriverAction::DeliverUpvalue {
                self.transfers.drop_last()
            } else {
                self.transfers
            };
            if e is UpvalueAccess {
                Ok((SchedulerModel { transfers, pending: completed, ..self }, None, false))
            } else {
                match completed {
                    None => Ok((SchedulerModel { transfers, pending: held, ..self }, None, false)),
                    Some(c) => if self.frames.len() == 0 {
                        Err(ProtocolError::DeliveryFrameLost)
                    } else if self.frames.last().request_id != c.request_id {
                        Err(ProtocolError::DeliveryFrameMismatch)
                    } else {
                        let replaced = match (c.replay_thread, e) {
                            (Some(t), TurnEvent::Coroutine { thread, .. }) => t == thread,
                            _ => false,
                        };
                        Ok((
                            SchedulerModel {
                                transfers,
                                pending: held,
                                frames: self.frames.drop_last(),
                                ..self
                            },
                            Some(self.frames.last()),
                            replaced,
                        ))
                    },
                }
            }
        }
    }

    /// Decide the next turn from a settled state.
    pub open spec fn decided(self, e: TurnEvent) -> Result<(SchedulerModel, TurnDecision), ProtocolError> {
        match e {
            TurnEvent::Request {
                request_id,
                target,
                thread,
                caller,
                has_deferred_call,
                target_status,
                target_caller,
            } => {
                let caller_status = match caller {
                    Some(c) => Some(c.status),
                    None => None,
                };
                let caller_thread = match caller {
                    Some(c) => Some(c.thread),
                    None => None,
                };
                if !has_deferred_call {
                    Err(ProtocolError::MissingDeferredCall)
                } else if target_status == CoroutineStatus::Running {
                    Err(ProtocolError::TargetNotResumable(ActivationRefusal::TargetRunning))
                } else if target_status == CoroutineStatus::Dead {
                    Err(ProtocolError::TargetNotResumable(ActivationRefusal::TargetDead))
                } else {
                    let frame = ActivationFrame {
                        caller: self.current,
                        caller_thread,
                        links: ActivationLinks {
                            previous_caller_status: caller_status,
                            previous_target_status: target_status,
                        },
                        previous_target_caller: target_caller,
                        request_id,
                        target,
                        thread,
                        replay_dead_ancestor: false,
                    };
                    let ancestor = last_called_by(self.frames, target);
                    if target_status == CoroutineStatus::Normal && ancestor is None {
                        Err(ProtocolError::NormalTargetWithoutAncestor)
                    } else {
                        Ok((
                            SchedulerModel {
                                frames: self.frames.push(frame),
                                action: DriverAction::StartTarget,
                                current: target,
                                ..self
                            },
                            TurnDecision::StartTarget {
                                frame,
                                active: ActiveStatuses {
                                    caller: waiting_caller(caller_status),
                                    target: CoroutineStatus::Running,
                                },
                                normal_deferred: match ancestor {
                                    Some(i) => if target_status == CoroutineStatus::Normal {
                                        Some(i as usize)
                                    } else {
                                        None
                                    },
                                    None => None,
                                },
                            },
                        ))
                    }
                }
            },
            TurnEvent::UpvalueAccess { requester, owner } => {
                if requester != self.current {
                    Err(ProtocolError::UpvalueRequesterMismatch)
                } else if owner == requester {
                    Err(ProtocolError::LocalUpvalueEscaped)
                } else {
                    Ok((
                        SchedulerModel {
                            transfers: self.transfers.push(UpvalueTransfer { requester, owner }),
                            action: DriverAction::DeliverUpvalue,
                            current: requester,
                            ..self
                        },
                        TurnDecision::AccessUpvalue { owner },
                    ))
                }
            },
            TurnEvent::Coroutine { thread, caller_status } => {
                if self.frames.len() == 0 {
                    Err(ProtocolError::StoppedWithoutActivation)
                } else if self.frames.last().thread != thread {
                    Err(ProtocolError::StoppedThreadMismatch)
                } else {
                    let f = self.frames.last();
                    let restored = match (caller_status, f.links.previous_caller_status) {
                        (Some(CoroutineStatus::Dead), _) => Some(CoroutineStatus::Dead),
                        (Some(_), Some(previous)) => Some(previous),
                        _ => caller_status,
                    };
                    let replay = f.caller_thread is Some && restored == Some(CoroutineStatus::Dead);
                    let g = ActivationFrame { replay_dead_ancestor: replay, ..f };
                    Ok((
                        SchedulerModel {
                            frames: self.frames.update(self.frames.len() - 1, g),
                            current: f.caller,
                            action: DriverAction::Deliver(
                                Completion {
                                    request_id: f.request_id,
                                    replay_thread: if replay {
                                        f.caller_thread
                                    } else {
                                        None
                                    },
                                },
                            ),
                            ..self
                        },
                        TurnDecision::DeliverToCaller {
                            frame: g,
                            restored_caller_status: restored,
                            replay_dead_ancestor: replay,
                        },
                    ))
                }
            },
            TurnEvent::Main => {
                if self.frames.len() > 0 || self.transfers.len() > 0 {
                    Err(ProtocolError::MainStoppedWithActivations)
                } else {
                    Ok((self, TurnDecision::Finished))
                }
            },
        }
    }

    /// The whole step after a turn: settle, then decide.
    pub open spec fn step(self, e: TurnEvent) -> Result<(SchedulerModel, TurnReport), ProtocolError> {
        match self.settled(e) {
            Err(err) => Err(err),
            Ok((m, completed, replaced)) => match m.decided(e) {
                Err(err) => Err(err),
                Ok((n, decision)) => Ok(
                    (n, TurnReport { completed, dead_caller_response: replaced, decision }),
                ),
            },
        }
    }
}

/// The index of the last frame whose caller is `state`, if any.
fn find_last_called_by(frames: &Vec<ActivationFrame>, state: StateHandle) -> (r: Option<usize>)
    ensures
        match last_called_by(frames@, state) {
            Some(i) => r == Some(i as usize),
            None => r is None,
        },
{
    let mut i = frames.len();
    proof {
        assert(frames@.take(i as int) =~= frames@);
    }
    while i > 0
        invariant
            i <= frames@.len(),
            last_called_by(frames@, state) == last_called_by(frames@.take(i as int), state),
        decreases i,
    {
        proof {
            assert(frames@.take(i as int).drop_last() =~= frames@.take(i - 1));
            assert(frames@.take(i as int).last() == frames@[i - 1]);
        }
        if frames[i - 1].caller.same_as(&state) {
            return Some(i - 1);
        }
        i -= 1;
    }
    None
}

/// The activation stack and the plan of the next turn.
pub struct ActivationScheduler {
    current: StateHandle,
    action: DriverAction,
    frames: Vec<ActivationFrame>,
    transfers: Vec<UpvalueTransfer>,
    pending: Option<Completion>,
}

impl View for ActivationScheduler {
    type V = SchedulerModel;

    closed spec fn view(&self) -> SchedulerModel {
        SchedulerModel {
            current: self.current,
            action: self.action,
            frames: self.frames@,
            transfers: self.transfers@,
            pending: self.pending,
        }
    }
}

impl ActivationScheduler {
    /// A session that starts by running its prototype on `initial`.
    pub fn new(initial: StateHandle) -> (r: ActivationScheduler)
        ensures
            r@ == (SchedulerModel {
                current: initial,
                action: DriverAction::StartProto,
                frames: Seq::empty(),
                transfers: Seq::empty(),
                pending: None,
            }),
    {
        ActivationScheduler {
            current: initial,
            action: DriverAction::StartProto,
            frames: Vec::new(),
            transfers: Vec::new(),
            pending: None,
        }
    }

    /// Begin another session on `initial`; refused, with nothing changed,
    /// while activations of an earlier session remain.
    pub fn restart(&mut self, initial: StateHandle) -> (r: Result<(), ProtocolError>)
        ensures
            old(self)@.frames.len() > 0 || old(self)@.transfers.len() > 0 ==> r == Err::<(), ProtocolError>(
                ProtocolError::ActivationsAtEntry,
            ) && final(self)@ == old(self)@,
            old(self)@.frames.len() == 0 && old(self)@.transfers.len() == 0 ==> r is Ok && final(self)@
                == (SchedulerModel {
                current: initial,
                action: DriverAction::StartProto,
                frames: Seq::empty(),
                transfers: Seq::empty(),
                pending: None,
            }),
    {
        if self.frames.len() > 0 || self.transfers.len() > 0 {
            return Err(ProtocolError::ActivationsAtEntry);
        }
        self.current = initial;
        self.action = DriverAction::StartProto;
        self.pending = None;
        proof {
            assert(self.frames@ =~= Seq::<ActivationFrame>::empty());
            assert(self.transfers@ =~= Seq::<UpvalueTransfer>::empty());
        }
        Ok(())
    }

    /// The state that the next turn runs on.
    pub fn current(&self) -> (r: StateHandle)
        ensures
            r == self@.current,
    {
        self.current
    }

    /// What the next turn does.
    pub fn action(&self) -> (r: DriverAction)
        ensures
            r == self@.action,
    {
        self.action
    }

    /// The active frames, oldest first.
    pub fn frames(&self) -> (r: &Vec<ActivationFrame>)
        ensures
            r@ == self@.frames,
    {
        &self.frames
    }

    fn settle(&mut self, e: TurnEvent) -> (r: Result<(Option<ActivationFrame>, bool), ProtocolError>)
        ensures
            match old(self)@.settled(e) {
                Err(err) => r == Err::<(Option<ActivationFrame>, bool), ProtocolError>(err),
                Ok((m, popped, replaced)) => r == Ok::<(Option<ActivationFrame>, bool), ProtocolError>(
                    (popped, replaced),
                ) && final(self)@ == m,
            },
    {
        let (completed, held) = match self.action {
            DriverAction::Deliver(c) => (Some(c), self.pending),
            _ => (self.pending, None),
        };
        if self.action == DriverAction::DeliverUpvalue {
            if self.transfers.len() == 0 {
                return Err(ProtocolError::UpvalueTransferLost);
            }
            self.transfers.pop();
        }
        match e {
            TurnEvent::UpvalueAccess { .. } => {
                self.pending = completed;
                return Ok((None, false));
            },
            _ => {},
        }
        match completed {
            None => {
                self.pending = held;
                Ok((None, false))
            },
            Some(c) => {
                let n = self.frames.len();
                if n == 0 {
                    return Err(ProtocolError::DeliveryFrameLost);
                }
                let top = self.frames[n - 1];
                if top.request_id != c.request_id {
                    return Err(ProtocolError::DeliveryFrameMismatch);
                }
                let replaced = match (c.replay_thread, e) {
                    (Some(t), TurnEvent::Coroutine { thread, .. }) => t == thread,
                    _ => false,
                };
                self.frames.pop();
                self.pending = held;
                Ok((Some(top), replaced))
            },
        }
    }

    fn decide(&mut self, e: TurnEvent) -> (r: Result<TurnDecision, ProtocolError>)
        ensures
            match old(self)@.decided(e) {
                Err(err) => r == Err::<TurnDecision, ProtocolError>(err),
                Ok((m, d)) => r == Ok::<TurnDecision, ProtocolError>(d) && final(self)@ == m,
            },
    {
        match e {
            TurnEvent::Request {
                request_id,
                target,
                thread,
                caller,
                has_deferred_call,
                target_status,
                target_caller,
            } => {
                let caller_status = match caller {
                    Some(c) => Some(c.status),
                    None => None,
                };
                let caller_thread = match caller {
                    Some(c) => Some(c.thread),
                    None => None,
                };
                if !has_deferred_call {
                    return Err(ProtocolError::MissingDeferredCall);
                }
                let (links, active) = match begin_activation(caller_status, target_status) {
                    Ok(pair) => pair,
                    Err(refusal) => {
                        return Err(ProtocolError::TargetNotResumable(refusal));
                    },
                };
                let frame = ActivationFrame {
                    caller: self.current,
                    caller_thread,
                    links,
                    previous_target_caller: target_caller,
                    request_id,
                    target,
                    thread,
                    replay_dead_ancestor: false,
                };
                let ancestor = find_last_called_by(&self.frames, target);
                let is_normal = target_status == CoroutineStatus::Normal;
                if is_normal && ancestor.is_none() {
                    return Err(ProtocolError::NormalTargetWithoutAncestor);
                }
                let normal_deferred = if is_normal {
                    ancestor
                } else {
                    None
                };
                self.frames.push(frame);
                self.action = DriverAction::StartTarget;
                self.current = target;
                Ok(TurnDecision::StartTarget { frame, active, normal_deferred })
            },
            TurnEvent::UpvalueAccess { requester, owner } => {
                if !requester.same_as(&self.current) {
                    return Err(ProtocolError::UpvalueRequesterMismatch);
                }
                if owner.same_as(&requester) {
                    return Err(ProtocolError::LocalUpvalueEscaped);
                }
                self.transfers.push(UpvalueTransfer { requester, owner });
                self.action = DriverAction::DeliverUpvalue;
                self.current = requester;
                Ok(TurnDecision::AccessUpvalue { owner })
            },
            TurnEvent::Coroutine { thread, caller_status } => {
                let n = self.frames.len();
                if n == 0 {
                    return Err(ProtocolError::StoppedWithoutActivation);
                }
                let f = self.frames[n - 1];
                if f.thread != thread {
                    return Err(ProtocolError::StoppedThreadMismatch);
                }
                let restored = restored_caller_status(&f.links, caller_status);
                let replay = f.caller_thread.is_some() && restored == Some(CoroutineStatus::Dead);
                let g = ActivationFrame { replay_dead_ancestor: replay, ..f };
                self.frames.set(n - 1, g);
                self.current = f.caller;
                let replay_thread = if replay {
                    f.caller_thread
                } else {
                    None
                };
                self.action = DriverAction::Deliver(Completion { request_id: f.request_id, replay_thread });
                Ok(
                    TurnDecision::DeliverToCaller {
                        frame: g,
                        restored_caller_status: restored,
                        replay_dead_ancestor: replay,
                    },
                )
            },
            TurnEvent::Main => {
                if self.frames.len() > 0 || self.transfers.len() > 0 {
                    return Err(ProtocolError::MainStoppedWithActivations);
                }
                Ok(TurnDecision::Finished)
            },
        }
    }

    /// Take how the last turn ended and decide the next, as `step` says.
    /// After an error the session is over and the scheduler is to be unwound.
    pub fn after_turn(&mut self, e: TurnEvent) -> (r: Result<TurnReport, ProtocolError>)
        ensures
            match old(self)@.step(e) {
                Err(err) => r == Err::<TurnReport, ProtocolError>(err),
                Ok((m, report)) => r == Ok::<TurnReport, ProtocolError>(report) && final(self)@ == m,
            },
    {
        let (completed, dead_caller_response) = self.settle(e)?;
        let decision = self.decide(e)?;
        Ok(TurnReport { completed, dead_caller_response, decision })
    }

    /// End the session: every frame is popped, newest first, so that the
    /// caller can restore the statuses and links that each one recorded; the
    /// upvalue transfers are dropped.
    pub fn unwind(&mut self) -> (r: Vec<ActivationFrame>)
        ensures
            r@ == old(self)@.frames.reverse(),
            final(self)@ == (SchedulerModel {
                frames: Seq::empty(),
                transfers: Seq::empty(),
                ..old(self)@
            }),
    {
        let mut out: Vec<ActivationFrame> = Vec::new();
        let ghost start = self.frames@;
        while self.frames.len() > 0
            invariant
                self.frames@ == start.take(self.frames@.len() as int),
                self.frames@.len() <= start.len(),
                out@ == start.reverse().take(start.len() - self.frames@.len()),
                self.current == old(self).current,
                self.action == old(self).action,
                self.pending == old(self).pending,
                self.transfers@ == old(self).transfers@,
                start == old(self).frames@,
            decreases self.frames@.len(),
        {
            let ghost k = self.frames@.len();
            let f = self.frames.pop().unwrap();
            out.push(f);
            proof {
                assert(self.frames@ =~= start.take(k - 1));
                assert(f == start[k - 1]);
                assert(out@ =~= start.reverse().take(start.len() - (k - 1)));
            }
        }
        self.transfers.clear();
        proof {
            assert(out@ =~= start.reverse());
            assert(self.frames@ =~= Seq::<ActivationFrame>::empty());
        }
        out
    }
}

/// The main state's stop ends the session only when no activation and no
/// upvalue transfer remains.
pub proof fn lemma_finished_only_without_activations(m: SchedulerModel, e: TurnEvent)
    requires
        m.step(e) matches Ok((n, report)) && report.decision == TurnDecision::Finished,
    ensures
        m.step(e) matches Ok((n, _)) && n.frames.len() == 0 && n.transfers.len() == 0,
{
}

/// Each turn pops at most the one frame its delivery completed and pushes at
/// most the one frame of a new resume.
pub proof fn lemma_stack_moves_by_one(m: SchedulerModel, e: TurnEvent)
    requires
        m.step(e) is Ok,
    ensures
        m.step(e) matches Ok((n, report)) && n.frames.len() + (if report.completed is Some {
            1int
        } else {
            0int
        }) == m.frames.len() + (if report.decision is StartTarget {
            1int
        } else {
            0int
        }),
{
}

/// A resume whose target then stops is delivered to the requesting state,
/// and the turn that receives the delivery pops exactly the frame that the
/// resume pushed, leaving the activation stack as it was.
pub proof fn lemma_resume_round_trip(
    m: SchedulerModel,
    request: TurnEvent,
    caller_status: Option<CoroutineStatus>,
    next: TurnEvent,
)
    requires
        m.pending is None,
        m.action == DriverAction::StartProto || m.action == DriverAction::StartTarget,
        request is Request,
        m.step(request) is Ok,
        m.step(request)->Ok_0.0.step(
            TurnEvent::Coroutine { thread: request->Request_thread, caller_status },
        ) is Ok,
        !(next is UpvalueAccess),
    ensures
        ({
            let m1 = m.step(request)->Ok_0.0;
            let (m2, r2) = m1.step(
                TurnEvent::Coroutine { thread: request->Request_thread, caller_status },
            )->Ok_0;
            &&& m2.current == m.current
            &&& r2.decision matches TurnDecision::DeliverToCaller { frame, .. } && frame.caller
                == m.current && frame.request_id == request->Request_request_id
            &&& m2.settled(next) matches Ok((m3, Some(f), _)) && m3.frames == m.frames
                && f.request_id == request->Request_request_id
        }),
{
    let m1 = m.step(request)->Ok_0.0;
    assert(m1.frames.drop_last() =~= m.frames);
    let m2 = m1.step(TurnEvent::Coroutine { thread: request->Request_thread, caller_status })->Ok_0.0;
    assert(m2.frames.drop_last() =~= m.frames);
}

/// An upvalue access is undone by the turn that delivers it: the transfer
/// frame it pushed is popped again, and a delivery that the access
/// interrupted completes in that turn, popping that delivery's frame.
pub proof fn lemma_upvalue_access_round_trip(m: SchedulerModel, access: TurnEvent, next: TurnEvent)
    requires
        access is UpvalueAccess,
        m.step(access) is Ok,
        !(next is UpvalueAccess),
        m.action != DriverAction::DeliverUpvalue,
    ensures
        ({
            let m1 = m.step(access)->Ok_0.0;
            &&& m1.action == DriverAction::DeliverUpvalue
            &&& m1.pending == m.completion().0
            &&& m1.settled(next) is Ok ==> m1.settled(next)->Ok_0.0.transfers == m.transfers
            &&& m.completion().0 is Some && m1.settled(next) is Ok ==> (m1.settled(next) matches Ok(
                (_, Some(f), _),
            ) && f.request_id == m.completion().0->Some_0.request_id)
        }),
{
    let m1 = m.step(access)->Ok_0.0;
    assert(m1.transfers.drop_last() =~= m.transfers);
}

/// How the VM left a state's turn.
#[derive(Clone, Copy, Debug, PartialEq, Eq, Structural)]
pub enum VmExit {
    /// A sealed native request with this identifier waits in the mailbox.
    NativeRequest(NativeRequestId),
    /// The state needs an open upvalue owned by another state.
    UpvalueAccess,
    /// Execution completed by returning or yielding.
    Complete(ExecResult),
    /// Execution raised an error.
    Failed,
}

/// Where the result handed to a coroutine's resumer comes from.
#[derive(Clone, Copy, Debug, PartialEq, Eq, Structural)]
pub enum ResponseSource {
    /// The values the coroutine yielded.
    YieldedValues,
    /// The coroutine's stack up to its top, as it returned.
    StackValues,
    /// The error the coroutine raised, which also becomes its last error.
    Error,
}

/// A classified turn.
pub enum TurnClass<P, D> {
    /// The request that the turn published, taken from the mailbox.
    Request(PendingRequest<P, D>),
    /// The turn needs an open upvalue of another state.
    UpvalueAccess,
    /// The main state finished: its result, or `None` when it failed.
    Main(Option<ExecResult>),
    /// A coroutine stopped: its new status and its result's source. Its last
    /// error is cleared unless it failed.
    Coroutine { status: CoroutineStatus, response: ResponseSource },
}

/// Why a turn could not be classified.
#[derive(Clone, Copy, Debug, PartialEq, Eq, Structural)]
pub enum ClassifyError {
    /// The VM exited for a request that is missing or not sealed.
    MissingNativeRequest,
    /// A coroutine stopped without a yield permission to give back.
    YieldPermissionUnderflow,
}

/// The turn outcome of a coroutine that stopped with `exit`.
pub open spec fn coroutine_outcome(exit: VmExit) -> TurnOutcome {
    match exit {
        VmExit::Complete(result) => TurnOutcome::Completed(result),
        _ => TurnOutcome::Failed,
    }
}

/// Classify how a turn of the state with mailbox `mailbox` ended. A request
/// exit takes the sealed request from the mailbox. A coroutine (a state with
/// a current thread) gives back one yield permission and becomes suspended
/// after a yield and dead otherwise.
pub fn classify_native_turn<P, D>(
    mailbox: &mut NativeRequestMailbox<P, D>,
    exit: VmExit,
    has_current_thread: bool,
    allow_yield: &mut u16,
) -> (r: Result<TurnClass<P, D>, ClassifyError>)
    requires
        old(mailbox).wf(),
    ensures
        final(mailbox).wf(),
        match exit {
            VmExit::NativeRequest(id) => if sealed_with(*old(mailbox), id) {
                r matches Ok(TurnClass::Request(req)) && old(mailbox).pending == Some(req)
                    && final(mailbox).pending is None && final(mailbox).scope_open == old(
                    mailbox,
                ).scope_open && final(mailbox).next_id == old(mailbox).next_id
            } else {
                r matches Err(ClassifyError::MissingNativeRequest) && *final(mailbox) == *old(mailbox)
            },
            _ => *final(mailbox) == *old(mailbox),
        },
        exit is NativeRequest || exit is UpvalueAccess || !has_current_thread ==> *final(allow_yield)
            == *old(allow_yield),
        exit is UpvalueAccess ==> r matches Ok(TurnClass::UpvalueAccess),
        !has_current_thread ==> match exit {
            VmExit::Complete(result) => r matches Ok(TurnClass::Main(m)) && m == Some(result),
            VmExit::Failed => r matches Ok(TurnClass::Main(m)) && m is None,
            _ => true,
        },
        has_current_thread && (exit is Complete || exit is Failed) ==> if *old(allow_yield) == 0 {
            r matches Err(ClassifyError::YieldPermissionUnderflow) && *final(allow_yield) == 0
        } else {
            &&& *final(allow_yield) == *old(allow_yield) - 1
            &&& r matches Ok(TurnClass::Coroutine { status, response }) && status == status_after_turn(
                coroutine_outcome(exit),
            ) && response == match exit {
                VmExit::Complete(ExecResult::Yielded) => ResponseSource::YieldedValues,
                VmExit::Complete(ExecResult::Returned) => ResponseSource::StackValues,
                _ => ResponseSource::Error,
            }
        },
{
    let outcome = match exit {
        VmExit::NativeRequest(id) => {
            return match mailbox.take(id) {
                Some(request) => Ok(TurnClass::Request(request)),
                None => Err(ClassifyError::MissingNativeRequest),
            };
        },
        VmExit::UpvalueAccess => {
            return Ok(TurnClass::UpvalueAccess);
        },
        VmExit::Complete(result) => {
            if !has_current_thread {
                return Ok(TurnClass::Main(Some(result)));
            }
            TurnOutcome::Completed(result)
        },
        VmExit::Failed => {
            if !has_current_thread {
                return Ok(TurnClass::Main(None));
            }
            TurnOutcome::Failed
        },
    };
    match release_yield_permission(*allow_yield) {
        Ok(v) => {
            *allow_yield = v;
        },
        Err(_) => {
            return Err(ClassifyError::YieldPermissionUnderflow);
        },
    }
    let status = finish_turn(outcome);
    let response = match exit {
        VmExit::Complete(ExecResult::Yielded) => ResponseSource::YieldedValues,
        VmExit::Complete(ExecResult::Returned) => ResponseSource::StackValues,
        _ => ResponseSource::Error,
    };
    Ok(TurnClass::Coroutine { status, response })
}

} // verus!
