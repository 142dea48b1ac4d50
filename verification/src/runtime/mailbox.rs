//! The runtime-native request mailbox of one Lua state.
//!
//! Inside a request scope, a native operation publishes at most one owned
//! request; the VM seals it with the metadata of the deferred call; the
//! runtime takes it only once it is sealed, after the state's turn ends.
//! Request identifiers come from a per-state counter and are never reused.

use vstd::prelude::*;
use super::lifecycle::NativeRequestId;

verus! {

/// Lua-visible result envelope requested by the native closure.
#[derive(Clone, Copy, Debug, PartialEq, Eq, Structural)]
pub enum ResumeEnvelope {
    Resume,
    Wrap,
    ProtectedResume,
    ProtectedWrap,
}

/// VM work that must run after a deferred native call publishes its results.
#[derive(Clone, Copy, Debug, PartialEq, Eq, Structural)]
pub enum DeferredVmContinuation {
    /// An ordinary call has no opcode-local post-processing.
    Call,
    /// A generic `for` must update its control register or skip the body.
    GenericFor { base: usize, register: usize },
}

/// Why a request could not be published.
#[derive(Clone, Copy, Debug, PartialEq, Eq, Structural)]
pub enum NativeRequestPublishError {
    /// No request scope is open.
    ScopeUnavailable,
    /// A scope is already open, or a request is already pending.
    MailboxOccupied,
    /// The identifier counter is exhausted.
    IdExhausted,
}

/// Metadata of a deferred native call, with the request it finishes.
pub struct DeferredCall<D> {
    pub request_id: NativeRequestId,
    pub continuation: DeferredVmContinuation,
    /// Everything else the VM needs to finish the call.
    pub data: D,
}

/// A published request: its identifier, envelope and payload, and the
/// deferred call once the VM has sealed it.
pub struct PendingRequest<P, D> {
    pub id: NativeRequestId,
    pub envelope: ResumeEnvelope,
    pub payload: P,
    pub deferred: Option<DeferredCall<D>>,
}

/// The mailbox of one state.
pub struct NativeRequestMailbox<P, D> {
    /// Whether a request scope is open.
    pub scope_open: bool,
    /// The published request, if any.
    pub pending: Option<PendingRequest<P, D>>,
    /// The identifier the next request receives.
    pub next_id: u64,
}

impl<P, D> NativeRequestMailbox<P, D> {
    /// Every pending request has an identifier below the counter, and the
    /// counter never hands out zero.
    pub open spec fn wf(self) -> bool {
        &&& self.next_id >= 1
        &&& self.pending matches Some(r) ==> 1 <= r.id.value() < self.next_id
    }

    /// An empty mailbox whose first request gets identifier 1.
    pub fn new() -> (r: Self)
        ensures
            r.wf(),
            !r.scope_open,
            r.pending is None,
            r.next_id == 1,
    {
        NativeRequestMailbox { scope_open: false, pending: None, next_id: 1 }
    }
}

/// The outcome of opening a request scope on `m`.
pub open spec fn open_scope_outcome<P, D>(m: NativeRequestMailbox<P, D>) -> Result<
    (),
    NativeRequestPublishError,
> {
    if m.scope_open || m.pending is Some {
        Err(NativeRequestPublishError::MailboxOccupied)
    } else {
        Ok(())
    }
}

/// The outcome of publishing on `m`: the new request's identifier, or why
/// none was published.
pub open spec fn publish_outcome<P, D>(m: NativeRequestMailbox<P, D>) -> Result<
    u64,
    NativeRequestPublishError,
> {
    if !m.scope_open {
        Err(NativeRequestPublishError::ScopeUnavailable)
    } else if m.pending is Some {
        Err(NativeRequestPublishError::MailboxOccupied)
    } else if m.next_id == u64::MAX {
        Err(NativeRequestPublishError::IdExhausted)
    } else {
        Ok(m.next_id)
    }
}

/// Whether `m` holds a request with identifier `id` that may be sealed with a
/// deferred call for `request_id`.
pub open spec fn can_seal<P, D>(m: NativeRequestMailbox<P, D>, id: NativeRequestId, request_id: NativeRequestId) -> bool {
    m.pending matches Some(r) && r.id == id && request_id == id && r.deferred is None
}

/// Whether `m` holds a sealed request with identifier `id`.
pub open spec fn sealed_with<P, D>(m: NativeRequestMailbox<P, D>, id: NativeRequestId) -> bool {
    m.pending matches Some(r) && r.id == id && r.deferred is Some
}

/// The protected form of an envelope, if it has one.
pub open spec fn protected_envelope(e: ResumeEnvelope) -> Option<ResumeEnvelope> {
    match e {
        ResumeEnvelope::Resume => Some(ResumeEnvelope::ProtectedResume),
        ResumeEnvelope::Wrap => Some(ResumeEnvelope::ProtectedWrap),
        _ => None,
    }
}

/// Protecting a request keeps its kind: a resume becomes a protected resume
/// and a wrapped call a protected wrapped call, two different kinds never
/// become the same protected kind, and a protected request is not protected
/// again.
pub proof fn lemma_protection_keeps_kind(e: ResumeEnvelope, f: ResumeEnvelope)
    ensures
        e == ResumeEnvelope::Resume <==> protected_envelope(e) == Some(ResumeEnvelope::ProtectedResume),
        e == ResumeEnvelope::Wrap <==> protected_envelope(e) == Some(ResumeEnvelope::ProtectedWrap),
        protected_envelope(e) is Some && protected_envelope(e) == protected_envelope(f) ==> e == f,
        protected_envelope(e) matches Some(p) ==> protected_envelope(p) is None,
{
}

/// `p` is `q` with the continuation of its deferred call replaced by
/// `continuation`.
pub open spec fn continued<P, D>(
    q: PendingRequest<P, D>,
    p: PendingRequest<P, D>,
    continuation: DeferredVmContinuation,
) -> bool {
    match (q.deferred, p.deferred) {
        (Some(e), Some(d)) => p.id == q.id && p.envelope == q.envelope && p.payload == q.payload
            && d.request_id == e.request_id && d.data == e.data && d.continuation == continuation,
        _ => false,
    }
}

impl<P, D> NativeRequestMailbox<P, D> {
    /// Open a request scope: refused when one is open or a request is
    /// pending.
    pub fn open_scope(&mut self) -> (r: Result<(), NativeRequestPublishError>)
        ensures
            r == open_scope_outcome(*old(self)),
            r is Ok ==> final(self).scope_open && final(self).pending is None && final(self).next_id
                == old(self).next_id,
            r is Err ==> *final(self) == *old(self),
    {
        if self.scope_open || self.pending.is_some() {
            return Err(NativeRequestPublishError::MailboxOccupied);
        }
        self.scope_open = true;
        Ok(())
    }

    /// Close the scope. When it ends by unwinding, a pending request is
    /// dropped with it.
    pub fn close_scope(&mut self, unwinding: bool)
        requires
            old(self).wf(),
        ensures
            final(self).wf(),
            !final(self).scope_open,
            final(self).next_id == old(self).next_id,
            unwinding ==> final(self).pending is None,
            !unwinding ==> final(self).pending == old(self).pending,
    {
        self.scope_open = false;
        if unwinding {
            self.pending = None;
        }
    }

    /// Publish a request with `payload` and `envelope`. It receives the
    /// counter's identifier and the counter moves on; refused outside a scope,
    /// when a request is pending, or when the counter is exhausted.
    pub fn publish(&mut self, payload: P, envelope: ResumeEnvelope) -> (r: Result<
        NativeRequestId,
        NativeRequestPublishError,
    >)
        requires
            old(self).wf(),
        ensures
            final(self).wf(),
            match publish_outcome(*old(self)) {
                Ok(id) => r matches Ok(rid) && rid.value() == id && final(self).next_id == id + 1
                    && final(self).scope_open == old(self).scope_open && final(self).pending == Some(
                    PendingRequest::<P, D> { id: rid, envelope, payload, deferred: None },
                ),
                Err(e) => r == Err::<NativeRequestId, NativeRequestPublishError>(e) && *final(self)
                    == *old(self),
            },
    {
        if !self.scope_open {
            return Err(NativeRequestPublishError::ScopeUnavailable);
        }
        if self.pending.is_some() {
            return Err(NativeRequestPublishError::MailboxOccupied);
        }
        if self.next_id == u64::MAX {
            return Err(NativeRequestPublishError::IdExhausted);
        }
        let id = NativeRequestId::new(self.next_id);
        self.next_id = self.next_id + 1;
        self.pending = Some(PendingRequest { id, envelope, payload, deferred: None });
        Ok(id)
    }

    /// The identifier of the pending request, if any.
    pub fn pending_id(&self) -> (r: Option<NativeRequestId>)
        ensures
            match self.pending {
                Some(p) => r == Some(p.id),
                None => r is None,
            },
    {
        match &self.pending {
            Some(p) => Some(p.id),
            None => None,
        }
    }

    /// Seal the pending request `id` with its deferred call: only when it is
    /// pending, unsealed, and the call is for the same request.
    pub fn seal(&mut self, id: NativeRequestId, deferred: DeferredCall<D>) -> (r: bool)
        requires
            old(self).wf(),
        ensures
            final(self).wf(),
            r == can_seal(*old(self), id, deferred.request_id),
            r ==> (final(self).pending matches Some(p) && old(self).pending matches Some(q) && p.id
                == q.id && p.envelope == q.envelope && p.payload == q.payload && p.deferred == Some(
                deferred,
            )),
            r ==> final(self).scope_open == old(self).scope_open && final(self).next_id == old(
                self,
            ).next_id,
            !r ==> *final(self) == *old(self),
    {
        match self.pending.take() {
            Some(request) => {
                if request.id == id && deferred.request_id == id && request.deferred.is_none() {
                    self.pending = Some(PendingRequest { deferred: Some(deferred), ..request });
                    true
                } else {
                    self.pending = Some(request);
                    false
                }
            },
            None => false,
        }
    }

    /// Take the pending request `id` once it is sealed; otherwise take
    /// nothing.
    pub fn take(&mut self, id: NativeRequestId) -> (r: Option<PendingRequest<P, D>>)
        requires
            old(self).wf(),
        ensures
            final(self).wf(),
            sealed_with(*old(self), id) ==> r == old(self).pending && final(self).pending is None
                && final(self).scope_open == old(self).scope_open && final(self).next_id == old(
                self,
            ).next_id,
            !sealed_with(*old(self), id) ==> r is None && *final(self) == *old(self),
    {
        match self.pending.take() {
            Some(request) => {
                if request.id == id && request.deferred.is_some() {
                    Some(request)
                } else {
                    self.pending = Some(request);
                    None
                }
            },
            None => None,
        }
    }

    /// Replace the continuation of the sealed request `id`.
    pub fn set_continuation(&mut self, id: NativeRequestId, continuation: DeferredVmContinuation) -> (r:
        bool)
        requires
            old(self).wf(),
        ensures
            final(self).wf(),
            r == (old(self).pending matches Some(p) && p.deferred matches Some(d) && p.id == id
                && d.request_id == id),
            r ==> match (old(self).pending, final(self).pending) {
                (Some(q), Some(p)) => continued(q, p, continuation),
                _ => false,
            },
            r ==> final(self).scope_open == old(self).scope_open && final(self).next_id == old(
                self,
            ).next_id,
            !r ==> *final(self) == *old(self),
    {
        match self.pending.take() {
            Some(request) => {
                let PendingRequest { id: rid, envelope, payload, deferred } = request;
                match deferred {
                    Some(d) => {
                        if rid == id && d.request_id == id {
                            let updated = DeferredCall { continuation, ..d };
                            self.pending = Some(
                                PendingRequest { id: rid, envelope, payload, deferred: Some(updated) },
                            );
                            true
                        } else {
                            self.pending = Some(
                                PendingRequest { id: rid, envelope, payload, deferred: Some(d) },
                            );
                            false
                        }
                    },
                    None => {
                        self.pending = Some(PendingRequest { id: rid, envelope, payload, deferred: None });
                        false
                    },
                }
            },
            None => false,
        }
    }

    /// Turn the pending request `id` into its protected form, dropping its
    /// seal so the VM seals it again; refused when the envelope is already
    /// protected.
    pub fn retarget_to_protected(&mut self, id: NativeRequestId) -> (r: bool)
        requires
            old(self).wf(),
        ensures
            final(self).wf(),
            r == (old(self).pending matches Some(p) && p.id == id && protected_envelope(p.envelope)
                is Some),
            r ==> (final(self).pending matches Some(p) && old(self).pending matches Some(q) && p.id
                == q.id && Some(p.envelope) == protected_envelope(q.envelope) && p.payload == q.payload
                && p.deferred is None),
            r && old(self).pending.unwrap().envelope == ResumeEnvelope::Resume
                ==> final(self).pending.unwrap().envelope == ResumeEnvelope::ProtectedResume,
            r && old(self).pending.unwrap().envelope == ResumeEnvelope::Wrap
                ==> final(self).pending.unwrap().envelope == ResumeEnvelope::ProtectedWrap,
            r ==> final(self).scope_open == old(self).scope_open && final(self).next_id == old(
                self,
            ).next_id,
            !r ==> *final(self) == *old(self),
    {
        match self.pending.take() {
            Some(request) => {
                if request.id != id {
                    self.pending = Some(request);
                    return false;
                }
                let envelope = match request.envelope {
                    ResumeEnvelope::Resume => ResumeEnvelope::ProtectedResume,
                    ResumeEnvelope::Wrap => ResumeEnvelope::ProtectedWrap,
                    _ => {
                        self.pending = Some(request);
                        return false;
                    },
                };
                self.pending = Some(
                    PendingRequest { id: request.id, envelope, payload: request.payload, deferred: None },
                );
                true
            },
            None => false,
        }
    }

    /// Drop the scope and any pending request, as at shutdown.
    pub fn clear(&mut self)
        requires
            old(self).wf(),
        ensures
            final(self).wf(),
            !final(self).scope_open,
            final(self).pending is None,
            final(self).next_id == old(self).next_id,
    {
        self.scope_open = false;
        self.pending = None;
    }
}

/// Identifiers are never reused: a request published after another gets a
/// larger identifier, since each publication moves the counter past the
/// identifier it hands out and nothing moves it back.
pub proof fn lemma_identifiers_increase<P, D>(
    first: NativeRequestMailbox<P, D>,
    later: NativeRequestMailbox<P, D>,
)
    requires
        publish_outcome(first) is Ok,
        later.next_id >= first.next_id + 1,
        publish_outcome(later) is Ok,
    ensures
        publish_outcome(first)->Ok_0 < publish_outcome(later)->Ok_0,
{
}

/// A request that is published but not sealed cannot be taken, and a request
/// sealed with its own deferred call can: the mailbox decides by the seal
/// alone.
pub proof fn lemma_take_needs_seal<P, D>(
    m: NativeRequestMailbox<P, D>,
    payload: P,
    envelope: ResumeEnvelope,
    d: DeferredCall<D>,
)
    requires
        m.wf(),
        publish_outcome(m) is Ok,
        d.request_id.value() == publish_outcome(m)->Ok_0,
    ensures
        ({
            let id = d.request_id;
            let published = NativeRequestMailbox {
                pending: Some(PendingRequest { id, envelope, payload, deferred: None }),
                next_id: (m.next_id + 1) as u64,
                ..m
            };
            let sealed = NativeRequestMailbox {
                pending: Some(PendingRequest { id, envelope, payload, deferred: Some(d) }),
                ..published
            };
            &&& !sealed_with(published, id)
            &&& can_seal(published, id, d.request_id)
            &&& sealed_with(sealed, id)
        }),
{
}

} // verus!
