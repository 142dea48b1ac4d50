use lua_rust::runtime::lifecycle::NativeRequestId;
use lua_rust::runtime::mailbox::{
    DeferredCall, DeferredVmContinuation, NativeRequestMailbox, NativeRequestPublishError,
    ResumeEnvelope,
};

fn deferred(id: NativeRequestId, data: u32) -> DeferredCall<u32> {
    DeferredCall { request_id: id, continuation: DeferredVmContinuation::Call, data }
}

#[test]
fn publishing_needs_an_open_scope_and_an_empty_mailbox() {
    let mut mailbox: NativeRequestMailbox<&str, u32> = NativeRequestMailbox::new();
    assert_eq!(
        mailbox.publish("thread", ResumeEnvelope::Resume),
        Err(NativeRequestPublishError::ScopeUnavailable)
    );
    assert_eq!(mailbox.open_scope(), Ok(()));
    assert_eq!(mailbox.open_scope(), Err(NativeRequestPublishError::MailboxOccupied));
    let id = mailbox.publish("thread", ResumeEnvelope::Resume).expect("published");
    assert_eq!(id.get(), 1);
    assert_eq!(mailbox.pending_id(), Some(id));
    assert_eq!(
        mailbox.publish("again", ResumeEnvelope::Wrap),
        Err(NativeRequestPublishError::MailboxOccupied)
    );
}

#[test]
fn a_request_is_taken_only_after_it_is_sealed() {
    let mut mailbox: NativeRequestMailbox<&str, u32> = NativeRequestMailbox::new();
    mailbox.open_scope().expect("scope opens");
    let id = mailbox.publish("thread", ResumeEnvelope::Wrap).expect("published");
    assert!(mailbox.take(id).is_none());
    let other = NativeRequestId::new(99);
    assert!(!mailbox.seal(id, deferred(other, 5)));
    assert!(!mailbox.seal(other, deferred(other, 5)));
    assert!(mailbox.seal(id, deferred(id, 5)));
    assert!(!mailbox.seal(id, deferred(id, 6)));
    assert!(mailbox.take(other).is_none());
    let request = mailbox.take(id).expect("sealed request is taken");
    assert_eq!(request.id, id);
    assert_eq!(request.payload, "thread");
    assert_eq!(request.envelope, ResumeEnvelope::Wrap);
    assert_eq!(request.deferred.expect("sealed").data, 5);
    assert!(mailbox.pending.is_none());
}

#[test]
fn identifiers_are_never_reused() {
    let mut mailbox: NativeRequestMailbox<u8, u8> = NativeRequestMailbox::new();
    let mut previous = 0;
    for _ in 0..10 {
        mailbox.open_scope().expect("scope opens");
        let id = mailbox.publish(0, ResumeEnvelope::Resume).expect("published");
        assert!(id.get() > previous);
        previous = id.get();
        mailbox.close_scope(true);
        assert!(mailbox.pending.is_none());
    }
}

#[test]
fn exhausted_counter_refuses_to_publish() {
    let mut mailbox: NativeRequestMailbox<u8, u8> = NativeRequestMailbox::new();
    mailbox.next_id = u64::MAX;
    mailbox.open_scope().expect("scope opens");
    assert_eq!(
        mailbox.publish(0, ResumeEnvelope::Resume),
        Err(NativeRequestPublishError::IdExhausted)
    );
    assert_eq!(mailbox.next_id, u64::MAX);
    assert!(mailbox.pending.is_none());
}

#[test]
fn retarget_makes_the_envelope_protected_and_drops_the_seal() {
    let mut mailbox: NativeRequestMailbox<u8, u8> = NativeRequestMailbox::new();
    mailbox.open_scope().expect("scope opens");
    let id = mailbox.publish(7, ResumeEnvelope::Resume).expect("published");
    assert!(mailbox.seal(id, DeferredCall { request_id: id, continuation: DeferredVmContinuation::Call, data: 1 }));
    assert!(mailbox.set_continuation(id, DeferredVmContinuation::GenericFor { base: 3, register: 4 }));
    assert!(mailbox.retarget_to_protected(id));
    let pending = mailbox.pending.as_ref().expect("still pending");
    assert_eq!(pending.envelope, ResumeEnvelope::ProtectedResume);
    assert!(pending.deferred.is_none());
    assert!(!mailbox.retarget_to_protected(id));
    assert!(!mailbox.set_continuation(id, DeferredVmContinuation::Call));
    mailbox.clear();
    assert!(mailbox.pending.is_none());
    assert!(!mailbox.scope_open);
}
