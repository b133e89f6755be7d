use actor_core::handler;
use actor_core::mailbox::Mailbox;
use actor_core::messages::{Envelope, Outcome, Request, SendError};

fn env(ticket: usize, n: u64) -> Envelope {
    Envelope { ticket, req: Request::Add(n) }
}

#[test]
fn mailbox_delivers_in_fifo_order() {
    let mut m = Mailbox::new(0);
    assert!(m.push(env(0, 1)).is_ok());
    assert!(m.push(env(1, 2)).is_ok());
    assert!(m.push(env(2, 3)).is_ok());
    assert_eq!(m.pop().map(|e| e.ticket), Some(0));
    assert_eq!(m.pop().map(|e| e.ticket), Some(1));
    assert_eq!(m.pop().map(|e| e.ticket), Some(2));
    assert!(m.pop().is_none());
}

#[test]
fn bounded_mailbox_rejects_overflow_and_recovers() {
    let mut m = Mailbox::new(2);
    assert!(m.push(env(0, 1)).is_ok());
    assert!(m.push(env(1, 1)).is_ok());
    assert_eq!(m.push(env(2, 1)), Err(SendError::MailboxFull));
    assert_eq!(m.len(), 2);
    assert!(m.pop().is_some());
    assert!(m.push(env(2, 1)).is_ok());
}

#[test]
fn closed_mailbox_rejects_pushes_but_still_drains() {
    let mut m = Mailbox::new(0);
    assert!(m.push(env(0, 1)).is_ok());
    m.close();
    assert_eq!(m.push(env(1, 1)), Err(SendError::MailboxClosed));
    assert_eq!(m.pop().map(|e| e.ticket), Some(0));
    assert!(m.pop().is_none());
}

#[test]
fn handler_is_a_pure_state_transition() {
    let mut state: u64 = 0;
    assert_eq!(handler::handle(&mut state, Request::Add(10)), Ok(10));
    assert_eq!(state, 10);
    assert_eq!(handler::handle(&mut state, Request::Sum(6, 7)), Ok(13));
    assert_eq!(state, 10);
    assert_eq!(handler::handle(&mut state, Request::Crash(9)), Err(9));
    assert_eq!(state, 10);
}

#[test]
fn outcome_and_request_are_plain_copyable_data() {
    let o = Outcome::Success(3);
    let p = o;
    assert_eq!(o, p);
    let r = Request::Crash(1);
    assert_ne!(Request::Crash(2), r);
}
