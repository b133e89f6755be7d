use actor_core::messages::{Outcome, Request, SendError};
use actor_core::system::{SpawnConfig, System, SystemState};

fn cfg(mailbox_capacity: usize, worker_count: usize) -> SpawnConfig {
    SpawnConfig { mailbox_capacity, worker_count }
}

#[test]
fn accumulator_two_adds_then_closed_after_stop() {
    let mut sys = System::new();
    let addr = sys.spawn(0, cfg(0, 1)).unwrap();

    let h1 = sys.send(addr, Request::Add(10)).unwrap();
    sys.run_until_idle();
    assert_eq!(sys.poll_reply(h1), Some(Outcome::Success(10)));

    let h2 = sys.send(addr, Request::Add(10)).unwrap();
    sys.run_until_idle();
    assert_eq!(sys.poll_reply(h2), Some(Outcome::Success(20)));

    sys.stop();
    let third = sys.send(addr, Request::Add(1));
    assert_eq!(third, Err(SendError::MailboxClosed));
}

#[test]
fn bounded_capacity_one_second_try_send_is_full() {
    let mut sys = System::new();
    let addr = sys.spawn(0, cfg(1, 1)).unwrap();

    let first = sys.try_send(addr, Request::Add(1));
    assert!(first.is_ok());
    let second = sys.try_send(addr, Request::Add(2));
    assert_eq!(second.err(), Some(SendError::MailboxFull));
}

#[test]
fn crash_reports_failure_and_actor_survives() {
    let mut sys = System::new();
    let addr = sys.spawn(0, cfg(0, 1)).unwrap();

    let crash = sys.send(addr, Request::Crash(7)).unwrap();
    sys.run_until_idle();
    assert_eq!(sys.poll_reply(crash), Some(Outcome::HandlerFailure(7)));

    let add = sys.send(addr, Request::Add(5)).unwrap();
    sys.run_until_idle();
    assert_eq!(sys.poll_reply(add), Some(Outcome::Success(5)));
}

#[test]
fn spawn_zero_messages_stop_is_clean() {
    let mut sys = System::new();
    let addr = sys.spawn(42, cfg(0, 1)).unwrap();
    assert!(sys.connected(addr));

    sys.stop();
    assert!(!sys.connected(addr));
    assert_eq!(sys.send(addr, Request::Add(1)), Err(SendError::MailboxClosed));
    assert!(sys.spawn(0, cfg(0, 1)).is_none());
}

#[test]
fn fifo_replies_reflect_send_order() {
    let mut sys = System::new();
    let addr = sys.spawn(0, cfg(0, 1)).unwrap();

    let h1 = sys.send(addr, Request::Add(1)).unwrap();
    let h2 = sys.send(addr, Request::Add(2)).unwrap();
    let h3 = sys.send(addr, Request::Crash(9)).unwrap();
    let h4 = sys.send(addr, Request::Add(4)).unwrap();
    assert_eq!(sys.poll_reply(h1), None);
    sys.run_until_idle();
    // Running totals only come out this way if dispatch follows send order.
    assert_eq!(sys.poll_reply(h1), Some(Outcome::Success(1)));
    assert_eq!(sys.poll_reply(h2), Some(Outcome::Success(3)));
    assert_eq!(sys.poll_reply(h3), Some(Outcome::HandlerFailure(9)));
    assert_eq!(sys.poll_reply(h4), Some(Outcome::Success(7)));
}

#[test]
fn stop_fails_queued_envelopes_exactly_once() {
    let mut sys = System::new();
    let addr = sys.spawn(0, cfg(0, 1)).unwrap();

    let h1 = sys.send(addr, Request::Add(1)).unwrap();
    let h2 = sys.send(addr, Request::Add(2)).unwrap();
    sys.stop();
    assert_eq!(sys.poll_reply(h1), Some(Outcome::MailboxClosed));
    assert_eq!(sys.poll_reply(h2), Some(Outcome::MailboxClosed));
    // Resolution is terminal: polling again observes the same outcome.
    assert_eq!(sys.poll_reply(h1), Some(Outcome::MailboxClosed));
    assert_eq!(sys.poll_reply(h2), Some(Outcome::MailboxClosed));
}

#[test]
fn run_resolves_everything_and_stops() {
    let mut sys = System::new();
    let addr = sys.spawn(0, cfg(0, 1)).unwrap();
    let h1 = sys.send(addr, Request::Add(3)).unwrap();
    let h2 = sys.send(addr, Request::Sum(6, 7)).unwrap();
    sys.run();
    assert_eq!(sys.poll_reply(h1), Some(Outcome::Success(3)));
    assert_eq!(sys.poll_reply(h2), Some(Outcome::Success(13)));
    assert!(sys.spawn(0, cfg(0, 1)).is_none());
}

#[test]
fn stop_actor_fails_its_queue_but_spares_others() {
    let mut sys = System::new();
    let a1 = sys.spawn(0, cfg(0, 1)).unwrap();
    let a2 = sys.spawn(0, cfg(0, 1)).unwrap();

    let pending = sys.send(a1, Request::Add(1)).unwrap();
    sys.stop_actor(a1);
    assert_eq!(sys.poll_reply(pending), Some(Outcome::ActorStopped));
    assert_eq!(sys.send(a1, Request::Add(1)), Err(SendError::MailboxClosed));
    assert!(!sys.connected(a1));

    let alive = sys.send(a2, Request::Add(8)).unwrap();
    sys.run_until_idle();
    assert_eq!(sys.poll_reply(alive), Some(Outcome::Success(8)));
}

#[test]
fn pool_round_robin_keeps_per_worker_totals() {
    let mut sys = System::new();
    let addr = sys.spawn(0, cfg(0, 2)).unwrap();

    let h1 = sys.send(addr, Request::Add(1)).unwrap();
    let h2 = sys.send(addr, Request::Add(1)).unwrap();
    let h3 = sys.send(addr, Request::Add(1)).unwrap();
    sys.run_until_idle();
    // Round-robin: the first and third envelope land on one worker, the
    // second on the other; each worker accumulates independently.
    assert_eq!(sys.poll_reply(h1), Some(Outcome::Success(1)));
    assert_eq!(sys.poll_reply(h2), Some(Outcome::Success(1)));
    assert_eq!(sys.poll_reply(h3), Some(Outcome::Success(2)));
}

#[test]
fn cooperative_send_makes_room_on_full_mailbox() {
    let mut sys = System::new();
    let addr = sys.spawn(0, cfg(1, 1)).unwrap();

    let h1 = sys.send(addr, Request::Add(2)).unwrap();
    // The mailbox (capacity 1) is full: a cooperative send first lets the
    // actor process the oldest envelope, then enqueues.
    let h2 = sys.send(addr, Request::Add(3)).unwrap();
    assert_eq!(sys.poll_reply(h1), Some(Outcome::Success(2)));
    assert_eq!(sys.poll_reply(h2), None);
    sys.run_until_idle();
    assert_eq!(sys.poll_reply(h2), Some(Outcome::Success(5)));
}

#[test]
fn unbounded_mailbox_never_reports_full() {
    let mut sys = System::new();
    let addr = sys.spawn(0, cfg(0, 1)).unwrap();
    for i in 0..100u64 {
        assert!(sys.try_send(addr, Request::Add(i)).is_ok());
    }
    sys.run_until_idle();
}

#[test]
fn addition_wraps_at_the_type_boundary() {
    let mut sys = System::new();
    let addr = sys.spawn(0, cfg(0, 1)).unwrap();
    let h1 = sys.send(addr, Request::Add(u64::MAX)).unwrap();
    let h2 = sys.send(addr, Request::Add(1)).unwrap();
    sys.run_until_idle();
    assert_eq!(sys.poll_reply(h1), Some(Outcome::Success(u64::MAX)));
    assert_eq!(sys.poll_reply(h2), Some(Outcome::Success(0)));
}

#[test]
fn start_marks_running_and_dispatch_works_in_both_phases() {
    let mut sys = System::new();
    let addr = sys.spawn(0, cfg(0, 1)).unwrap();
    let h1 = sys.send(addr, Request::Add(1)).unwrap();
    sys.start();
    let h2 = sys.send(addr, Request::Add(1)).unwrap();
    sys.run_until_idle();
    assert_eq!(sys.poll_reply(h1), Some(Outcome::Success(1)));
    assert_eq!(sys.poll_reply(h2), Some(Outcome::Success(2)));
}

#[test]
fn worker_count_zero_is_treated_as_one() {
    let mut sys = System::new();
    let addr = sys.spawn(0, cfg(0, 0)).unwrap();
    let h = sys.send(addr, Request::Add(4)).unwrap();
    sys.run_until_idle();
    assert_eq!(sys.poll_reply(h), Some(Outcome::Success(4)));
}

#[test]
fn state_enum_is_plain_data() {
    assert_eq!(SystemState::Starting, SystemState::Starting);
    assert_ne!(SystemState::Running, SystemState::Stopped);
}
