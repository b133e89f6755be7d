use vstd::prelude::*;

verus! {

/// A request understood by the accumulator actor family.
///
/// The runtime dispatches a closed set of message kinds, each statically
/// paired with the `u64` reply it produces, so the request/response pairing
/// is checkable without inspecting message contents.
#[derive(Clone, Copy, PartialEq, Eq, Structural, Debug)]
pub enum Request {
    /// Add the amount to the actor's running total; the reply is the new
    /// total (wrapping on overflow).
    Add(u64),
    /// Add the two amounts to each other, ignoring actor state; the reply is
    /// their wrapping sum.
    Sum(u64, u64),
    /// Fail deliberately while processing; the reply slot resolves to
    /// `Outcome::HandlerFailure` carrying the given code, and the actor
    /// survives unchanged.
    Crash(u64),
}

/// The immediate error of a send that was not accepted into a mailbox.
#[derive(Clone, Copy, PartialEq, Eq, Structural, Debug)]
pub enum SendError {
    /// A bounded mailbox is at capacity; the caller may retry later.
    MailboxFull,
    /// The target no longer accepts envelopes; not retryable.
    MailboxClosed,
}

/// The terminal outcome written into a reply slot.
///
/// Every accepted envelope resolves to exactly one of these, exactly once.
#[derive(Clone, Copy, PartialEq, Eq, Structural, Debug)]
pub enum Outcome {
    /// The handler processed the request and produced this reply.
    Success(u64),
    /// The handler failed while processing; the actor itself survives and
    /// continues with its next envelope.
    HandlerFailure(u64),
    /// The envelope was still queued when its mailbox closed at system
    /// shutdown; it was never handed to the handler.
    MailboxClosed,
    /// The envelope was still queued when its own actor stopped; it was
    /// never handed to the handler.
    ActorStopped,
}

/// One queued message: the request plus the ticket naming its reply slot.
///
/// An envelope is consumed exactly once: it either reaches the handler or is
/// failed at close time, and either way its ticket's slot is resolved.
#[derive(Clone, Copy, PartialEq, Eq, Structural, Debug)]
pub struct Envelope {
    /// Index of the reply slot this envelope resolves.
    pub ticket: usize,
    /// The payload delivered to the handler.
    pub req: Request,
}

} // verus!
