use crate::messages::{Envelope, SendError};
use vstd::prelude::*;

verus! {

/// An ordered queue of pending envelopes for one actor instance.
///
/// Capacity is a configuration: `0` means unbounded, `N > 0` bounds the
/// queue to `N` envelopes and rejects further pushes with
/// `SendError::MailboxFull`. Delivery order is FIFO: `pop` always hands out
/// the envelope that has waited longest. Once closed, a mailbox rejects
/// every push with `SendError::MailboxClosed`; whatever is still queued can
/// still be popped, so the runtime can drain and fail it rather than drop it.
pub struct Mailbox {
    entries: Vec<Envelope>,
    capacity: usize,
    closed: bool,
}

impl Mailbox {
    /// The queued envelopes, oldest first.
    pub closed spec fn entries(self) -> Seq<Envelope> {
        self.entries@
    }

    /// The configured capacity; `0` means unbounded.
    pub closed spec fn capacity(self) -> usize {
        self.capacity
    }

    /// Whether the mailbox has stopped accepting envelopes.
    pub closed spec fn is_closed(self) -> bool {
        self.closed
    }

    /// Whether one more envelope fits under the configured capacity.
    pub open spec fn has_room(self) -> bool {
        self.capacity() == 0 || self.entries().len() < self.capacity() as int
    }

    /// Whether a push would be accepted.
    pub open spec fn accepts(self) -> bool {
        !self.is_closed() && self.has_room()
    }

    /// The queue never exceeds a bounded capacity.
    pub open spec fn wf(self) -> bool {
        self.capacity() > 0 ==> self.entries().len() <= self.capacity() as int
    }

    /// An open, empty mailbox with the given capacity (`0` = unbounded).
    pub fn new(capacity: usize) -> (m: Mailbox)
        ensures
            m.wf(),
            m.entries() == Seq::<Envelope>::empty(),
            m.capacity() == capacity,
            !m.is_closed(),
    {
        Mailbox { entries: Vec::new(), capacity, closed: false }
    }

    /// Number of queued envelopes.
    pub fn len(&self) -> (n: usize)
        ensures
            n == self.entries().len(),
    {
        self.entries.len()
    }

    /// The configured capacity, as a value (`0` = unbounded).
    pub fn capacity_value(&self) -> (c: usize)
        ensures
            c == self.capacity(),
    {
        self.capacity
    }

    /// Whether the mailbox has stopped accepting envelopes, as a value.
    pub fn is_closed_value(&self) -> (b: bool)
        ensures
            b == self.is_closed(),
    {
        self.closed
    }

    /// Non-blocking enqueue: fails fast with `MailboxClosed` on a closed
    /// mailbox and with `MailboxFull` on a bounded mailbox at capacity;
    /// otherwise the envelope joins the tail of the queue.
    pub fn push(&mut self, e: Envelope) -> (r: Result<(), SendError>)
        requires
            old(self).wf(),
        ensures
            final(self).wf(),
            final(self).capacity() == old(self).capacity(),
            final(self).is_closed() == old(self).is_closed(),
            old(self).is_closed() ==> r == Err::<(), SendError>(SendError::MailboxClosed)
                && final(self).entries() == old(self).entries(),
            !old(self).is_closed() && !old(self).has_room() ==> r == Err::<(), SendError>(
                SendError::MailboxFull,
            ) && final(self).entries() == old(self).entries(),
            old(self).accepts() ==> r == Ok::<(), SendError>(()) && final(self).entries()
                == old(self).entries().push(e),
    {
        if self.closed {
            Err(SendError::MailboxClosed)
        } else if self.capacity > 0 && self.entries.len() >= self.capacity {
            Err(SendError::MailboxFull)
        } else {
            self.entries.push(e);
            Ok(())
        }
    }

    /// FIFO dequeue: the next envelope in arrival order, or `None` on an
    /// empty queue. Popping still works on a closed mailbox, so queued
    /// envelopes can be drained and failed at close time.
    pub fn pop(&mut self) -> (r: Option<Envelope>)
        requires
            old(self).wf(),
        ensures
            final(self).wf(),
            final(self).capacity() == old(self).capacity(),
            final(self).is_closed() == old(self).is_closed(),
            old(self).entries().len() == 0 ==> r == Option::<Envelope>::None
                && final(self).entries() == old(self).entries(),
            old(self).entries().len() > 0 ==> r == Some(old(self).entries()[0])
                && final(self).entries() == old(self).entries().drop_first(),
    {
        if self.entries.len() == 0 {
            None
        } else {
            Some(self.entries.remove(0))
        }
    }

    /// Stop accepting envelopes. The queue itself is untouched: the runtime
    /// drains it so that every queued envelope still reaches a terminal
    /// outcome.
    pub fn close(&mut self)
        requires
            old(self).wf(),
        ensures
            final(self).wf(),
            final(self).capacity() == old(self).capacity(),
            final(self).entries() == old(self).entries(),
            final(self).is_closed(),
    {
        self.closed = true;
    }
}

} // verus!
