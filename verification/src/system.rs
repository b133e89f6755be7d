use crate::handler;
use crate::mailbox::Mailbox;
use crate::messages::{Envelope, Outcome, Request, SendError};
use vstd::prelude::*;

verus! {

/// Lifecycle of the registry as a whole.
///
/// `Starting` and `Running` both admit registration and dispatch (dispatch
/// is allowed as soon as an actor is spawned, independent of the global
/// state); `Stopping` is the transient shutdown phase, entered and left
/// inside `System::stop`; `Stopped` is terminal.
#[derive(Clone, Copy, PartialEq, Eq, Structural, Debug)]
pub enum SystemState {
    Starting,
    Running,
    Stopping,
    Stopped,
}

/// A lightweight, copyable capability that names one spawned actor. It
/// refers to the actor's mailboxes, never to its private state.
#[derive(Clone, Copy, PartialEq, Eq, Structural, Debug)]
pub struct Address {
    actor: usize,
}

impl Address {
    /// The registry index this capability names.
    pub closed spec fn id(self) -> int {
        self.actor as int
    }
}

/// A copyable handle naming the reply slot of one accepted envelope. The
/// caller polls it for the envelope's terminal outcome; dropping it without
/// ever polling leaks nothing and corrupts nothing.
#[derive(Clone, Copy, PartialEq, Eq, Structural, Debug)]
pub struct ReplyHandle {
    ticket: usize,
}

impl ReplyHandle {
    /// The reply-slot index this handle names.
    pub closed spec fn ticket(self) -> int {
        self.ticket as int
    }
}

/// Configuration recognized at spawn time.
#[derive(Clone, Copy, PartialEq, Eq, Structural, Debug)]
pub struct SpawnConfig {
    /// Mailbox capacity for each worker; `0` means unbounded.
    pub mailbox_capacity: usize,
    /// How many pinned instances serve the address; `1` gives
    /// single-threaded affinity, `K > 1` a round-robin pool. `0` is treated
    /// as `1`.
    pub worker_count: usize,
}

/// One pinned actor instance: private state plus its own FIFO mailbox.
/// Exactly one handler invocation runs against `state` at a time, because
/// the only way to reach it is a runtime step that dequeues this worker's
/// mailbox.
struct Worker {
    state: u64,
    mailbox: Mailbox,
    handled: Ghost<Seq<Envelope>>,
}

/// Registry entry for one spawned actor: the range of workers that serve
/// its address, and the round-robin dispatch cursor.
struct ActorEntry {
    first_worker: usize,
    worker_count: usize,
    next_offset: usize,
}

/// The explicit, explicitly-torn-down context object: a registry of running
/// actors, their workers, and the reply slots of every envelope ever
/// accepted. All sends, scheduling steps and lifecycle transitions go
/// through it.
pub struct System {
    actors: Vec<ActorEntry>,
    workers: Vec<Worker>,
    slots: Vec<Option<Outcome>>,
    state: SystemState,
    owner: Ghost<Map<int, int>>,
}

impl System {
    /// Current lifecycle state.
    pub closed spec fn sys_state(self) -> SystemState {
        self.state
    }

    /// Number of actors ever registered; registry indices are never reused.
    pub closed spec fn actor_count(self) -> int {
        self.actors.len() as int
    }

    /// Number of workers across all actors.
    pub closed spec fn worker_count(self) -> int {
        self.workers.len() as int
    }

    /// Number of reply slots ever issued; tickets are never reused.
    pub closed spec fn ticket_count(self) -> int {
        self.slots.len() as int
    }

    /// The terminal outcome of ticket `t`, or `None` while it is pending.
    pub closed spec fn resolved(self, t: int) -> Option<Outcome> {
        self.slots@[t]
    }

    /// Worker `w`'s pending envelopes, oldest first.
    pub closed spec fn queued(self, w: int) -> Seq<Envelope> {
        self.workers@[w].mailbox.entries()
    }

    /// The envelopes worker `w` has handed to the handler, in dispatch
    /// order.
    pub closed spec fn handled(self, w: int) -> Seq<Envelope> {
        self.workers@[w].handled@
    }

    /// Worker `w`'s private actor state.
    pub closed spec fn worker_state(self, w: int) -> u64 {
        self.workers@[w].state
    }

    /// Worker `w`'s configured mailbox capacity (`0` = unbounded).
    pub closed spec fn mailbox_capacity(self, w: int) -> usize {
        self.workers@[w].mailbox.capacity()
    }

    /// Whether worker `w`'s mailbox has stopped accepting envelopes.
    pub closed spec fn mailbox_closed(self, w: int) -> bool {
        self.workers@[w].mailbox.is_closed()
    }

    /// Whether `a` names a spawned actor. Addresses returned by `spawn`
    /// remain valid for the life of the system.
    pub closed spec fn valid_address(self, a: Address) -> bool {
        a.id() < self.actor_count()
    }

    /// First worker serving actor `a`.
    pub closed spec fn first_worker_of(self, a: int) -> int {
        self.actors@[a].first_worker as int
    }

    /// How many workers serve actor `a`.
    pub closed spec fn workers_of(self, a: int) -> int {
        self.actors@[a].worker_count as int
    }

    /// The worker the next accepted send to actor `a` is routed to.
    pub closed spec fn target_worker(self, a: int) -> int {
        self.first_worker_of(a) + self.actors@[a].next_offset as int
    }

    /// The worker owning pending ticket `t` (meaningful while `t` is
    /// pending).
    spec fn owner_at(self, t: int) -> int {
        self.owner@[t]
    }

    /// Whether the system admits new envelopes and new actors at all.
    pub open spec fn accepting(self) -> bool {
        self.sys_state() is Starting || self.sys_state() is Running
    }

    /// Whether a send to actor `a` can be accepted: the system is live and
    /// the actor itself has not stopped.
    pub open spec fn can_accept(self, a: int) -> bool {
        self.accepting() && !self.mailbox_closed(self.target_worker(a))
    }

    /// Whether a non-blocking send to actor `a` would be rejected for want
    /// of capacity.
    pub open spec fn target_full(self, a: int) -> bool {
        let w = self.target_worker(a);
        self.mailbox_capacity(w) > 0 && self.queued(w).len() >= self.mailbox_capacity(w) as int
    }

    /// The ticket of the `i`-th envelope queued at worker `w`.
    pub open spec fn ticket_at(self, w: int, i: int) -> int {
        self.queued(w)[i].ticket as int
    }

    /// Registry entries are sound: every actor has at least one worker, its
    /// worker range lies inside the worker table, and its round-robin
    /// cursor points into that range.
    spec fn wf_actors(self) -> bool {
        forall|a: int|
            #![trigger self.workers_of(a)]
            #![trigger self.target_worker(a)]
            0 <= a < self.actor_count() ==> {
                &&& 1 <= self.workers_of(a)
                &&& 0 <= self.first_worker_of(a)
                &&& self.first_worker_of(a) + self.workers_of(a) <= self.worker_count()
                &&& self.first_worker_of(a) <= self.target_worker(a) < self.first_worker_of(a)
                    + self.workers_of(a)
            }
    }

    /// Queues respect their capacity bound, and a closed mailbox has
    /// already been drained.
    spec fn wf_queues(self) -> bool {
        forall|w: int|
            0 <= w < self.worker_count() ==> {
                &&& self.mailbox_capacity(w) > 0 ==> (#[trigger] self.queued(w)).len()
                    <= self.mailbox_capacity(w) as int
                &&& self.mailbox_closed(w) ==> self.queued(w).len() == 0
            }
    }

    /// Every queued envelope holds a live, still-pending ticket owned by
    /// its own worker, and each queue grows in ticket order (so a ticket
    /// appears at most once anywhere).
    spec fn wf_tickets(self) -> bool {
        &&& forall|w: int, i: int|
            0 <= w < self.worker_count() && 0 <= i < self.queued(w).len() ==> {
                &&& 0 <= #[trigger] self.ticket_at(w, i) < self.ticket_count()
                &&& self.resolved(self.ticket_at(w, i)) is None
                &&& self.owner@.contains_key(self.ticket_at(w, i))
                &&& self.owner@[self.ticket_at(w, i)] == w
            }
        &&& forall|w: int, i: int, j: int|
            0 <= w < self.worker_count() && 0 <= i < j < self.queued(w).len()
                ==> #[trigger] self.ticket_at(w, i) < #[trigger] self.ticket_at(w, j)
    }

    /// The envelope of ticket `t` is still queued at worker `w`.
    pub open spec fn pending_at(self, t: int, w: int) -> bool {
        exists|i: int| 0 <= i < self.queued(w).len() && #[trigger] self.ticket_at(w, i) == t
    }

    /// Every pending ticket is queued at the worker that owns it: no
    /// envelope is ever silently dropped.
    spec fn wf_pending(self) -> bool {
        forall|t: int|
            0 <= t < self.ticket_count() && (#[trigger] self.resolved(t)) is None ==> {
                &&& self.owner@.contains_key(t)
                &&& 0 <= self.owner@[t] < self.worker_count()
                &&& self.pending_at(t, self.owner@[t])
            }
    }

    /// A stopped system has every mailbox closed (and hence, by
    /// `wf_queues`, drained).
    spec fn wf_lifecycle(self) -> bool {
        self.sys_state() is Stopped ==> forall|w: int|
            0 <= w < self.worker_count() ==> #[trigger] self.mailbox_closed(w)
    }

    /// Well-formedness: the single-writer, resolve-once discipline that
    /// every operation of the runtime preserves.
    pub closed spec fn wf(self) -> bool {
        &&& self.wf_actors()
        &&& self.wf_queues()
        &&& self.wf_tickets()
        &&& self.wf_pending()
        &&& self.wf_lifecycle()
    }

    /// A fresh system: no actors, no tickets, ready to register actors.
    pub fn new() -> (s: System)
        ensures
            s.wf(),
            s.sys_state() is Starting,
            s.actor_count() == 0,
            s.worker_count() == 0,
            s.ticket_count() == 0,
    {
        System {
            actors: Vec::new(),
            workers: Vec::new(),
            slots: Vec::new(),
            state: SystemState::Starting,
            owner: Ghost(Map::empty()),
        }
    }

    /// Leave `Starting` for normal operation. Registration and dispatch are
    /// allowed in both states; this transition only marks the boundary of
    /// the bootstrap phase.
    pub fn start(&mut self)
        requires
            old(self).wf(),
        ensures
            final(self).wf(),
            old(self).sys_state() is Starting ==> final(self).sys_state() is Running,
            !(old(self).sys_state() is Starting) ==> final(self).sys_state() == old(
                self,
            ).sys_state(),
            final(self).same_but_state(*old(self)),
    {
        if matches!(self.state, SystemState::Starting) {
            self.state = SystemState::Running;
            proof {
                lemma_wf_same_fields(*old(self), *self);
            }
        }
    }

    /// Number of workers a spawn with `config` creates: `worker_count`,
    /// with `0` treated as `1`.
    pub open spec fn spawn_workers(config: SpawnConfig) -> int {
        if config.worker_count == 0 {
            1int
        } else {
            config.worker_count as int
        }
    }

    /// Register a new actor: `config.worker_count` fresh workers (at least
    /// one), each with private state `initial_state` and its own empty
    /// mailbox of `config.mailbox_capacity`, under a fresh address.
    ///
    /// Once the system is stopping or stopped, no new actor may be
    /// registered and the call returns `None`.
    pub fn spawn(&mut self, initial_state: u64, config: SpawnConfig) -> (r: Option<Address>)
        requires
            old(self).wf(),
            old(self).worker_count() + System::spawn_workers(config) <= usize::MAX,
        ensures
            final(self).wf(),
            !old(self).accepting() ==> r is None && *final(self) == *old(self),
            old(self).accepting() ==> (r matches Some(addr) && spawn_post(
                *old(self),
                *final(self),
                addr,
                initial_state,
                config,
            )),
    {
        if !matches!(self.state, SystemState::Starting | SystemState::Running) {
            return None;
        }
        let k: usize = if config.worker_count == 0 {
            1
        } else {
            config.worker_count
        };
        let first = self.workers.len();
        let mut i: usize = 0;
        while i < k
            invariant
                i <= k,
                self.workers.len() == first + i,
                first == old(self).worker_count(),
                k == System::spawn_workers(config),
                self.actors == old(self).actors,
                self.slots == old(self).slots,
                self.owner == old(self).owner,
                self.state == old(self).state,
                old(self).accepting(),
                forall|w: int| 0 <= w < first ==> self.workers@[w] == old(self).workers@[w],
                forall|w: int|
                    first <= w < self.workers.len() ==> {
                        &&& (#[trigger] self.queued(w)).len() == 0
                        &&& self.handled(w).len() == 0
                        &&& self.worker_state(w) == initial_state
                        &&& self.mailbox_capacity(w) == config.mailbox_capacity
                        &&& !self.mailbox_closed(w)
                    },
            decreases k - i,
        {
            let ghost prev = *self;
            self.workers.push(
                Worker {
                    state: initial_state,
                    mailbox: Mailbox::new(config.mailbox_capacity),
                    handled: Ghost(Seq::empty()),
                },
            );
            i = i + 1;
            proof {
                assert forall|w: int| 0 <= w < first implies self.workers@[w] == old(
                    self,
                ).workers@[w] by {
                    assert(self.workers@[w] == prev.workers@[w]);
                }
                assert forall|w: int| first <= w < self.workers.len() implies {
                    &&& (#[trigger] self.queued(w)).len() == 0
                    &&& self.handled(w).len() == 0
                    &&& self.worker_state(w) == initial_state
                    &&& self.mailbox_capacity(w) == config.mailbox_capacity
                    &&& !self.mailbox_closed(w)
                } by {
                    if w < self.workers.len() - 1 {
                        assert(self.workers@[w] == prev.workers@[w]);
                        assert(prev.queued(w).len() == 0);
                    }
                }
            }
        }
        let a = self.actors.len();
        let ghost mid = *self;
        self.actors.push(ActorEntry { first_worker: first, worker_count: k, next_offset: 0 });
        proof {
            assert forall|w: int| 0 <= w < first implies {
                &&& #[trigger] self.queued(w) == old(self).queued(w)
                &&& self.handled(w) == old(self).handled(w)
                &&& self.worker_state(w) == old(self).worker_state(w)
                &&& self.mailbox_capacity(w) == old(self).mailbox_capacity(w)
                &&& self.mailbox_closed(w) == old(self).mailbox_closed(w)
            } by {
                assert(self.workers@[w] == mid.workers@[w]);
                assert(mid.workers@[w] == old(self).workers@[w]);
            }
            assert forall|w: int| first <= w < self.workers.len() implies {
                &&& (#[trigger] self.queued(w)).len() == 0
                &&& self.handled(w).len() == 0
                &&& self.worker_state(w) == initial_state
                &&& self.mailbox_capacity(w) == config.mailbox_capacity
                &&& !self.mailbox_closed(w)
            } by {
                assert(self.workers@[w] == mid.workers@[w]);
                assert(mid.queued(w).len() == 0);
                assert(mid.handled(w).len() == 0);
            }
            assert forall|a2: int| 0 <= a2 < old(self).actor_count() implies {
                &&& #[trigger] self.first_worker_of(a2) == old(self).first_worker_of(a2)
                &&& self.workers_of(a2) == old(self).workers_of(a2)
                &&& self.target_worker(a2) == old(self).target_worker(a2)
            } by {
                assert(self.actors@[a2] == mid.actors@[a2]);
            }
            assert forall|t: int| 0 <= t < old(self).ticket_count() implies #[trigger] self.resolved(
                t,
            ) == old(self).resolved(t) by {
                assert(self.slots@ == old(self).slots@);
            }
            assert(self.first_worker_of(a as int) == first);
            assert(self.workers_of(a as int) == k);
            assert(self.target_worker(a as int) == first);
            lemma_wf_grown(*old(self), *self, first as int, k as int);
        }
        Some(Address { actor: a })
    }

    /// Write outcome `o` into reply slot `t`, leaving every other field of
    /// the system alone.
    fn set_slot(&mut self, t: usize, o: Outcome)
        requires
            t < old(self).slots.len(),
        ensures
            final(self).slots@ == old(self).slots@.update(t as int, Some(o)),
            final(self).actors == old(self).actors,
            final(self).workers == old(self).workers,
            final(self).state == old(self).state,
            final(self).owner == old(self).owner,
    {
        let slot = &mut self.slots[t];
        *slot = Some(o);
    }

    /// Non-blocking send: enqueue `req` for actor `addr` and return a
    /// handle for the reply, failing fast instead of waiting.
    ///
    /// The result is exact: `MailboxClosed` if and only if the system is
    /// stopping/stopped or the actor's mailbox has closed; `MailboxFull` if
    /// and only if the target is live but its bounded mailbox is at
    /// capacity; otherwise the envelope is accepted under a fresh ticket.
    /// A rejected send changes nothing at all.
    pub fn try_send(&mut self, addr: Address, req: Request) -> (r: Result<ReplyHandle, SendError>)
        requires
            old(self).wf(),
            old(self).valid_address(addr),
        ensures
            final(self).wf(),
            final(self).valid_address(addr),
            !old(self).can_accept(addr.id()) ==> r == Err::<ReplyHandle, SendError>(
                SendError::MailboxClosed,
            ) && *final(self) == *old(self),
            old(self).can_accept(addr.id()) && old(self).target_full(addr.id()) ==> r == Err::<
                ReplyHandle,
                SendError,
            >(SendError::MailboxFull) && *final(self) == *old(self),
            old(self).can_accept(addr.id()) && !old(self).target_full(addr.id()) ==> (r matches Ok(
                h,
            ) && h.ticket() == old(self).ticket_count() && accept_post(
                *old(self),
                *final(self),
                addr.id(),
                req,
            )),
    {
        if !matches!(self.state, SystemState::Starting | SystemState::Running) {
            return Err(SendError::MailboxClosed);
        }
        let aidx = addr.actor;
        let first = self.actors[aidx].first_worker;
        let off = self.actors[aidx].next_offset;
        let cnt = self.actors[aidx].worker_count;
        proof {
            assert(self.workers_of(aidx as int) == cnt as int);
            assert(self.target_worker(aidx as int) == (first as int) + (off as int));
            assert((first as int) + (off as int) < self.worker_count());
        }
        let w = first + off;
        if self.workers[w].mailbox.is_closed_value() {
            return Err(SendError::MailboxClosed);
        }
        let cap = self.workers[w].mailbox.capacity_value();
        if cap > 0 && self.workers[w].mailbox.len() >= cap {
            return Err(SendError::MailboxFull);
        }
        let t = self.slots.len();
        let mut wk = self.workers.remove(w);
        let res = wk.mailbox.push(Envelope { ticket: t, req });
        self.workers.insert(w, wk);
        assert(res is Ok);
        self.slots.push(None);
        let mut ent = self.actors.remove(aidx);
        ent.next_offset = if off + 1 == cnt {
            0
        } else {
            off + 1
        };
        self.actors.insert(aidx, ent);
        self.owner = Ghost(self.owner@.insert(t as int, w as int));
        proof {
            assert(self.workers@ =~= old(self).workers@.update(
                w as int,
                self.workers@[w as int],
            ));
            assert(self.actors@ =~= old(self).actors@.update(aidx as int, ent));
            assert forall|w2: int|
                0 <= w2 < old(self).worker_count() && w2 != w as int implies #[trigger] self.queued(
                w2,
            ) == old(self).queued(w2) by {
                assert(self.workers@[w2] == old(self).workers@[w2]);
            }
            assert forall|w2: int| 0 <= w2 < old(self).worker_count() implies {
                &&& #[trigger] self.handled(w2) == old(self).handled(w2)
                &&& self.worker_state(w2) == old(self).worker_state(w2)
                &&& self.mailbox_capacity(w2) == old(self).mailbox_capacity(w2)
                &&& self.mailbox_closed(w2) == old(self).mailbox_closed(w2)
            } by {
                if w2 != w as int {
                    assert(self.workers@[w2] == old(self).workers@[w2]);
                }
            }
            assert forall|t2: int| 0 <= t2 < old(self).ticket_count() implies #[trigger] self.resolved(
                t2,
            ) == old(self).resolved(t2) by {
                assert(self.slots@ == old(self).slots@.push(None));
            }
            assert forall|a2: int| 0 <= a2 < old(self).actor_count() implies {
                &&& #[trigger] self.first_worker_of(a2) == old(self).first_worker_of(a2)
                &&& self.workers_of(a2) == old(self).workers_of(a2)
            } by {
                if a2 != aidx as int {
                    assert(self.actors@[a2] == old(self).actors@[a2]);
                }
            }
            assert forall|a2: int|
                0 <= a2 < old(self).actor_count() && a2 != aidx as int implies #[trigger] self.target_worker(
                a2,
            ) == old(self).target_worker(a2) by {
                assert(self.actors@[a2] == old(self).actors@[a2]);
            }
            assert(self.target_worker(aidx as int) == old(self).first_worker_of(aidx as int) + (
            old(self).target_worker(aidx as int) - old(self).first_worker_of(aidx as int)
                + 1) % old(self).workers_of(aidx as int)) by {
                let k = old(self).workers_of(aidx as int);
                assert(0 <= (off as int) < k);
                if off as int + 1 == k {
                    assert((off as int + 1) % k == 0) by (nonlinear_arith)
                        requires k >= 1 && off as int + 1 == k;
                } else {
                    assert((off as int + 1) % k == off as int + 1) by (nonlinear_arith)
                        requires 0 <= (off as int) + 1 < k;
                }
            }
            assert(accept_post(*old(self), *self, addr.id(), req));
            lemma_wf_accept(*old(self), *self, addr.id(), req);
        }
        Ok(ReplyHandle { ticket: t })
    }

    /// One scheduling step for worker `w`: dispatch the envelope that has
    /// waited longest, if any.
    ///
    /// This is the loop body of the runtime: dequeue one envelope, invoke
    /// the handler with exclusive access to the worker's state, convert a
    /// handler error into `Outcome::HandlerFailure` (the actor survives),
    /// and resolve the envelope's reply slot. An empty mailbox makes the
    /// step a no-op.
    pub fn step_worker(&mut self, w: usize) -> (progressed: bool)
        requires
            old(self).wf(),
            w < old(self).worker_count(),
        ensures
            final(self).wf(),
            old(self).queued(w as int).len() == 0 ==> !progressed && *final(self) == *old(self),
            old(self).queued(w as int).len() > 0 ==> progressed && dispatch_post(
                *old(self),
                *final(self),
                w as int,
            ),
    {
        if self.workers[w].mailbox.len() == 0 {
            return false;
        }
        let ghost pre = *old(self);
        proof {
            assert(pre.mailbox_capacity(w as int) > 0 ==> pre.queued(w as int).len()
                <= pre.mailbox_capacity(w as int) as int);
            assert(0 <= pre.ticket_at(w as int, 0) < pre.ticket_count());
        }
        let mut wk = self.workers.remove(w);
        assert(wk.mailbox.wf());
        let e = wk.mailbox.pop().unwrap();
        let res = crate::handler::handle(&mut wk.state, e.req);
        wk.handled = Ghost(wk.handled@.push(e));
        self.workers.insert(w, wk);
        let o = match res {
            Ok(v) => Outcome::Success(v),
            Err(c) => Outcome::HandlerFailure(c),
        };
        assert(e.ticket < self.slots.len());
        self.set_slot(e.ticket, o);
        self.owner = Ghost(self.owner@.remove(e.ticket as int));
        proof {
            assert(self.workers@ =~= pre.workers@.update(w as int, self.workers@[w as int]));
            assert forall|w2: int|
                0 <= w2 < pre.worker_count() && w2 != w as int implies {
                &&& #[trigger] self.queued(w2) == pre.queued(w2)
                &&& self.handled(w2) == pre.handled(w2)
                &&& self.worker_state(w2) == pre.worker_state(w2)
                &&& self.mailbox_capacity(w2) == pre.mailbox_capacity(w2)
                &&& self.mailbox_closed(w2) == pre.mailbox_closed(w2)
            } by {
                assert(self.workers@[w2] == pre.workers@[w2]);
            }
            assert forall|t2: int|
                0 <= t2 < pre.ticket_count() && t2 != e.ticket as int
                implies #[trigger] self.resolved(t2) == pre.resolved(t2) by {
                assert(self.slots@ == pre.slots@.update(e.ticket as int, Some(o)));
            }
            assert forall|a2: int| 0 <= a2 < pre.actor_count() implies {
                &&& #[trigger] self.first_worker_of(a2) == pre.first_worker_of(a2)
                &&& self.workers_of(a2) == pre.workers_of(a2)
                &&& self.target_worker(a2) == pre.target_worker(a2)
            } by {
                assert(self.actors@[a2] == pre.actors@[a2]);
            }
            assert(dispatch_post(pre, *self, w as int));
            lemma_wf_dispatch(pre, *self, w as int);
        }
        true
    }

    /// Close worker `w`'s mailbox and fail everything it still holds with
    /// outcome `o`: every queued envelope resolves without reaching the
    /// handler, so no caller awaiting a reply is left hanging.
    fn drain_worker(&mut self, w: usize, o: Outcome)
        requires
            old(self).wf(),
            w < old(self).worker_count(),
        ensures
            final(self).wf(),
            worker_failed_post(*old(self), *final(self), w as int, o),
    {
        let ghost pre = *old(self);
        proof {
            assert(pre.mailbox_capacity(w as int) > 0 ==> pre.queued(w as int).len()
                <= pre.mailbox_capacity(w as int) as int);
        }
        let mut wk = self.workers.remove(w);
        assert(wk.mailbox.wf());
        wk.mailbox.close();
        let ghost q = pre.queued(w as int);
        let ghost mut k: int = 0;
        while wk.mailbox.len() > 0
            invariant
                0 <= k <= q.len(),
                wk.mailbox.wf(),
                wk.mailbox.is_closed(),
                wk.mailbox.capacity() == pre.mailbox_capacity(w as int),
                wk.mailbox.entries() == q.skip(k),
                wk.state == pre.worker_state(w as int),
                wk.handled@ == pre.handled(w as int),
                w < pre.worker_count(),
                pre.wf(),
                q == pre.queued(w as int),
                self.workers@ == pre.workers@.remove(w as int),
                self.actors == pre.actors,
                self.state == pre.state,
                self.owner == pre.owner,
                self.slots@.len() == pre.slots@.len(),
                forall|i: int|
                    0 <= i < k ==> self.slots@[#[trigger] pre.ticket_at(w as int, i)] == Some(o),
                forall|t: int|
                    0 <= t < pre.ticket_count() && !pre.pending_at(t, w as int)
                        ==> self.slots@[t] == pre.slots@[t],
            decreases wk.mailbox.entries().len(),
        {
            let e = wk.mailbox.pop().unwrap();
            proof {
                assert(wk.mailbox.entries() =~= q.skip(k + 1));
                assert(e == q[k]);
                assert(e.ticket as int == pre.ticket_at(w as int, k));
                assert(0 <= pre.ticket_at(w as int, k) < pre.ticket_count());
            }
            let ghost slots_before = self.slots@;
            self.set_slot(e.ticket, o);
            proof {
                k = k + 1;
                assert forall|i: int|
                    0 <= i < k implies self.slots@[#[trigger] pre.ticket_at(w as int, i)] == Some(
                    o,
                ) by {
                    if i < k - 1 {
                        assert(pre.ticket_at(w as int, i) < pre.ticket_at(w as int, k - 1));
                        assert(self.slots@[pre.ticket_at(w as int, i)] == slots_before[pre.ticket_at(
                            w as int,
                            i,
                        )]);
                    }
                }
                assert(pre.pending_at(pre.ticket_at(w as int, k - 1), w as int));
                assert forall|t: int|
                    0 <= t < pre.ticket_count() && !pre.pending_at(t, w as int) implies self.slots@[t]
                    == pre.slots@[t] by {
                    assert(t != pre.ticket_at(w as int, k - 1));
                    assert(self.slots@[t] == slots_before[t]);
                }
            }
        }
        proof {
            assert(q.skip(k).len() == 0);
            assert(k == q.len());
        }
        let ghost wk_final = wk;
        self.workers.insert(w, wk);
        proof {
            assert(self.workers@ =~= pre.workers@.update(w as int, wk_final));
            assert forall|w2: int|
                0 <= w2 < pre.worker_count() && w2 != w as int implies {
                &&& #[trigger] self.queued(w2) == pre.queued(w2)
                &&& self.handled(w2) == pre.handled(w2)
                &&& self.worker_state(w2) == pre.worker_state(w2)
                &&& self.mailbox_capacity(w2) == pre.mailbox_capacity(w2)
                &&& self.mailbox_closed(w2) == pre.mailbox_closed(w2)
            } by {
                assert(self.workers@[w2] == pre.workers@[w2]);
            }
            assert forall|a2: int| 0 <= a2 < pre.actor_count() implies {
                &&& #[trigger] self.first_worker_of(a2) == pre.first_worker_of(a2)
                &&& self.workers_of(a2) == pre.workers_of(a2)
                &&& self.target_worker(a2) == pre.target_worker(a2)
            } by {
                assert(self.actors@[a2] == pre.actors@[a2]);
            }
            assert(worker_failed_post(pre, *self, w as int, o));
            lemma_wf_drained(pre, *self, w as int, o);
        }
    }

    /// Tear the whole system down: enter `Stopping`, close every mailbox,
    /// resolve every still-queued envelope with `Outcome::MailboxClosed`
    /// (no handler runs during shutdown), and end `Stopped`.
    ///
    /// Already-resolved reply slots are untouched, actor states and
    /// dispatch histories survive for inspection, and afterwards every
    /// ticket ever issued has its terminal outcome: no caller hangs.
    pub fn stop(&mut self)
        requires
            old(self).wf(),
        ensures
            final(self).wf(),
            stop_post(*old(self), *final(self)),
    {
        if matches!(self.state, SystemState::Stopped) {
            proof {
                lemma_stopped_all_resolved(*self);
            }
            return ;
        }
        self.state = SystemState::Stopping;
        proof {
            lemma_wf_same_fields(*old(self), *self);
        }
        let ghost pre = *old(self);
        let n = self.workers.len();
        let mut w: usize = 0;
        while w < n
            invariant
                w <= n,
                n == pre.worker_count(),
                self.wf(),
                self.sys_state() is Stopping,
                self.actor_count() == pre.actor_count(),
                self.worker_count() == pre.worker_count(),
                self.ticket_count() == pre.ticket_count(),
                pre.wf(),
                forall|a2: int|
                    #![trigger self.first_worker_of(a2)]
                    #![trigger self.workers_of(a2)]
                    #![trigger self.target_worker(a2)]
                    0 <= a2 < pre.actor_count() ==> {
                        &&& self.first_worker_of(a2) == pre.first_worker_of(a2)
                        &&& self.workers_of(a2) == pre.workers_of(a2)
                        &&& self.target_worker(a2) == pre.target_worker(a2)
                    },
                forall|w2: int|
                    #![trigger self.queued(w2)]
                    #![trigger self.mailbox_closed(w2)]
                    0 <= w2 < w ==> self.queued(w2).len() == 0 && self.mailbox_closed(w2),
                forall|w2: int|
                    #![trigger self.queued(w2)]
                    #![trigger self.mailbox_closed(w2)]
                    w <= w2 < n ==> self.queued(w2) == pre.queued(w2) && self.mailbox_closed(w2)
                        == pre.mailbox_closed(w2),
                forall|w2: int|
                    #![trigger self.handled(w2)]
                    #![trigger self.worker_state(w2)]
                    #![trigger self.mailbox_capacity(w2)]
                    0 <= w2 < n ==> {
                        &&& self.handled(w2) == pre.handled(w2)
                        &&& self.worker_state(w2) == pre.worker_state(w2)
                        &&& self.mailbox_capacity(w2) == pre.mailbox_capacity(w2)
                    },
                forall|t: int|
                    0 <= t < pre.ticket_count() && pre.resolved(t) is Some
                        ==> #[trigger] self.resolved(t) == pre.resolved(t),
                forall|t: int|
                    0 <= t < pre.ticket_count() && pre.resolved(t) is None && pre.owner@[t]
                        < w ==> #[trigger] self.resolved(t) == Some(Outcome::MailboxClosed),
                forall|t: int|
                    0 <= t < pre.ticket_count() && pre.resolved(t) is None && pre.owner@[t]
                        >= w ==> #[trigger] self.resolved(t) == pre.resolved(t),
            decreases n - w,
        {
            let ghost mid = *self;
            self.drain_worker(w, Outcome::MailboxClosed);
            proof {
                assert forall|t: int|
                    0 <= t < pre.ticket_count() && pre.resolved(t) is None && pre.owner@[t] < w
                        as int + 1 implies #[trigger] self.resolved(t) == Some(
                    Outcome::MailboxClosed,
                ) by {
                    if pre.owner@[t] < w as int {
                        assert(mid.resolved(t) == Some(Outcome::MailboxClosed));
                        assert(!mid.pending_at(t, w as int)) by {
                            if mid.pending_at(t, w as int) {
                                let j = choose|j: int|
                                    0 <= j < mid.queued(w as int).len() && #[trigger] mid.ticket_at(
                                        w as int,
                                        j,
                                    ) == t;
                                assert(mid.resolved(mid.ticket_at(w as int, j)) is None);
                            }
                        }
                    } else {
                        assert(pre.owner@[t] == w as int);
                        assert(pre.pending_at(t, pre.owner@[t]));
                        assert(mid.queued(w as int) == pre.queued(w as int));
                        let j = choose|j: int|
                            0 <= j < pre.queued(w as int).len() && #[trigger] pre.ticket_at(
                                w as int,
                                j,
                            ) == t;
                        assert(mid.ticket_at(w as int, j) == t);
                        assert(self.resolved(mid.ticket_at(w as int, j)) == Some(
                            Outcome::MailboxClosed,
                        ));
                    }
                }
                assert forall|t: int|
                    0 <= t < pre.ticket_count() && pre.resolved(t) is None && pre.owner@[t] >= w
                        as int + 1 implies #[trigger] self.resolved(t) == pre.resolved(t) by {
                    assert(mid.resolved(t) == pre.resolved(t));
                    assert(!mid.pending_at(t, w as int)) by {
                        if mid.pending_at(t, w as int) {
                            let j = choose|j: int|
                                0 <= j < mid.queued(w as int).len() && #[trigger] mid.ticket_at(
                                    w as int,
                                    j,
                                ) == t;
                            assert(pre.ticket_at(w as int, j) == t);
                            assert(pre.owner@[t] == w as int);
                        }
                    }
                }
                assert forall|t: int|
                    0 <= t < pre.ticket_count() && pre.resolved(t) is Some
                    implies #[trigger] self.resolved(t) == pre.resolved(t) by {
                    assert(mid.resolved(t) == pre.resolved(t));
                    assert(!mid.pending_at(t, w as int)) by {
                        if mid.pending_at(t, w as int) {
                            let j = choose|j: int|
                                0 <= j < mid.queued(w as int).len() && #[trigger] mid.ticket_at(
                                    w as int,
                                    j,
                                ) == t;
                            assert(mid.resolved(mid.ticket_at(w as int, j)) is None);
                        }
                    }
                }
            }
            w = w + 1;
        }
        let ghost done = *self;
        self.state = SystemState::Stopped;
        proof {
            lemma_wf_same_fields(done, *self);
            assert forall|w2: int|
                #![trigger self.queued(w2)]
                #![trigger self.mailbox_closed(w2)]
                0 <= w2 < pre.worker_count() implies {
                &&& self.queued(w2).len() == 0
                &&& self.mailbox_closed(w2)
            } by {
                assert(self.workers@[w2] == done.workers@[w2]);
                assert(done.queued(w2).len() == 0 && done.mailbox_closed(w2));
            }
            assert forall|w2: int|
                #![trigger self.handled(w2)]
                #![trigger self.worker_state(w2)]
                #![trigger self.mailbox_capacity(w2)]
                0 <= w2 < pre.worker_count() implies {
                &&& self.handled(w2) == pre.handled(w2)
                &&& self.worker_state(w2) == pre.worker_state(w2)
                &&& self.mailbox_capacity(w2) == pre.mailbox_capacity(w2)
            } by {
                assert(self.workers@[w2] == done.workers@[w2]);
                assert(done.handled(w2) == pre.handled(w2));
                assert(done.worker_state(w2) == pre.worker_state(w2));
                assert(done.mailbox_capacity(w2) == pre.mailbox_capacity(w2));
            }
            assert forall|a2: int| 0 <= a2 < pre.actor_count() implies {
                &&& #[trigger] self.first_worker_of(a2) == pre.first_worker_of(a2)
                &&& self.workers_of(a2) == pre.workers_of(a2)
                &&& self.target_worker(a2) == pre.target_worker(a2)
            } by {
                assert(self.actors@[a2] == done.actors@[a2]);
                assert(done.first_worker_of(a2) == pre.first_worker_of(a2));
                assert(done.workers_of(a2) == pre.workers_of(a2));
                assert(done.target_worker(a2) == pre.target_worker(a2));
            }
            assert(self.slots@ == done.slots@);
            assert forall|t: int|
                0 <= t < pre.ticket_count() && pre.resolved(t) is None
                implies #[trigger] self.resolved(t) == Some(Outcome::MailboxClosed) by {
                assert(0 <= pre.owner@[t] < pre.worker_count());
                assert(done.resolved(t) == Some(Outcome::MailboxClosed));
            }
            assert forall|t: int|
                0 <= t < pre.ticket_count() && pre.resolved(t) is Some
                implies #[trigger] self.resolved(t) == pre.resolved(t) by {
                assert(done.resolved(t) == pre.resolved(t));
            }
        }
    }

    /// Stop one actor while the rest of the system keeps running: close all
    /// of its mailboxes and resolve everything still queued for it with
    /// `Outcome::ActorStopped`. Later sends to this address fail with
    /// `SendError::MailboxClosed`; other actors are untouched.
    pub fn stop_actor(&mut self, addr: Address)
        requires
            old(self).wf(),
            old(self).valid_address(addr),
        ensures
            final(self).wf(),
            stop_actor_post(*old(self), *final(self), addr.id()),
    {
        let ghost pre = *old(self);
        let aidx = addr.actor;
        let first = self.actors[aidx].first_worker;
        let cnt = self.actors[aidx].worker_count;
        proof {
            assert(pre.workers_of(aidx as int) == cnt as int);
            assert((first as int) + (cnt as int) <= pre.worker_count());
        }
        let mut i: usize = 0;
        while i < cnt
            invariant
                i <= cnt,
                first as int == pre.first_worker_of(aidx as int),
                cnt as int == pre.workers_of(aidx as int),
                aidx as int == addr.id(),
                0 <= addr.id() < pre.actor_count(),
                (first as int) + (cnt as int) <= pre.worker_count(),
                self.wf(),
                self.sys_state() == pre.sys_state(),
                self.actor_count() == pre.actor_count(),
                self.worker_count() == pre.worker_count(),
                self.ticket_count() == pre.ticket_count(),
                pre.wf(),
                forall|a2: int|
                    #![trigger self.first_worker_of(a2)]
                    #![trigger self.workers_of(a2)]
                    #![trigger self.target_worker(a2)]
                    0 <= a2 < pre.actor_count() ==> {
                        &&& self.first_worker_of(a2) == pre.first_worker_of(a2)
                        &&& self.workers_of(a2) == pre.workers_of(a2)
                        &&& self.target_worker(a2) == pre.target_worker(a2)
                    },
                forall|w2: int|
                    #![trigger self.queued(w2)]
                    #![trigger self.mailbox_closed(w2)]
                    first as int <= w2 < first as int + i ==> self.queued(w2).len() == 0
                        && self.mailbox_closed(w2),
                forall|w2: int|
                    #![trigger self.queued(w2)]
                    #![trigger self.mailbox_closed(w2)]
                    0 <= w2 < pre.worker_count() && !(first as int <= w2 < first as int + i)
                        ==> self.queued(w2) == pre.queued(w2) && self.mailbox_closed(w2)
                        == pre.mailbox_closed(w2),
                forall|w2: int|
                    #![trigger self.handled(w2)]
                    #![trigger self.worker_state(w2)]
                    #![trigger self.mailbox_capacity(w2)]
                    0 <= w2 < pre.worker_count() ==> {
                        &&& self.handled(w2) == pre.handled(w2)
                        &&& self.worker_state(w2) == pre.worker_state(w2)
                        &&& self.mailbox_capacity(w2) == pre.mailbox_capacity(w2)
                    },
                forall|t: int|
                    0 <= t < pre.ticket_count() && pre.resolved(t) is None && first as int
                        <= pre.owner@[t] < first as int + i ==> #[trigger] self.resolved(t) == Some(
                        Outcome::ActorStopped,
                    ),
                forall|t: int|
                    0 <= t < pre.ticket_count() && !(first as int <= pre.owner@[t] < first as int
                        + i && pre.resolved(t) is None) ==> #[trigger] self.resolved(t)
                        == pre.resolved(t),
            decreases cnt - i,
        {
            let ghost mid = *self;
            let w = first + i;
            self.drain_worker(w, Outcome::ActorStopped);
            proof {
                assert forall|t: int|
                    0 <= t < pre.ticket_count() && pre.resolved(t) is None && first as int
                        <= pre.owner@[t] < first as int + (i as int) + 1 implies #[trigger] self.resolved(
                    t,
                ) == Some(Outcome::ActorStopped) by {
                    if pre.owner@[t] < first as int + i as int {
                        assert(mid.resolved(t) == Some(Outcome::ActorStopped));
                        assert(!mid.pending_at(t, w as int)) by {
                            if mid.pending_at(t, w as int) {
                                let j = choose|j: int|
                                    0 <= j < mid.queued(w as int).len() && #[trigger] mid.ticket_at(
                                        w as int,
                                        j,
                                    ) == t;
                                assert(mid.resolved(mid.ticket_at(w as int, j)) is None);
                            }
                        }
                    } else {
                        assert(pre.owner@[t] == w as int);
                        assert(pre.pending_at(t, pre.owner@[t]));
                        assert(mid.queued(w as int) == pre.queued(w as int));
                        let j = choose|j: int|
                            0 <= j < pre.queued(w as int).len() && #[trigger] pre.ticket_at(
                                w as int,
                                j,
                            ) == t;
                        assert(mid.ticket_at(w as int, j) == t);
                        assert(self.resolved(mid.ticket_at(w as int, j)) == Some(
                            Outcome::ActorStopped,
                        ));
                    }
                }
                assert forall|t: int|
                    0 <= t < pre.ticket_count() && !(first as int <= pre.owner@[t] < first as int
                        + (i as int) + 1 && pre.resolved(t) is None) implies #[trigger] self.resolved(
                    t,
                ) == pre.resolved(t) by {
                    assert(mid.resolved(t) == pre.resolved(t));
                    assert(!mid.pending_at(t, w as int)) by {
                        if mid.pending_at(t, w as int) {
                            let j = choose|j: int|
                                0 <= j < mid.queued(w as int).len() && #[trigger] mid.ticket_at(
                                    w as int,
                                    j,
                                ) == t;
                            assert(pre.ticket_at(w as int, j) == t);
                            assert(pre.owner@[t] == w as int);
                            assert(pre.resolved(t) is None);
                        }
                    }
                }
            }
            i = i + 1;
        }
    }

    /// Dispatch worker `w`'s queue to idleness: the runtime loop of one
    /// execution context, processing envelope after envelope in FIFO order
    /// until the mailbox is empty.
    fn dispatch_worker(&mut self, w: usize)
        requires
            old(self).wf(),
            w < old(self).worker_count(),
        ensures
            final(self).wf(),
            worker_idle_post(*old(self), *final(self), w as int),
    {
        let ghost base = *old(self);
        let ghost q = base.queued(w as int);
        let ghost s0 = base.worker_state(w as int);
        let ghost mut k: int = 0;
        while self.workers[w].mailbox.len() > 0
            invariant
                0 <= k <= q.len(),
                w < base.worker_count(),
                base.wf(),
                self.wf(),
                q == base.queued(w as int),
                s0 == base.worker_state(w as int),
                self.sys_state() == base.sys_state(),
                self.actor_count() == base.actor_count(),
                self.worker_count() == base.worker_count(),
                self.ticket_count() == base.ticket_count(),
                self.queued(w as int) == q.skip(k),
                self.handled(w as int) == base.handled(w as int) + q.take(k),
                self.worker_state(w as int) == fold_state(s0, q.take(k)),
                self.mailbox_capacity(w as int) == base.mailbox_capacity(w as int),
                self.mailbox_closed(w as int) == base.mailbox_closed(w as int),
                forall|w2: int|
                    #![trigger self.queued(w2)]
                    #![trigger self.handled(w2)]
                    #![trigger self.worker_state(w2)]
                    #![trigger self.mailbox_capacity(w2)]
                    #![trigger self.mailbox_closed(w2)]
                    0 <= w2 < base.worker_count() && w2 != w as int ==> {
                        &&& self.queued(w2) == base.queued(w2)
                        &&& self.handled(w2) == base.handled(w2)
                        &&& self.worker_state(w2) == base.worker_state(w2)
                        &&& self.mailbox_capacity(w2) == base.mailbox_capacity(w2)
                        &&& self.mailbox_closed(w2) == base.mailbox_closed(w2)
                    },
                forall|a2: int|
                    #![trigger self.first_worker_of(a2)]
                    #![trigger self.workers_of(a2)]
                    #![trigger self.target_worker(a2)]
                    0 <= a2 < base.actor_count() ==> {
                        &&& self.first_worker_of(a2) == base.first_worker_of(a2)
                        &&& self.workers_of(a2) == base.workers_of(a2)
                        &&& self.target_worker(a2) == base.target_worker(a2)
                    },
                forall|i: int|
                    0 <= i < k ==> self.resolved(#[trigger] base.ticket_at(w as int, i)) == Some(
                        outcome_at(s0, q, i),
                    ),
                forall|t: int|
                    0 <= t < base.ticket_count() && !base.pending_at(t, w as int)
                        ==> #[trigger] self.resolved(t) == base.resolved(t),
            decreases self.queued(w as int).len(),
        {
            let ghost mid = *self;
            let _progressed = self.step_worker(w);
            proof {
                let e = mid.queued(w as int)[0];
                assert(e == q[k]);
                assert(q.skip(k).drop_first() =~= q.skip(k + 1));
                assert(q.take(k + 1) =~= q.take(k).push(q[k]));
                assert((base.handled(w as int) + q.take(k)).push(q[k]) =~= base.handled(w as int)
                    + q.take(k + 1));
                lemma_fold_take_step(s0, q, k);
                k = k + 1;
                assert(self.resolved(base.ticket_at(w as int, k - 1)) == Some(
                    outcome_at(s0, q, k - 1),
                ));
                assert forall|i: int|
                    0 <= i < k implies self.resolved(#[trigger] base.ticket_at(w as int, i))
                    == Some(outcome_at(s0, q, i)) by {
                    if i < k - 1 {
                        assert(base.ticket_at(w as int, i) < base.ticket_at(w as int, k - 1));
                        assert(mid.resolved(base.ticket_at(w as int, i)) == Some(
                            outcome_at(s0, q, i),
                        ));
                    }
                }
                assert(base.pending_at(base.ticket_at(w as int, k - 1), w as int));
                assert forall|t: int|
                    0 <= t < base.ticket_count() && !base.pending_at(t, w as int)
                    implies #[trigger] self.resolved(t) == base.resolved(t) by {
                    assert(t != base.ticket_at(w as int, k - 1));
                    assert(mid.resolved(t) == base.resolved(t));
                }
            }
        }
        proof {
            assert(q.skip(k).len() == 0);
            assert(k == q.len());
            assert(q.take(k) =~= q);
            assert(worker_idle_post(base, *self, w as int));
        }
    }

    /// Process every pending envelope of every worker, in FIFO order per
    /// worker, and return once all mailboxes are empty. This is the
    /// deterministic rendering of the runtime's park-until-work loop: with
    /// no concurrent senders, idleness is reached exactly when everything
    /// queued so far has been dispatched.
    pub fn run_until_idle(&mut self)
        requires
            old(self).wf(),
        ensures
            final(self).wf(),
            idle_post(*old(self), *final(self)),
    {
        let ghost pre = *old(self);
        let n = self.workers.len();
        let mut w: usize = 0;
        while w < n
            invariant
                w <= n,
                n == pre.worker_count(),
                pre.wf(),
                self.wf(),
                self.sys_state() == pre.sys_state(),
                self.actor_count() == pre.actor_count(),
                self.worker_count() == pre.worker_count(),
                self.ticket_count() == pre.ticket_count(),
                forall|a2: int|
                    #![trigger self.first_worker_of(a2)]
                    #![trigger self.workers_of(a2)]
                    #![trigger self.target_worker(a2)]
                    0 <= a2 < pre.actor_count() ==> {
                        &&& self.first_worker_of(a2) == pre.first_worker_of(a2)
                        &&& self.workers_of(a2) == pre.workers_of(a2)
                        &&& self.target_worker(a2) == pre.target_worker(a2)
                    },
                forall|w2: int|
                    #![trigger self.queued(w2)]
                    #![trigger self.handled(w2)]
                    #![trigger self.worker_state(w2)]
                    #![trigger self.mailbox_capacity(w2)]
                    #![trigger self.mailbox_closed(w2)]
                    0 <= w2 < w ==> {
                        &&& self.queued(w2).len() == 0
                        &&& self.handled(w2) == pre.handled(w2) + pre.queued(w2)
                        &&& self.worker_state(w2) == fold_state(
                            pre.worker_state(w2),
                            pre.queued(w2),
                        )
                        &&& self.mailbox_capacity(w2) == pre.mailbox_capacity(w2)
                        &&& self.mailbox_closed(w2) == pre.mailbox_closed(w2)
                    },
                forall|w2: int|
                    #![trigger self.queued(w2)]
                    #![trigger self.handled(w2)]
                    #![trigger self.worker_state(w2)]
                    #![trigger self.mailbox_capacity(w2)]
                    #![trigger self.mailbox_closed(w2)]
                    w <= w2 < n ==> {
                        &&& self.queued(w2) == pre.queued(w2)
                        &&& self.handled(w2) == pre.handled(w2)
                        &&& self.worker_state(w2) == pre.worker_state(w2)
                        &&& self.mailbox_capacity(w2) == pre.mailbox_capacity(w2)
                        &&& self.mailbox_closed(w2) == pre.mailbox_closed(w2)
                    },
                forall|t: int|
                    0 <= t < pre.ticket_count() && pre.resolved(t) is Some
                        ==> #[trigger] self.resolved(t) == pre.resolved(t),
                forall|w2: int, i: int|
                    0 <= w2 < w && 0 <= i < pre.queued(w2).len() ==> self.resolved(
                        #[trigger] pre.ticket_at(w2, i),
                    ) == Some(outcome_at(pre.worker_state(w2), pre.queued(w2), i)),
                forall|t: int|
                    0 <= t < pre.ticket_count() && pre.resolved(t) is None && pre.owner@[t]
                        >= w ==> #[trigger] self.resolved(t) == pre.resolved(t),
                forall|t: int|
                    0 <= t < pre.ticket_count() && pre.resolved(t) is None && pre.owner@[t]
                        < w ==> (#[trigger] self.resolved(t)) is Some,
            decreases n - w,
        {
            let ghost mid = *self;
            self.dispatch_worker(w);
            proof {
                assert(mid.queued(w as int) == pre.queued(w as int));
                assert(mid.worker_state(w as int) == pre.worker_state(w as int));
                assert(mid.handled(w as int) == pre.handled(w as int));
                assert forall|w2: int, i: int|
                    0 <= w2 < w as int + 1 && 0 <= i < pre.queued(w2).len() implies self.resolved(
                    #[trigger] pre.ticket_at(w2, i),
                ) == Some(outcome_at(pre.worker_state(w2), pre.queued(w2), i)) by {
                    if w2 == w as int {
                        assert(mid.ticket_at(w2, i) == pre.ticket_at(w2, i));
                    } else {
                        let t = pre.ticket_at(w2, i);
                        assert(mid.resolved(t) == Some(
                            outcome_at(pre.worker_state(w2), pre.queued(w2), i),
                        ));
                        assert(!mid.pending_at(t, w as int)) by {
                            if mid.pending_at(t, w as int) {
                                let j = choose|j: int|
                                    0 <= j < mid.queued(w as int).len() && #[trigger] mid.ticket_at(
                                        w as int,
                                        j,
                                    ) == t;
                                assert(mid.resolved(mid.ticket_at(w as int, j)) is None);
                            }
                        }
                    }
                }
                assert forall|t: int|
                    0 <= t < pre.ticket_count() && pre.resolved(t) is Some
                    implies #[trigger] self.resolved(t) == pre.resolved(t) by {
                    assert(mid.resolved(t) == pre.resolved(t));
                    assert(!mid.pending_at(t, w as int)) by {
                        if mid.pending_at(t, w as int) {
                            let j = choose|j: int|
                                0 <= j < mid.queued(w as int).len() && #[trigger] mid.ticket_at(
                                    w as int,
                                    j,
                                ) == t;
                            assert(mid.resolved(mid.ticket_at(w as int, j)) is None);
                        }
                    }
                }
                assert forall|t: int|
                    0 <= t < pre.ticket_count() && pre.resolved(t) is None && pre.owner@[t] >= w
                        as int + 1 implies #[trigger] self.resolved(t) == pre.resolved(t) by {
                    assert(mid.resolved(t) == pre.resolved(t));
                    assert(!mid.pending_at(t, w as int)) by {
                        if mid.pending_at(t, w as int) {
                            let j = choose|j: int|
                                0 <= j < mid.queued(w as int).len() && #[trigger] mid.ticket_at(
                                    w as int,
                                    j,
                                ) == t;
                            assert(pre.ticket_at(w as int, j) == t);
                            assert(pre.owner@[t] == w as int);
                        }
                    }
                }
                assert forall|t: int|
                    0 <= t < pre.ticket_count() && pre.resolved(t) is None && pre.owner@[t] < w
                        as int + 1 implies (#[trigger] self.resolved(t)) is Some by {
                    if pre.owner@[t] == w as int {
                        assert(pre.pending_at(t, pre.owner@[t]));
                        let j = choose|j: int|
                            0 <= j < pre.queued(w as int).len() && #[trigger] pre.ticket_at(
                                w as int,
                                j,
                            ) == t;
                        assert(mid.ticket_at(w as int, j) == t);
                        assert(self.resolved(mid.ticket_at(w as int, j)) == Some(
                            outcome_at(
                                mid.worker_state(w as int),
                                mid.queued(w as int),
                                j,
                            ),
                        ));
                    } else {
                        assert(mid.resolved(t) is Some || pre.owner@[t] < w as int);
                        if mid.resolved(t) is Some {
                            assert(!mid.pending_at(t, w as int)) by {
                                if mid.pending_at(t, w as int) {
                                    let j = choose|j: int|
                                        0 <= j < mid.queued(w as int).len()
                                            && #[trigger] mid.ticket_at(w as int, j) == t;
                                    assert(mid.resolved(mid.ticket_at(w as int, j)) is None);
                                }
                            }
                        }
                    }
                }
            }
            w = w + 1;
        }
        proof {
            assert forall|t: int|
                0 <= t < pre.ticket_count() implies (#[trigger] self.resolved(t)) is Some by {
                if pre.resolved(t) is None {
                    assert(0 <= pre.owner@[t] < pre.worker_count());
                } else {
                    assert(self.resolved(t) == pre.resolved(t));
                }
            }
        }
    }

    /// Block until the system is `Stopped`: process everything pending,
    /// then shut down.
    ///
    /// In this sequential runtime no new envelope can arrive while `run`
    /// holds the thread, so reaching idleness and performing the shutdown
    /// transition is exactly the moment a concurrent implementation's
    /// blocking run-loop would return. Every envelope accepted before the
    /// call is processed by its actor's handler (never failed), and every
    /// reply slot ever issued ends with a terminal outcome.
    pub fn run(&mut self)
        requires
            old(self).wf(),
        ensures
            final(self).wf(),
            run_post(*old(self), *final(self)),
    {
        let ghost pre = *old(self);
        self.run_until_idle();
        let ghost mid = *self;
        self.stop();
        proof {
            assert forall|w: int|
                #![trigger self.queued(w)]
                #![trigger self.handled(w)]
                #![trigger self.worker_state(w)]
                #![trigger self.mailbox_capacity(w)]
                0 <= w < pre.worker_count() implies {
                &&& self.queued(w).len() == 0
                &&& self.handled(w) == pre.handled(w) + pre.queued(w)
                &&& self.worker_state(w) == fold_state(pre.worker_state(w), pre.queued(w))
                &&& self.mailbox_capacity(w) == pre.mailbox_capacity(w)
            } by {
                assert(mid.handled(w) == pre.handled(w) + pre.queued(w));
                assert(self.handled(w) == mid.handled(w));
                assert(self.worker_state(w) == mid.worker_state(w));
                assert(self.mailbox_capacity(w) == mid.mailbox_capacity(w));
            }
            assert forall|t: int|
                0 <= t < pre.ticket_count() && pre.resolved(t) is Some
                implies #[trigger] self.resolved(t) == pre.resolved(t) by {
                assert(mid.resolved(t) == pre.resolved(t));
                assert(self.resolved(t) == mid.resolved(t));
            }
            assert forall|w: int, i: int|
                0 <= w < pre.worker_count() && 0 <= i < pre.queued(w).len() implies self.resolved(
                #[trigger] pre.ticket_at(w, i),
            ) == Some(outcome_at(pre.worker_state(w), pre.queued(w), i)) by {
                let t = pre.ticket_at(w, i);
                assert(mid.resolved(t) == Some(outcome_at(pre.worker_state(w), pre.queued(w), i)));
                assert(self.resolved(t) == mid.resolved(t));
            }
            assert forall|t: int|
                0 <= t < pre.ticket_count() implies (#[trigger] self.resolved(t)) is Some by {
                assert(mid.resolved(t) is Some);
                assert(self.resolved(t) == mid.resolved(t));
            }
        }
    }

    /// Send with cooperative backpressure: where `try_send` would fail with
    /// `MailboxFull`, this call first lets the target worker process the
    /// envelope that has waited longest - the sequential rendering of
    /// suspending until capacity is available - and then enqueues.
    ///
    /// On a live target it always returns a reply handle; it fails exactly
    /// when the target no longer accepts envelopes at all.
    pub fn send(&mut self, addr: Address, req: Request) -> (r: Result<ReplyHandle, SendError>)
        requires
            old(self).wf(),
            old(self).valid_address(addr),
        ensures
            final(self).wf(),
            final(self).valid_address(addr),
            !old(self).can_accept(addr.id()) ==> r == Err::<ReplyHandle, SendError>(
                SendError::MailboxClosed,
            ) && *final(self) == *old(self),
            old(self).can_accept(addr.id()) ==> (r matches Ok(h) && h.ticket() == old(
                self,
            ).ticket_count()),
            old(self).can_accept(addr.id()) && !old(self).target_full(addr.id()) ==> accept_post(
                *old(self),
                *final(self),
                addr.id(),
                req,
            ),
            old(self).can_accept(addr.id()) && old(self).target_full(addr.id()) ==> exists|
                m: System,
            |
                #[trigger] dispatch_post(*old(self), m, old(self).target_worker(addr.id()))
                    && accept_post(m, *final(self), addr.id(), req),
    {
        if !matches!(self.state, SystemState::Starting | SystemState::Running) {
            return Err(SendError::MailboxClosed);
        }
        let aidx = addr.actor;
        let first = self.actors[aidx].first_worker;
        let off = self.actors[aidx].next_offset;
        proof {
            assert(self.target_worker(aidx as int) == (first as int) + (off as int));
            assert((first as int) + (off as int) < self.worker_count());
        }
        let w = first + off;
        if self.workers[w].mailbox.is_closed_value() {
            return Err(SendError::MailboxClosed);
        }
        let cap = self.workers[w].mailbox.capacity_value();
        if cap > 0 && self.workers[w].mailbox.len() >= cap {
            let _progressed = self.step_worker(w);
            let ghost m = *self;
            let r = self.try_send(addr, req);
            proof {
                assert(dispatch_post(*old(self), m, old(self).target_worker(addr.id())));
                assert(accept_post(m, *self, addr.id(), req));
            }
            r
        } else {
            self.try_send(addr, req)
        }
    }

    /// The non-suspending variant of `send` for callers that cannot yield:
    /// in this sequential runtime the cooperative wait is itself a plain
    /// call, so the two coincide.
    pub fn send_blocking(&mut self, addr: Address, req: Request) -> (r: Result<
        ReplyHandle,
        SendError,
    >)
        requires
            old(self).wf(),
            old(self).valid_address(addr),
        ensures
            final(self).wf(),
            final(self).valid_address(addr),
            !old(self).can_accept(addr.id()) ==> r == Err::<ReplyHandle, SendError>(
                SendError::MailboxClosed,
            ) && *final(self) == *old(self),
            old(self).can_accept(addr.id()) ==> (r matches Ok(h) && h.ticket() == old(
                self,
            ).ticket_count()),
            old(self).can_accept(addr.id()) && !old(self).target_full(addr.id()) ==> accept_post(
                *old(self),
                *final(self),
                addr.id(),
                req,
            ),
            old(self).can_accept(addr.id()) && old(self).target_full(addr.id()) ==> exists|
                m: System,
            |
                #[trigger] dispatch_post(*old(self), m, old(self).target_worker(addr.id()))
                    && accept_post(m, *final(self), addr.id(), req),
    {
        self.send(addr, req)
    }

    /// Poll a reply handle: `None` while the envelope is still pending,
    /// otherwise the envelope's terminal outcome. The slot, once resolved,
    /// never changes again, so polling is stable; a caller that never polls
    /// merely ignores the slot.
    pub fn poll_reply(&self, h: ReplyHandle) -> (r: Option<Outcome>)
        requires
            0 <= h.ticket() < self.ticket_count(),
        ensures
            r == self.resolved(h.ticket()),
    {
        self.slots[h.ticket]
    }

    /// Whether a send through `addr` can currently be accepted: the
    /// capability stays valid for the life of the system, but it reports
    /// disconnected once its actor or the whole system has stopped.
    pub fn connected(&self, addr: Address) -> (b: bool)
        requires
            self.wf(),
            self.valid_address(addr),
        ensures
            b == self.can_accept(addr.id()),
    {
        if !matches!(self.state, SystemState::Starting | SystemState::Running) {
            return false;
        }
        let aidx = addr.actor;
        let first = self.actors[aidx].first_worker;
        let off = self.actors[aidx].next_offset;
        proof {
            assert(self.target_worker(aidx as int) == (first as int) + (off as int));
            assert((first as int) + (off as int) < self.worker_count());
        }
        let w = first + off;
        !self.workers[w].mailbox.is_closed_value()
    }

    /// Worker `w`'s envelopes in arrival order: first those already
    /// dispatched, then those still pending. Because acceptance appends to
    /// this sequence and dispatch consumes it from the front, it is the
    /// send order of everything routed to this worker.
    pub open spec fn enqueued(self, w: int) -> Seq<Envelope> {
        self.handled(w) + self.queued(w)
    }

    /// Everything except the lifecycle label agrees with `other`.
    pub closed spec fn same_but_state(self, other: System) -> bool {
        &&& self.actors == other.actors
        &&& self.workers == other.workers
        &&& self.slots == other.slots
        &&& self.owner == other.owner
    }
}

/// What `System::spawn` leaves behind when it accepts: one new registry
/// entry whose fresh workers are empty and idle, everything else untouched.
pub open spec fn spawn_post(
    pre: System,
    post: System,
    addr: Address,
    init: u64,
    config: SpawnConfig,
) -> bool {
    let k = System::spawn_workers(config);
    &&& addr.id() == pre.actor_count()
    &&& post.valid_address(addr)
    &&& post.sys_state() == pre.sys_state()
    &&& post.actor_count() == pre.actor_count() + 1
    &&& post.worker_count() == pre.worker_count() + k
    &&& post.ticket_count() == pre.ticket_count()
    &&& post.first_worker_of(addr.id()) == pre.worker_count()
    &&& post.workers_of(addr.id()) == k
    &&& post.target_worker(addr.id()) == pre.worker_count()
    &&& forall|w: int|
        #![trigger post.queued(w)]
        #![trigger post.handled(w)]
        #![trigger post.worker_state(w)]
        #![trigger post.mailbox_capacity(w)]
        #![trigger post.mailbox_closed(w)]
        pre.worker_count() <= w < post.worker_count() ==> {
            &&& post.queued(w).len() == 0
            &&& post.handled(w).len() == 0
            &&& post.worker_state(w) == init
            &&& post.mailbox_capacity(w) == config.mailbox_capacity
            &&& !post.mailbox_closed(w)
        }
    &&& forall|w: int|
        #![trigger post.queued(w)]
        #![trigger post.handled(w)]
        #![trigger post.worker_state(w)]
        #![trigger post.mailbox_capacity(w)]
        #![trigger post.mailbox_closed(w)]
        0 <= w < pre.worker_count() ==> {
            &&& post.queued(w) == pre.queued(w)
            &&& post.handled(w) == pre.handled(w)
            &&& post.worker_state(w) == pre.worker_state(w)
            &&& post.mailbox_capacity(w) == pre.mailbox_capacity(w)
            &&& post.mailbox_closed(w) == pre.mailbox_closed(w)
        }
    &&& forall|a: int|
        #![trigger post.first_worker_of(a)]
        #![trigger post.workers_of(a)]
        #![trigger post.target_worker(a)]
        0 <= a < pre.actor_count() ==> {
            &&& post.first_worker_of(a) == pre.first_worker_of(a)
            &&& post.workers_of(a) == pre.workers_of(a)
            &&& post.target_worker(a) == pre.target_worker(a)
        }
    &&& forall|t: int| 0 <= t < pre.ticket_count() ==> #[trigger] post.resolved(t) == pre.resolved(
        t,
    )
}

/// What a successful send leaves behind: the envelope joined the tail of
/// the target worker's queue under a fresh, still-pending ticket, the
/// round-robin cursor moved one worker onward, and nothing else changed.
pub open spec fn accept_post(pre: System, post: System, a: int, req: Request) -> bool {
    let w = pre.target_worker(a);
    let t = pre.ticket_count();
    &&& post.sys_state() == pre.sys_state()
    &&& post.actor_count() == pre.actor_count()
    &&& post.worker_count() == pre.worker_count()
    &&& post.ticket_count() == t + 1
    &&& post.resolved(t) is None
    &&& post.queued(w) == pre.queued(w).push((Envelope { ticket: t as usize, req }))
    &&& forall|w2: int|
        0 <= w2 < pre.worker_count() && w2 != w ==> #[trigger] post.queued(w2) == pre.queued(w2)
    &&& forall|w2: int|
        #![trigger post.queued(w2)]
        #![trigger post.handled(w2)]
        #![trigger post.worker_state(w2)]
        #![trigger post.mailbox_capacity(w2)]
        #![trigger post.mailbox_closed(w2)]
        0 <= w2 < pre.worker_count() ==> {
            &&& post.handled(w2) == pre.handled(w2)
            &&& post.worker_state(w2) == pre.worker_state(w2)
            &&& post.mailbox_capacity(w2) == pre.mailbox_capacity(w2)
            &&& post.mailbox_closed(w2) == pre.mailbox_closed(w2)
        }
    &&& forall|t2: int| 0 <= t2 < t ==> #[trigger] post.resolved(t2) == pre.resolved(t2)
    &&& forall|a2: int|
        #![trigger post.first_worker_of(a2)]
        #![trigger post.workers_of(a2)]
        0 <= a2 < pre.actor_count() ==> {
            &&& post.first_worker_of(a2) == pre.first_worker_of(a2)
            &&& post.workers_of(a2) == pre.workers_of(a2)
        }
    &&& forall|a2: int|
        0 <= a2 < pre.actor_count() && a2 != a ==> #[trigger] post.target_worker(a2)
            == pre.target_worker(a2)
    &&& post.target_worker(a) == pre.first_worker_of(a) + (pre.target_worker(a)
        - pre.first_worker_of(a) + 1) % pre.workers_of(a)
}

/// What one runtime step for worker `w` leaves behind: the head envelope
/// was handed to the handler against the worker's private state, its reply
/// slot was resolved with the handler's outcome, and nothing else changed.
pub open spec fn dispatch_post(pre: System, post: System, w: int) -> bool {
    let e = pre.queued(w)[0];
    let s0 = pre.worker_state(w);
    &&& post.sys_state() == pre.sys_state()
    &&& post.actor_count() == pre.actor_count()
    &&& post.worker_count() == pre.worker_count()
    &&& post.ticket_count() == pre.ticket_count()
    &&& post.queued(w) == pre.queued(w).drop_first()
    &&& post.handled(w) == pre.handled(w).push(e)
    &&& post.worker_state(w) == crate::handler::next_state(s0, e.req)
    &&& post.resolved(e.ticket as int) == Some(crate::handler::outcome_of(s0, e.req))
    &&& post.mailbox_capacity(w) == pre.mailbox_capacity(w)
    &&& post.mailbox_closed(w) == pre.mailbox_closed(w)
    &&& forall|w2: int|
        #![trigger post.queued(w2)]
        #![trigger post.handled(w2)]
        #![trigger post.worker_state(w2)]
        #![trigger post.mailbox_capacity(w2)]
        #![trigger post.mailbox_closed(w2)]
        0 <= w2 < pre.worker_count() && w2 != w ==> {
            &&& post.queued(w2) == pre.queued(w2)
            &&& post.handled(w2) == pre.handled(w2)
            &&& post.worker_state(w2) == pre.worker_state(w2)
            &&& post.mailbox_capacity(w2) == pre.mailbox_capacity(w2)
            &&& post.mailbox_closed(w2) == pre.mailbox_closed(w2)
        }
    &&& forall|t2: int|
        0 <= t2 < pre.ticket_count() && t2 != e.ticket as int ==> #[trigger] post.resolved(t2)
            == pre.resolved(t2)
    &&& forall|a2: int|
        #![trigger post.first_worker_of(a2)]
        #![trigger post.workers_of(a2)]
        #![trigger post.target_worker(a2)]
        0 <= a2 < pre.actor_count() ==> {
            &&& post.first_worker_of(a2) == pre.first_worker_of(a2)
            &&& post.workers_of(a2) == pre.workers_of(a2)
            &&& post.target_worker(a2) == pre.target_worker(a2)
        }
}

/// The actor state after a worker starting in `s0` processes the queue `q`
/// front to back.
pub open spec fn fold_state(s0: u64, q: Seq<Envelope>) -> u64
    decreases q.len(),
{
    if q.len() <= 0 {
        s0
    } else {
        fold_state(handler::next_state(s0, q[0].req), q.drop_first())
    }
}

/// The outcome the runtime resolves for the `i`-th envelope of queue `q`,
/// given that the `i` envelopes before it are processed first from state
/// `s0`.
pub open spec fn outcome_at(s0: u64, q: Seq<Envelope>, i: int) -> Outcome {
    handler::outcome_of(fold_state(s0, q.take(i)), q[i].req)
}

/// Processing one more envelope extends the fold by one step.
proof fn lemma_fold_take_step(s0: u64, q: Seq<Envelope>, i: int)
    requires
        0 <= i < q.len(),
    ensures
        fold_state(s0, q.take(i + 1)) == handler::next_state(
            fold_state(s0, q.take(i)),
            q[i].req,
        ),
    decreases i,
{
    if i == 0 {
        assert(q.take(1)[0] == q[0]);
        assert(q.take(1).drop_first() =~= Seq::<Envelope>::empty());
        assert(q.take(0) =~= Seq::<Envelope>::empty());
        assert(fold_state(s0, q.take(1)) == fold_state(
            handler::next_state(s0, q[0].req),
            q.take(1).drop_first(),
        ));
    } else {
        let q2 = q.drop_first();
        let s1 = handler::next_state(s0, q[0].req);
        lemma_fold_take_step(s1, q2, i - 1);
        assert(q2[i - 1] == q[i]);
        assert(q.take(i + 1)[0] == q[0]);
        assert(q.take(i)[0] == q[0]);
        assert(q.take(i + 1).drop_first() =~= q2.take(i));
        assert(q.take(i).drop_first() =~= q2.take(i - 1));
        assert(fold_state(s0, q.take(i + 1)) == fold_state(s1, q2.take(i)));
        assert(fold_state(s0, q.take(i)) == fold_state(s1, q2.take(i - 1)));
        assert(fold_state(s1, q2.take(i)) == handler::next_state(
            fold_state(s1, q2.take(i - 1)),
            q2[i - 1].req,
        ));
    }
}

/// What dispatching worker `w` to idleness leaves behind: its whole queue
/// processed front to back, each envelope's slot resolved with the
/// handler's outcome at that point of the fold, and nothing else changed.
pub open spec fn worker_idle_post(pre: System, post: System, w: int) -> bool {
    &&& post.sys_state() == pre.sys_state()
    &&& post.actor_count() == pre.actor_count()
    &&& post.worker_count() == pre.worker_count()
    &&& post.ticket_count() == pre.ticket_count()
    &&& post.queued(w).len() == 0
    &&& post.handled(w) == pre.handled(w) + pre.queued(w)
    &&& post.worker_state(w) == fold_state(pre.worker_state(w), pre.queued(w))
    &&& post.mailbox_capacity(w) == pre.mailbox_capacity(w)
    &&& post.mailbox_closed(w) == pre.mailbox_closed(w)
    &&& forall|w2: int|
        #![trigger post.queued(w2)]
        #![trigger post.handled(w2)]
        #![trigger post.worker_state(w2)]
        #![trigger post.mailbox_capacity(w2)]
        #![trigger post.mailbox_closed(w2)]
        0 <= w2 < pre.worker_count() && w2 != w ==> {
            &&& post.queued(w2) == pre.queued(w2)
            &&& post.handled(w2) == pre.handled(w2)
            &&& post.worker_state(w2) == pre.worker_state(w2)
            &&& post.mailbox_capacity(w2) == pre.mailbox_capacity(w2)
            &&& post.mailbox_closed(w2) == pre.mailbox_closed(w2)
        }
    &&& forall|i: int|
        0 <= i < pre.queued(w).len() ==> post.resolved(#[trigger] pre.ticket_at(w, i)) == Some(
            outcome_at(pre.worker_state(w), pre.queued(w), i),
        )
    &&& forall|t: int|
        0 <= t < pre.ticket_count() && !pre.pending_at(t, w) ==> #[trigger] post.resolved(t)
            == pre.resolved(t)
    &&& forall|a2: int|
        #![trigger post.first_worker_of(a2)]
        #![trigger post.workers_of(a2)]
        #![trigger post.target_worker(a2)]
        0 <= a2 < pre.actor_count() ==> {
            &&& post.first_worker_of(a2) == pre.first_worker_of(a2)
            &&& post.workers_of(a2) == pre.workers_of(a2)
            &&& post.target_worker(a2) == pre.target_worker(a2)
        }
}

/// What `System::run_until_idle` leaves behind: every worker's queue fully
/// processed in FIFO order, every formerly pending reply slot resolved
/// with its handler outcome, lifecycle and registry untouched.
pub open spec fn idle_post(pre: System, post: System) -> bool {
    &&& post.sys_state() == pre.sys_state()
    &&& post.actor_count() == pre.actor_count()
    &&& post.worker_count() == pre.worker_count()
    &&& post.ticket_count() == pre.ticket_count()
    &&& forall|w: int|
        #![trigger post.queued(w)]
        #![trigger post.handled(w)]
        #![trigger post.worker_state(w)]
        #![trigger post.mailbox_capacity(w)]
        #![trigger post.mailbox_closed(w)]
        0 <= w < pre.worker_count() ==> {
            &&& post.queued(w).len() == 0
            &&& post.handled(w) == pre.handled(w) + pre.queued(w)
            &&& post.worker_state(w) == fold_state(pre.worker_state(w), pre.queued(w))
            &&& post.mailbox_capacity(w) == pre.mailbox_capacity(w)
            &&& post.mailbox_closed(w) == pre.mailbox_closed(w)
        }
    &&& forall|a2: int|
        #![trigger post.first_worker_of(a2)]
        #![trigger post.workers_of(a2)]
        #![trigger post.target_worker(a2)]
        0 <= a2 < pre.actor_count() ==> {
            &&& post.first_worker_of(a2) == pre.first_worker_of(a2)
            &&& post.workers_of(a2) == pre.workers_of(a2)
            &&& post.target_worker(a2) == pre.target_worker(a2)
        }
    &&& forall|t: int|
        0 <= t < pre.ticket_count() && pre.resolved(t) is Some ==> #[trigger] post.resolved(t)
            == pre.resolved(t)
    &&& forall|w: int, i: int|
        0 <= w < pre.worker_count() && 0 <= i < pre.queued(w).len() ==> post.resolved(
            #[trigger] pre.ticket_at(w, i),
        ) == Some(outcome_at(pre.worker_state(w), pre.queued(w), i))
    &&& forall|t: int| 0 <= t < pre.ticket_count() ==> (#[trigger] post.resolved(t)) is Some
}

/// What `System::run` leaves behind: everything `run_until_idle` promises,
/// then a clean transition to `Stopped`.
pub open spec fn run_post(pre: System, post: System) -> bool {
    &&& post.sys_state() is Stopped
    &&& post.actor_count() == pre.actor_count()
    &&& post.worker_count() == pre.worker_count()
    &&& post.ticket_count() == pre.ticket_count()
    &&& forall|w: int|
        #![trigger post.queued(w)]
        #![trigger post.handled(w)]
        #![trigger post.worker_state(w)]
        #![trigger post.mailbox_capacity(w)]
        0 <= w < pre.worker_count() ==> {
            &&& post.queued(w).len() == 0
            &&& post.handled(w) == pre.handled(w) + pre.queued(w)
            &&& post.worker_state(w) == fold_state(pre.worker_state(w), pre.queued(w))
            &&& post.mailbox_capacity(w) == pre.mailbox_capacity(w)
        }
    &&& forall|t: int|
        0 <= t < pre.ticket_count() && pre.resolved(t) is Some ==> #[trigger] post.resolved(t)
            == pre.resolved(t)
    &&& forall|w: int, i: int|
        0 <= w < pre.worker_count() && 0 <= i < pre.queued(w).len() ==> post.resolved(
            #[trigger] pre.ticket_at(w, i),
        ) == Some(outcome_at(pre.worker_state(w), pre.queued(w), i))
    &&& forall|t: int| 0 <= t < pre.ticket_count() ==> (#[trigger] post.resolved(t)) is Some
}

/// What `System::stop` leaves behind: a terminal `Stopped` system whose
/// queues are empty and closed, whose actors' states and dispatch histories
/// survive untouched, where no handler ran during shutdown, and where every
/// ticket ever issued now holds a terminal outcome - the already-resolved
/// ones exactly as they were, the still-pending ones `MailboxClosed`.
pub open spec fn stop_post(pre: System, post: System) -> bool {
    &&& post.sys_state() is Stopped
    &&& post.actor_count() == pre.actor_count()
    &&& post.worker_count() == pre.worker_count()
    &&& post.ticket_count() == pre.ticket_count()
    &&& forall|w: int|
        #![trigger post.queued(w)]
        #![trigger post.mailbox_closed(w)]
        0 <= w < pre.worker_count() ==> post.queued(w).len() == 0 && post.mailbox_closed(w)
    &&& forall|w: int|
        #![trigger post.handled(w)]
        #![trigger post.worker_state(w)]
        #![trigger post.mailbox_capacity(w)]
        0 <= w < pre.worker_count() ==> {
            &&& post.handled(w) == pre.handled(w)
            &&& post.worker_state(w) == pre.worker_state(w)
            &&& post.mailbox_capacity(w) == pre.mailbox_capacity(w)
        }
    &&& forall|a: int|
        #![trigger post.first_worker_of(a)]
        #![trigger post.workers_of(a)]
        #![trigger post.target_worker(a)]
        0 <= a < pre.actor_count() ==> {
            &&& post.first_worker_of(a) == pre.first_worker_of(a)
            &&& post.workers_of(a) == pre.workers_of(a)
            &&& post.target_worker(a) == pre.target_worker(a)
        }
    &&& forall|t: int|
        0 <= t < pre.ticket_count() && pre.resolved(t) is Some ==> #[trigger] post.resolved(t)
            == pre.resolved(t)
    &&& forall|t: int|
        0 <= t < pre.ticket_count() && pre.resolved(t) is None ==> #[trigger] post.resolved(t)
            == Some(Outcome::MailboxClosed)
    &&& forall|t: int| 0 <= t < pre.ticket_count() ==> (#[trigger] post.resolved(t)) is Some
}

/// What `System::stop_actor` leaves behind: the actor's own workers closed
/// and drained (their queued envelopes resolved `ActorStopped`, never
/// handled), every other actor and every other reply slot untouched, and
/// the system itself still live.
pub open spec fn stop_actor_post(pre: System, post: System, a: int) -> bool {
    let first = pre.first_worker_of(a);
    let k = pre.workers_of(a);
    &&& post.sys_state() == pre.sys_state()
    &&& post.actor_count() == pre.actor_count()
    &&& post.worker_count() == pre.worker_count()
    &&& post.ticket_count() == pre.ticket_count()
    &&& forall|w: int|
        #![trigger post.queued(w)]
        #![trigger post.mailbox_closed(w)]
        first <= w < first + k ==> post.queued(w).len() == 0 && post.mailbox_closed(w)
    &&& forall|w: int|
        #![trigger post.queued(w)]
        #![trigger post.mailbox_closed(w)]
        0 <= w < pre.worker_count() && !(first <= w < first + k) ==> post.queued(w) == pre.queued(
            w,
        ) && post.mailbox_closed(w) == pre.mailbox_closed(w)
    &&& forall|w: int|
        #![trigger post.handled(w)]
        #![trigger post.worker_state(w)]
        #![trigger post.mailbox_capacity(w)]
        0 <= w < pre.worker_count() ==> {
            &&& post.handled(w) == pre.handled(w)
            &&& post.worker_state(w) == pre.worker_state(w)
            &&& post.mailbox_capacity(w) == pre.mailbox_capacity(w)
        }
    &&& forall|a2: int|
        #![trigger post.first_worker_of(a2)]
        #![trigger post.workers_of(a2)]
        #![trigger post.target_worker(a2)]
        0 <= a2 < pre.actor_count() ==> {
            &&& post.first_worker_of(a2) == pre.first_worker_of(a2)
            &&& post.workers_of(a2) == pre.workers_of(a2)
            &&& post.target_worker(a2) == pre.target_worker(a2)
        }
    &&& forall|w: int, i: int|
        first <= w < first + k && 0 <= i < pre.queued(w).len() ==> post.resolved(
            #[trigger] pre.ticket_at(w, i),
        ) == Some(Outcome::ActorStopped)
    &&& forall|t: int|
        0 <= t < pre.ticket_count() && (forall|w: int|
            first <= w < first + k ==> !(#[trigger] pre.pending_at(t, w)))
            ==> #[trigger] post.resolved(t) == pre.resolved(t)
}

/// After shutdown no reply can be outstanding: a well-formed, stopped
/// system has every queue empty and a terminal outcome in every reply slot
/// ever issued. Together with the resolve-once discipline of each
/// operation, this is the exactly-one-outcome guarantee: no envelope hangs
/// forever and none is resolved twice.
pub proof fn lemma_stopped_all_resolved(s: System)
    requires
        s.wf(),
        s.sys_state() is Stopped,
    ensures
        forall|t: int| 0 <= t < s.ticket_count() ==> (#[trigger] s.resolved(t)) is Some,
        forall|w: int| 0 <= w < s.worker_count() ==> (#[trigger] s.queued(w)).len() == 0,
{
    assert forall|w: int| 0 <= w < s.worker_count() implies (#[trigger] s.queued(w)).len()
        == 0 by {
        assert(s.mailbox_closed(w));
    }
    assert forall|t: int| 0 <= t < s.ticket_count() implies (#[trigger] s.resolved(t)) is Some by {
        if s.resolved(t) is None {
            let w = s.owner_at(t);
            assert(s.pending_at(t, w));
            let i = choose|i: int| 0 <= i < s.queued(w).len() && #[trigger] s.ticket_at(w, i) == t;
            assert(s.queued(w).len() == 0);
        }
    }
}

/// What failing one worker's queue leaves behind: the worker's mailbox is
/// closed and empty, every envelope it still held resolved to `o` without
/// reaching the handler, and nothing else changed.
pub open spec fn worker_failed_post(pre: System, post: System, w: int, o: Outcome) -> bool {
    &&& post.sys_state() == pre.sys_state()
    &&& post.actor_count() == pre.actor_count()
    &&& post.worker_count() == pre.worker_count()
    &&& post.ticket_count() == pre.ticket_count()
    &&& post.queued(w).len() == 0
    &&& post.mailbox_closed(w)
    &&& post.handled(w) == pre.handled(w)
    &&& post.worker_state(w) == pre.worker_state(w)
    &&& post.mailbox_capacity(w) == pre.mailbox_capacity(w)
    &&& forall|w2: int|
        #![trigger post.queued(w2)]
        #![trigger post.handled(w2)]
        #![trigger post.worker_state(w2)]
        #![trigger post.mailbox_capacity(w2)]
        #![trigger post.mailbox_closed(w2)]
        0 <= w2 < pre.worker_count() && w2 != w ==> {
            &&& post.queued(w2) == pre.queued(w2)
            &&& post.handled(w2) == pre.handled(w2)
            &&& post.worker_state(w2) == pre.worker_state(w2)
            &&& post.mailbox_capacity(w2) == pre.mailbox_capacity(w2)
            &&& post.mailbox_closed(w2) == pre.mailbox_closed(w2)
        }
    &&& forall|i: int|
        0 <= i < pre.queued(w).len() ==> post.resolved(#[trigger] pre.ticket_at(w, i)) == Some(o)
    &&& forall|t: int|
        0 <= t < pre.ticket_count() && !pre.pending_at(t, w) ==> #[trigger] post.resolved(t)
            == pre.resolved(t)
    &&& forall|a2: int|
        #![trigger post.first_worker_of(a2)]
        #![trigger post.workers_of(a2)]
        #![trigger post.target_worker(a2)]
        0 <= a2 < pre.actor_count() ==> {
            &&& post.first_worker_of(a2) == pre.first_worker_of(a2)
            &&& post.workers_of(a2) == pre.workers_of(a2)
            &&& post.target_worker(a2) == pre.target_worker(a2)
        }
}

/// Failing one worker's queue preserves well-formedness.
proof fn lemma_wf_drained(pre: System, post: System, w: int, o: Outcome)
    requires
        pre.wf(),
        0 <= w < pre.worker_count(),
        worker_failed_post(pre, post, w, o),
        post.owner == pre.owner,
    ensures
        post.wf(),
{
    assert forall|a2: int|
        #![trigger post.workers_of(a2)]
        #![trigger post.target_worker(a2)]
        0 <= a2 < post.actor_count() implies {
        &&& 1 <= post.workers_of(a2)
        &&& 0 <= post.first_worker_of(a2)
        &&& post.first_worker_of(a2) + post.workers_of(a2) <= post.worker_count()
        &&& post.first_worker_of(a2) <= post.target_worker(a2) < post.first_worker_of(a2)
            + post.workers_of(a2)
    } by {
        assert(pre.workers_of(a2) >= 1);
        assert(pre.target_worker(a2) < pre.first_worker_of(a2) + pre.workers_of(a2));
        assert(post.workers_of(a2) == pre.workers_of(a2));
        assert(post.target_worker(a2) == pre.target_worker(a2));
    }
    assert forall|w2: int| 0 <= w2 < post.worker_count() implies {
        &&& post.mailbox_capacity(w2) > 0 ==> (#[trigger] post.queued(w2)).len()
            <= post.mailbox_capacity(w2) as int
        &&& post.mailbox_closed(w2) ==> post.queued(w2).len() == 0
    } by {
        if w2 != w {
            assert(post.queued(w2) == pre.queued(w2));
            assert(pre.queued(w2).len() <= pre.mailbox_capacity(w2) as int || pre.mailbox_capacity(
                w2,
            ) == 0);
        }
    }
    assert forall|w2: int, i: int|
        0 <= w2 < post.worker_count() && 0 <= i < post.queued(w2).len() implies {
        &&& 0 <= #[trigger] post.ticket_at(w2, i) < post.ticket_count()
        &&& post.resolved(post.ticket_at(w2, i)) is None
        &&& post.owner@.contains_key(post.ticket_at(w2, i))
        &&& post.owner@[post.ticket_at(w2, i)] == w2
    } by {
        assert(w2 != w);
        assert(post.ticket_at(w2, i) == pre.ticket_at(w2, i));
        let t = pre.ticket_at(w2, i);
        assert(pre.owner@[t] == w2);
        assert(!pre.pending_at(t, w)) by {
            if pre.pending_at(t, w) {
                let j = choose|j: int|
                    0 <= j < pre.queued(w).len() && #[trigger] pre.ticket_at(w, j) == t;
                assert(pre.owner@[pre.ticket_at(w, j)] == w);
            }
        }
        assert(post.resolved(t) == pre.resolved(t));
    }
    assert forall|w2: int, i: int, j: int|
        0 <= w2 < post.worker_count() && 0 <= i < j < post.queued(w2).len()
        implies #[trigger] post.ticket_at(w2, i) < #[trigger] post.ticket_at(w2, j) by {
        assert(w2 != w);
        assert(post.ticket_at(w2, i) == pre.ticket_at(w2, i));
        assert(post.ticket_at(w2, j) == pre.ticket_at(w2, j));
    }
    assert forall|t: int|
        0 <= t < post.ticket_count() && (#[trigger] post.resolved(t)) is None implies {
        &&& post.owner@.contains_key(t)
        &&& 0 <= post.owner@[t] < post.worker_count()
        &&& post.pending_at(t, post.owner@[t])
    } by {
        assert(!pre.pending_at(t, w)) by {
            if pre.pending_at(t, w) {
                let j = choose|j: int|
                    0 <= j < pre.queued(w).len() && #[trigger] pre.ticket_at(w, j) == t;
                assert(post.resolved(pre.ticket_at(w, j)) == Some(o));
            }
        }
        assert(pre.resolved(t) is None);
        let w2 = pre.owner@[t];
        let i = choose|i: int| 0 <= i < pre.queued(w2).len() && #[trigger] pre.ticket_at(w2, i)
            == t;
        assert(w2 != w);
        assert(post.queued(w2) == pre.queued(w2));
        assert(post.ticket_at(w2, i) == t);
    }
    assert forall|w2: int|
        post.sys_state() is Stopped && 0 <= w2 < post.worker_count()
        implies #[trigger] post.mailbox_closed(w2) by {
        if w2 != w {
            assert(pre.mailbox_closed(w2));
        }
    }
}

/// Growing the system with fresh, empty, open workers and one sound new
/// registry entry preserves well-formedness.
proof fn lemma_wf_grown(pre: System, post: System, first: int, k: int)
    requires
        pre.wf(),
        pre.accepting(),
        post.sys_state() == pre.sys_state(),
        post.slots == pre.slots,
        post.owner == pre.owner,
        first == pre.worker_count(),
        k >= 1,
        post.worker_count() == first + k,
        forall|w: int| 0 <= w < first ==> post.workers@[w] == pre.workers@[w],
        forall|w: int|
            first <= w < post.worker_count() ==> (#[trigger] post.queued(w)).len() == 0
                && !post.mailbox_closed(w),
        post.actor_count() == pre.actor_count() + 1,
        forall|a: int| 0 <= a < pre.actor_count() ==> post.actors@[a] == pre.actors@[a],
        post.first_worker_of(pre.actor_count()) == first,
        post.workers_of(pre.actor_count()) == k,
        post.target_worker(pre.actor_count()) == first,
    ensures
        post.wf(),
{
    assert forall|a: int|
        #![trigger post.workers_of(a)]
        #![trigger post.target_worker(a)]
        0 <= a < post.actor_count() implies {
        &&& 1 <= post.workers_of(a)
        &&& 0 <= post.first_worker_of(a)
        &&& post.first_worker_of(a) + post.workers_of(a) <= post.worker_count()
        &&& post.first_worker_of(a) <= post.target_worker(a) < post.first_worker_of(a)
            + post.workers_of(a)
    } by {
        if a < pre.actor_count() {
            assert(pre.workers_of(a) >= 1);
            assert(pre.target_worker(a) < pre.first_worker_of(a) + pre.workers_of(a));
            assert(post.workers_of(a) == pre.workers_of(a));
            assert(post.target_worker(a) == pre.target_worker(a));
        }
    }
    assert forall|w: int| 0 <= w < post.worker_count() implies {
        &&& post.mailbox_capacity(w) > 0 ==> (#[trigger] post.queued(w)).len()
            <= post.mailbox_capacity(w) as int
        &&& post.mailbox_closed(w) ==> post.queued(w).len() == 0
    } by {
        if w < first {
            assert(pre.queued(w) == post.queued(w));
        }
    }
    assert forall|w: int, i: int|
        0 <= w < post.worker_count() && 0 <= i < post.queued(w).len() implies {
        &&& 0 <= #[trigger] post.ticket_at(w, i) < post.ticket_count()
        &&& post.resolved(post.ticket_at(w, i)) is None
        &&& post.owner@.contains_key(post.ticket_at(w, i))
        &&& post.owner@[post.ticket_at(w, i)] == w
    } by {
        assert(w < first);
        assert(pre.ticket_at(w, i) == post.ticket_at(w, i));
        assert(pre.queued(w) == post.queued(w));
    }
    assert forall|w: int, i: int, j: int|
        0 <= w < post.worker_count() && 0 <= i < j < post.queued(w).len()
        implies #[trigger] post.ticket_at(w, i) < #[trigger] post.ticket_at(w, j) by {
        assert(w < first);
        assert(pre.ticket_at(w, i) == post.ticket_at(w, i));
        assert(pre.ticket_at(w, j) == post.ticket_at(w, j));
        assert(pre.queued(w) == post.queued(w));
    }
    assert forall|t: int|
        0 <= t < post.ticket_count() && (#[trigger] post.resolved(t)) is None implies {
        &&& post.owner@.contains_key(t)
        &&& 0 <= post.owner@[t] < post.worker_count()
        &&& post.pending_at(t, post.owner@[t])
    } by {
        assert(pre.resolved(t) is None);
        let w = pre.owner@[t];
        let i = choose|i: int| 0 <= i < pre.queued(w).len() && #[trigger] pre.ticket_at(w, i) == t;
        assert(pre.queued(w) == post.queued(w));
        assert(post.ticket_at(w, i) == t);
    }
}

/// Well-formedness does not depend on the lifecycle label, as long as the
/// label does not move to `Stopped` (which demands closed mailboxes).
proof fn lemma_wf_same_fields(pre: System, post: System)
    requires
        pre.wf(),
        post.same_but_state(pre),
        post.sys_state() is Stopped ==> pre.sys_state() is Stopped || forall|w: int|
            0 <= w < pre.worker_count() ==> #[trigger] pre.mailbox_closed(w),
    ensures
        post.wf(),
{
    assert forall|a: int|
        #![trigger post.workers_of(a)]
        #![trigger post.target_worker(a)]
        0 <= a < post.actor_count() implies {
        &&& 1 <= post.workers_of(a)
        &&& 0 <= post.first_worker_of(a)
        &&& post.first_worker_of(a) + post.workers_of(a) <= post.worker_count()
        &&& post.first_worker_of(a) <= post.target_worker(a) < post.first_worker_of(a)
            + post.workers_of(a)
    } by {
        assert(pre.workers_of(a) == post.workers_of(a));
        assert(pre.target_worker(a) == post.target_worker(a));
    }
    assert forall|w: int| 0 <= w < post.worker_count() implies {
        &&& post.mailbox_capacity(w) > 0 ==> (#[trigger] post.queued(w)).len()
            <= post.mailbox_capacity(w) as int
        &&& post.mailbox_closed(w) ==> post.queued(w).len() == 0
    } by {
        assert(pre.queued(w) == post.queued(w));
    }
    assert forall|w: int, i: int|
        0 <= w < post.worker_count() && 0 <= i < post.queued(w).len() implies {
        &&& 0 <= #[trigger] post.ticket_at(w, i) < post.ticket_count()
        &&& post.resolved(post.ticket_at(w, i)) is None
        &&& post.owner@.contains_key(post.ticket_at(w, i))
        &&& post.owner@[post.ticket_at(w, i)] == w
    } by {
        assert(pre.ticket_at(w, i) == post.ticket_at(w, i));
        assert(pre.queued(w) == post.queued(w));
    }
    assert forall|w: int, i: int, j: int|
        0 <= w < post.worker_count() && 0 <= i < j < post.queued(w).len()
        implies #[trigger] post.ticket_at(w, i) < #[trigger] post.ticket_at(w, j) by {
        assert(pre.ticket_at(w, i) == post.ticket_at(w, i));
        assert(pre.ticket_at(w, j) == post.ticket_at(w, j));
        assert(pre.queued(w) == post.queued(w));
    }
    assert forall|t: int|
        0 <= t < post.ticket_count() && (#[trigger] post.resolved(t)) is None implies {
        &&& post.owner@.contains_key(t)
        &&& 0 <= post.owner@[t] < post.worker_count()
        &&& post.pending_at(t, post.owner@[t])
    } by {
        assert(pre.resolved(t) is None);
        let w = pre.owner@[t];
        let i = choose|i: int| 0 <= i < pre.queued(w).len() && #[trigger] pre.ticket_at(w, i) == t;
        assert(post.ticket_at(w, i) == t);
    }
    assert forall|w: int|
        post.sys_state() is Stopped && 0 <= w < post.worker_count()
        implies #[trigger] post.mailbox_closed(w) by {
        assert(pre.mailbox_closed(w) == post.mailbox_closed(w));
    }
}

/// Accepting one envelope preserves well-formedness.
proof fn lemma_wf_accept(pre: System, post: System, a: int, req: Request)
    requires
        pre.wf(),
        0 <= a < pre.actor_count(),
        pre.can_accept(a),
        !pre.target_full(a),
        accept_post(pre, post, a, req),
        post.owner@ == pre.owner@.insert(pre.ticket_count(), pre.target_worker(a)),
    ensures
        post.wf(),
{
    let w = pre.target_worker(a);
    let t = pre.ticket_count();
    assert(0 <= w < pre.worker_count());
    assert forall|a2: int|
        #![trigger post.workers_of(a2)]
        #![trigger post.target_worker(a2)]
        0 <= a2 < post.actor_count() implies {
        &&& 1 <= post.workers_of(a2)
        &&& 0 <= post.first_worker_of(a2)
        &&& post.first_worker_of(a2) + post.workers_of(a2) <= post.worker_count()
        &&& post.first_worker_of(a2) <= post.target_worker(a2) < post.first_worker_of(a2)
            + post.workers_of(a2)
    } by {
        assert(pre.workers_of(a2) >= 1);
        assert(pre.target_worker(a2) < pre.first_worker_of(a2) + pre.workers_of(a2));
        if a2 == a {
            let k = pre.workers_of(a);
            let off = pre.target_worker(a) - pre.first_worker_of(a);
            assert(0 <= (off + 1) % k < k) by (nonlinear_arith)
                requires 0 <= off < k;
        }
    }
    assert forall|w2: int| 0 <= w2 < post.worker_count() implies {
        &&& post.mailbox_capacity(w2) > 0 ==> (#[trigger] post.queued(w2)).len()
            <= post.mailbox_capacity(w2) as int
        &&& post.mailbox_closed(w2) ==> post.queued(w2).len() == 0
    } by {
        if w2 == w {
            assert(!pre.mailbox_closed(w));
            assert(post.queued(w).len() == pre.queued(w).len() + 1);
        }
    }
    assert forall|w2: int, i: int|
        0 <= w2 < post.worker_count() && 0 <= i < post.queued(w2).len() implies {
        &&& 0 <= #[trigger] post.ticket_at(w2, i) < post.ticket_count()
        &&& post.resolved(post.ticket_at(w2, i)) is None
        &&& post.owner@.contains_key(post.ticket_at(w2, i))
        &&& post.owner@[post.ticket_at(w2, i)] == w2
    } by {
        if w2 == w && i == post.queued(w).len() - 1 {
            assert(post.ticket_at(w2, i) == t);
        } else {
            assert(pre.ticket_at(w2, i) == post.ticket_at(w2, i));
            assert(pre.ticket_at(w2, i) < t);
        }
    }
    assert forall|w2: int, i: int, j: int|
        0 <= w2 < post.worker_count() && 0 <= i < j < post.queued(w2).len()
        implies #[trigger] post.ticket_at(w2, i) < #[trigger] post.ticket_at(w2, j) by {
        assert(pre.ticket_at(w2, i) == post.ticket_at(w2, i));
        if w2 == w && j == post.queued(w).len() - 1 {
            assert(pre.ticket_at(w2, i) < t);
        } else {
            assert(pre.ticket_at(w2, j) == post.ticket_at(w2, j));
        }
    }
    assert forall|t2: int|
        0 <= t2 < post.ticket_count() && (#[trigger] post.resolved(t2)) is None implies {
        &&& post.owner@.contains_key(t2)
        &&& 0 <= post.owner@[t2] < post.worker_count()
        &&& post.pending_at(t2, post.owner@[t2])
    } by {
        if t2 == t {
            assert(post.ticket_at(w, post.queued(w).len() - 1) == t);
        } else {
            assert(pre.resolved(t2) is None);
            let w2 = pre.owner@[t2];
            let i = choose|i: int|
                0 <= i < pre.queued(w2).len() && #[trigger] pre.ticket_at(w2, i) == t2;
            assert(post.ticket_at(w2, i) == t2);
        }
    }
    assert(post.wf_lifecycle());
}

/// Dispatching the head envelope of worker `w` preserves well-formedness.
proof fn lemma_wf_dispatch(pre: System, post: System, w: int)
    requires
        pre.wf(),
        0 <= w < pre.worker_count(),
        pre.queued(w).len() > 0,
        dispatch_post(pre, post, w),
        post.owner@ == pre.owner@.remove(pre.ticket_at(w, 0)),
    ensures
        post.wf(),
{
    let t0 = pre.ticket_at(w, 0);
    assert forall|a2: int|
        #![trigger post.workers_of(a2)]
        #![trigger post.target_worker(a2)]
        0 <= a2 < post.actor_count() implies {
        &&& 1 <= post.workers_of(a2)
        &&& 0 <= post.first_worker_of(a2)
        &&& post.first_worker_of(a2) + post.workers_of(a2) <= post.worker_count()
        &&& post.first_worker_of(a2) <= post.target_worker(a2) < post.first_worker_of(a2)
            + post.workers_of(a2)
    } by {
        assert(pre.workers_of(a2) >= 1);
        assert(pre.target_worker(a2) < pre.first_worker_of(a2) + pre.workers_of(a2));
    }
    assert forall|w2: int| 0 <= w2 < post.worker_count() implies {
        &&& post.mailbox_capacity(w2) > 0 ==> (#[trigger] post.queued(w2)).len()
            <= post.mailbox_capacity(w2) as int
        &&& post.mailbox_closed(w2) ==> post.queued(w2).len() == 0
    } by {
        if w2 == w {
            assert(post.queued(w).len() == pre.queued(w).len() - 1);
            assert(!pre.mailbox_closed(w));
        } else {
            assert(post.queued(w2) == pre.queued(w2));
        }
    }
    assert forall|w2: int, i: int|
        0 <= w2 < post.worker_count() && 0 <= i < post.queued(w2).len() implies {
        &&& 0 <= #[trigger] post.ticket_at(w2, i) < post.ticket_count()
        &&& post.resolved(post.ticket_at(w2, i)) is None
        &&& post.owner@.contains_key(post.ticket_at(w2, i))
        &&& post.owner@[post.ticket_at(w2, i)] == w2
    } by {
        if w2 == w {
            assert(post.ticket_at(w2, i) == pre.ticket_at(w2, i + 1));
            assert(pre.ticket_at(w2, 0) < pre.ticket_at(w2, i + 1));
        } else {
            assert(post.ticket_at(w2, i) == pre.ticket_at(w2, i));
            assert(pre.owner@[pre.ticket_at(w2, i)] == w2);
            assert(pre.ticket_at(w2, i) != t0);
        }
    }
    assert forall|w2: int, i: int, j: int|
        0 <= w2 < post.worker_count() && 0 <= i < j < post.queued(w2).len()
        implies #[trigger] post.ticket_at(w2, i) < #[trigger] post.ticket_at(w2, j) by {
        if w2 == w {
            assert(post.ticket_at(w2, i) == pre.ticket_at(w2, i + 1));
            assert(post.ticket_at(w2, j) == pre.ticket_at(w2, j + 1));
        } else {
            assert(post.ticket_at(w2, i) == pre.ticket_at(w2, i));
            assert(post.ticket_at(w2, j) == pre.ticket_at(w2, j));
        }
    }
    assert forall|t2: int|
        0 <= t2 < post.ticket_count() && (#[trigger] post.resolved(t2)) is None implies {
        &&& post.owner@.contains_key(t2)
        &&& 0 <= post.owner@[t2] < post.worker_count()
        &&& post.pending_at(t2, post.owner@[t2])
    } by {
        assert(t2 != t0);
        assert(pre.resolved(t2) is None);
        let w2 = pre.owner@[t2];
        let i = choose|i: int| 0 <= i < pre.queued(w2).len() && #[trigger] pre.ticket_at(w2, i)
            == t2;
        if w2 == w {
            assert(pre.ticket_at(w, 0) == t0);
            assert(i != 0);
            assert(post.ticket_at(w2, i - 1) == pre.ticket_at(w2, i));
        } else {
            assert(post.ticket_at(w2, i) == pre.ticket_at(w2, i));
        }
    }
    assert(post.wf_lifecycle());
}

/// FIFO, as a state fact: at every moment a worker's dispatch history is
/// exactly the oldest prefix of its arrival order, and what is still
/// queued is the remaining suffix. The handler has therefore been invoked
/// on the first envelopes in send order, never out of order.
pub proof fn lemma_fifo_prefix(s: System, w: int)
    ensures
        s.handled(w) == s.enqueued(w).take(s.handled(w).len() as int),
        s.queued(w) == s.enqueued(w).skip(s.handled(w).len() as int),
        forall|k: int| 0 <= k < s.handled(w).len() ==> s.enqueued(w)[k] == s.handled(w)[k],
{
    assert(s.handled(w) =~= s.enqueued(w).take(s.handled(w).len() as int));
    assert(s.queued(w) =~= s.enqueued(w).skip(s.handled(w).len() as int));
}

/// FIFO, as a step fact: a runtime step hands the handler exactly the
/// envelope that has waited longest - the one at position
/// `handled.len()` of the arrival order - and leaves that order itself
/// unchanged. Handler invocations therefore occur in send order.
pub proof fn lemma_fifo_step(pre: System, post: System, w: int)
    requires
        0 <= w < pre.worker_count(),
        pre.queued(w).len() > 0,
        dispatch_post(pre, post, w),
    ensures
        post.enqueued(w) == pre.enqueued(w),
        post.handled(w) == pre.handled(w).push(pre.enqueued(w)[pre.handled(w).len() as int]),
{
    assert(pre.enqueued(w)[pre.handled(w).len() as int] == pre.queued(w)[0]);
    assert(post.enqueued(w) =~= pre.enqueued(w));
}

/// FIFO, as an acceptance fact: a successful send appends its envelope to
/// the tail of the target worker's arrival order and invokes no handler
/// anywhere.
pub proof fn lemma_fifo_accept(pre: System, post: System, a: int, req: Request)
    requires
        pre.wf(),
        0 <= a < pre.actor_count(),
        accept_post(pre, post, a, req),
    ensures
        post.enqueued(pre.target_worker(a)) == pre.enqueued(pre.target_worker(a)).push(
            (Envelope { ticket: pre.ticket_count() as usize, req }),
        ),
        forall|w: int|
            0 <= w < pre.worker_count() && w != pre.target_worker(a) ==> #[trigger] post.enqueued(
                w,
            ) == pre.enqueued(w),
        forall|w: int| 0 <= w < pre.worker_count() ==> #[trigger] post.handled(w) == pre.handled(w),
{
    let tw = pre.target_worker(a);
    assert(pre.first_worker_of(a) <= tw < pre.first_worker_of(a) + pre.workers_of(a));
    assert(0 <= tw < pre.worker_count());
    assert(post.handled(tw) == pre.handled(tw));
    assert(post.enqueued(tw) =~= pre.enqueued(tw).push(
        (Envelope { ticket: pre.ticket_count() as usize, req }),
    ));
    assert forall|w: int|
        0 <= w < pre.worker_count() && w != tw implies #[trigger] post.enqueued(w) == pre.enqueued(
        w,
    ) by {
        assert(post.queued(w) == pre.queued(w));
        assert(post.handled(w) == pre.handled(w));
    }
}

/// Resolve-once, as a state fact: a ticket that already holds its terminal
/// outcome is out of every queue, so no runtime step or shutdown drain can
/// ever touch its slot again - each operation's contract only writes slots
/// of envelopes it pops off a queue, and preserves all others.
pub proof fn lemma_resolved_final(s: System, t: int)
    requires
        s.wf(),
        0 <= t < s.ticket_count(),
        s.resolved(t) is Some,
    ensures
        forall|w: int, i: int|
            0 <= w < s.worker_count() && 0 <= i < s.queued(w).len() ==> #[trigger] s.ticket_at(
                w,
                i,
            ) != t,
{
    assert forall|w: int, i: int|
        0 <= w < s.worker_count() && 0 <= i < s.queued(w).len() implies #[trigger] s.ticket_at(
        w,
        i,
    ) != t by {
        assert(s.resolved(s.ticket_at(w, i)) is None);
    }
}

/// Round trip: spawning an actor with some initial state, sending it
/// nothing, and stopping the system performs no handler invocation at all
/// and ends in a clean `Stopped` state with the actor's initial state
/// intact.
pub proof fn lemma_spawn_then_stop(
    pre: System,
    mid: System,
    post: System,
    addr: Address,
    init: u64,
    config: SpawnConfig,
)
    requires
        spawn_post(pre, mid, addr, init, config),
        stop_post(mid, post),
    ensures
        post.sys_state() is Stopped,
        forall|w: int|
            mid.first_worker_of(addr.id()) <= w < mid.first_worker_of(addr.id()) + mid.workers_of(
                addr.id(),
            ) ==> #[trigger] post.handled(w).len() == 0 && post.worker_state(w) == init,
        forall|w: int| 0 <= w < mid.worker_count() ==> #[trigger] post.handled(w) == mid.handled(w),
{
    assert forall|w: int|
        mid.first_worker_of(addr.id()) <= w < mid.first_worker_of(addr.id()) + mid.workers_of(
            addr.id(),
        ) implies #[trigger] post.handled(w).len() == 0 && post.worker_state(w) == init by {
        assert(mid.handled(w).len() == 0);
        assert(mid.worker_state(w) == init);
        assert(post.handled(w) == mid.handled(w));
        assert(post.worker_state(w) == mid.worker_state(w));
    }
}

} // verus!
