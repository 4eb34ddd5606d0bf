//! The broker (queue): routes client requests to live workers, routes worker
//! replies back to clients, and keeps the worker registry alive.
//!
//! The broker is a state machine: each entry point consumes one message or
//! one clock reading and returns the list of messages to put on the wire.
//! The caller owns the sockets; it sends each `ToWorker` message on the back
//! endpoint and each `ToClient` message on the front endpoint, in order.

use vstd::prelude::*;
use crate::protocol::EXPIRY_SPAN_MS;
use crate::protocol::HEARTBEAT_INTERVAL_MS;
use crate::protocol::frame_is_empty;
use crate::protocol::frame_is_heartbeat;
use crate::protocol::frame_is_ready;
use crate::protocol::frames_view;
use crate::protocol::heartbeat_msg;
use crate::protocol::heartbeat_wire;
use crate::protocol::is_client_envelope;
use crate::protocol::is_control_remainder;
use crate::protocol::is_reply_remainder;
use crate::protocol::route_to_worker_frames;
use crate::protocol::routed_to_worker;
use crate::registry::WorkerPool;
use crate::registry::WorkerRecord;
use crate::registry::live_records;
use crate::registry::refreshed;
use crate::registry::upsert;

verus! {

/// How many client requests the broker holds while no worker is available.
/// A request arriving beyond this bound is rejected, never silently dropped.
pub const PENDING_MAX: usize = 1000;

/// One message the broker asks its caller to put on the wire, or to log.
pub enum BrokerAction {
    /// Send this multipart message on the back (worker-facing) endpoint.
    ToWorker(Vec<Vec<u8>>),
    /// Send this multipart message on the front (client-facing) endpoint.
    ToClient(Vec<Vec<u8>>),
    /// A malformed worker message: log it and drop it; the connection stays.
    DropInvalid(Vec<Vec<u8>>),
    /// A client request that arrived with no worker and a full queue: hand
    /// it back to the caller to refuse toward the client.
    RejectOverflow(Vec<Vec<u8>>),
}

/// The broker's whole mutable state: the worker pool, the bounded FIFO of
/// requests waiting for a worker, and the heartbeat deadline.
pub struct Broker {
    pub pool: WorkerPool,
    pub pending: Vec<Vec<Vec<u8>>>,
    pub heartbeat_at: u64,
}

/// How many queued requests a dispatch round serves: one per available
/// worker, up to the whole queue.
pub open spec fn dispatch_count(pool_len: nat, pending_len: nat) -> nat {
    if pending_len <= pool_len {
        pending_len
    } else {
        pool_len
    }
}

/// Queuing under exhaustion: requests queued while the pool was empty are
/// serviced by the next worker to announce readiness. Whatever the queue
/// holds, one READY into an empty pool leaves exactly that worker, and the
/// dispatch round that follows serves exactly one request — the oldest, to
/// that worker, since it is both the top and the bottom of the pool. The
/// served request and its destination are then pinned by `dispatch`'s
/// contract at indices 0 and `len - 1`.
pub proof fn lemma_queued_request_served_by_next_ready(
    pending: Seq<Seq<Seq<u8>>>,
    r: WorkerRecord,
)
    requires
        pending.len() >= 1,
    ensures
        upsert(Seq::<WorkerRecord>::empty(), r) == seq![r],
        dispatch_count(upsert(Seq::<WorkerRecord>::empty(), r).len(), pending.len()) == 1,
        seq![r].last() == r,
{
    assert(upsert(Seq::<WorkerRecord>::empty(), r) =~= seq![r]);
}

impl Broker {
    /// The queued requests, oldest first, each as its frame sequence.
    pub open spec fn pending_view(&self) -> Seq<Seq<Seq<u8>>> {
        Seq::new(self.pending@.len(), |i: int| frames_view(self.pending@[i]))
    }

    /// The broker invariant: a well-formed pool and a bounded queue.
    pub open spec fn wf(self) -> bool {
        &&& self.pool.wf()
        &&& self.pending_view().len() <= PENDING_MAX
    }

    pub fn new(now: u64) -> (b: Broker)
        requires
            now <= u64::MAX - HEARTBEAT_INTERVAL_MS,
        ensures
            b.wf(),
            b.pool@ == Seq::<WorkerRecord>::empty(),
            b.pending_view() == Seq::<Seq<Seq<u8>>>::empty(),
            b.heartbeat_at == now + HEARTBEAT_INTERVAL_MS,
    {
        let b = Broker {
            pool: WorkerPool::new(),
            pending: Vec::new(),
            heartbeat_at: now + HEARTBEAT_INTERVAL_MS,
        };
        proof {
            assert(b.pending_view() =~= Seq::<Seq<Seq<u8>>>::empty());
        }
        b
    }

    pub fn pending_len(&self) -> (n: usize)
        ensures
            n == self.pending_view().len(),
    {
        self.pending.len()
    }

    /// Handle one message from the back endpoint. The first frame is the
    /// sending worker's identity, put there by the transport. A READY or
    /// HEARTBEAT remainder registers the worker (replacing any prior record
    /// for that identity); a reply envelope is forwarded verbatim to the
    /// front endpoint; anything else is non-fatal: it is handed back to be
    /// logged and dropped. Any message from a worker is proof of life, so a
    /// reply — and even a malformed message — refreshes the sender's expiry,
    /// if it is registered.
    pub fn handle_backend(&mut self, frames: Vec<Vec<u8>>, now: u64) -> (acts: Vec<BrokerAction>)
        requires
            old(self).wf(),
            now <= u64::MAX - EXPIRY_SPAN_MS,
        ensures
            final(self).wf(),
            final(self).heartbeat_at == old(self).heartbeat_at,
            final(self).pending_view() == old(self).pending_view(),
            (frames_view(frames).len() >= 1 && is_control_remainder(frames_view(frames).skip(1)))
                ==> final(self).pool@ == upsert(
                old(self).pool@,
                (WorkerRecord { identity: frames@[0], expiry: (now + EXPIRY_SPAN_MS) as u64 }),
            ) && acts@.len() == 0,
            (frames_view(frames).len() >= 1 && !is_control_remainder(frames_view(frames).skip(1))
                && is_reply_remainder(frames_view(frames).skip(1))) ==> refreshed(
                old(self).pool@,
                final(self).pool@,
                frames@[0]@,
                (now + EXPIRY_SPAN_MS) as u64,
            ) && acts@.len() == 1 && (acts@[0] matches BrokerAction::ToClient(m)
                && frames_view(m) == frames_view(frames).skip(1)),
            (frames_view(frames).len() >= 1 && !is_control_remainder(frames_view(frames).skip(1))
                && !is_reply_remainder(frames_view(frames).skip(1))) ==> refreshed(
                old(self).pool@,
                final(self).pool@,
                frames@[0]@,
                (now + EXPIRY_SPAN_MS) as u64,
            ) && acts@.len() == 1 && (acts@[0] matches BrokerAction::DropInvalid(m)
                && frames_view(m) == frames_view(frames)),
            frames_view(frames).len() == 0 ==> final(self).pool@ == old(self).pool@
                && acts@.len() == 1 && (acts@[0] matches BrokerAction::DropInvalid(m)
                && frames_view(m) == frames_view(frames)),
    {
        let ghost dv = frames_view(frames);
        if frames.len() == 0 {
            let mut acts: Vec<BrokerAction> = Vec::new();
            acts.push(BrokerAction::DropInvalid(frames));
            return acts;
        }
        let mut rest = frames;
        let identity = rest.remove(0);
        proof {
            assert(frames_view(rest) =~= dv.skip(1));
        }
        let is_control = rest.len() == 1 && (frame_is_ready(&rest[0]) || frame_is_heartbeat(
            &rest[0],
        ));
        if is_control {
            self.pool.ready(identity, now);
            Vec::new()
        } else if rest.len() == 3 && frame_is_empty(&rest[1]) {
            self.pool.refresh(&identity, now);
            let mut acts: Vec<BrokerAction> = Vec::new();
            acts.push(BrokerAction::ToClient(rest));
            acts
        } else {
            self.pool.refresh(&identity, now);
            let mut whole = rest;
            whole.insert(0, identity);
            proof {
                assert(frames_view(whole) =~= dv);
            }
            let mut acts: Vec<BrokerAction> = Vec::new();
            acts.push(BrokerAction::DropInvalid(whole));
            acts
        }
    }

    /// Handle one message from the front endpoint. A message that is not a
    /// client envelope is non-fatal: it is handed back to be logged and
    /// dropped, and costs no worker. For a client envelope: if a worker is
    /// available, the most recently ready one is chosen and the request is
    /// routed to it; otherwise the request is queued, oldest first, unless
    /// the queue is full, in which case it is handed back for rejection —
    /// never dropped, and never a fatal error.
    pub fn handle_frontend(&mut self, frames: Vec<Vec<u8>>) -> (acts: Vec<BrokerAction>)
        requires
            old(self).wf(),
        ensures
            final(self).wf(),
            final(self).heartbeat_at == old(self).heartbeat_at,
            !is_client_envelope(frames_view(frames)) ==> final(self).pool@ == old(self).pool@
                && final(self).pending_view() == old(self).pending_view() && acts@.len() == 1 && (
            acts@[0] matches BrokerAction::DropInvalid(m)
                && frames_view(m) == frames_view(frames)),
            is_client_envelope(frames_view(frames)) && old(self).pool@.len() > 0
                ==> final(self).pool@ == old(self).pool@.drop_last()
                && final(self).pending_view() == old(self).pending_view() && acts@.len() == 1 && (
            acts@[0] matches BrokerAction::ToWorker(m) && frames_view(m) == routed_to_worker(
                old(self).pool@.last().identity@,
                frames_view(frames),
            )),
            is_client_envelope(frames_view(frames)) && old(self).pool@.len() == 0
                && old(self).pending_view().len() < PENDING_MAX
                ==> final(self).pool@ == old(self).pool@
                && final(self).pending_view() == old(self).pending_view().push(
                frames_view(frames),
            ) && acts@.len() == 0,
            is_client_envelope(frames_view(frames)) && old(self).pool@.len() == 0
                && old(self).pending_view().len() >= PENDING_MAX
                ==> final(self).pool@ == old(self).pool@
                && final(self).pending_view() == old(self).pending_view()
                && acts@.len() == 1 && (acts@[0] matches BrokerAction::RejectOverflow(m)
                && frames_view(m) == frames_view(frames)),
    {
        let is_envelope = frames.len() == 3 && frame_is_empty(&frames[1]);
        if !is_envelope {
            let mut acts: Vec<BrokerAction> = Vec::new();
            acts.push(BrokerAction::DropInvalid(frames));
            return acts;
        }
        if self.pool.is_empty() {
            if self.pending.len() < PENDING_MAX {
                let ghost before = self.pending_view();
                self.pending.push(frames);
                proof {
                    assert(self.pending_view() =~= before.push(frames_view(frames)));
                }
                Vec::new()
            } else {
                let mut acts: Vec<BrokerAction> = Vec::new();
                acts.push(BrokerAction::RejectOverflow(frames));
                acts
            }
        } else {
            let wid = match self.pool.pop_next() {
                Some(w) => w,
                None => {
                    proof {
                        assert(false);
                    }
                    Vec::new()
                },
            };
            let mut acts: Vec<BrokerAction> = Vec::new();
            acts.push(BrokerAction::ToWorker(route_to_worker_frames(wid, frames)));
            acts
        }
    }

    /// Serve queued requests to available workers: the oldest request goes
    /// to the most recently ready worker, until requests or workers run out.
    /// Called once per loop iteration, this dispatches queued requests the
    /// next time a worker becomes available.
    pub fn dispatch(&mut self) -> (acts: Vec<BrokerAction>)
        requires
            old(self).wf(),
        ensures
            final(self).wf(),
            final(self).heartbeat_at == old(self).heartbeat_at,
            final(self).pool@ == old(self).pool@.subrange(
                0,
                old(self).pool@.len() - dispatch_count(old(self).pool@.len(), old(self).pending_view().len()),
            ),
            final(self).pending_view() == old(self).pending_view().skip(
                dispatch_count(old(self).pool@.len(), old(self).pending_view().len()) as int,
            ),
            acts@.len() == dispatch_count(old(self).pool@.len(), old(self).pending_view().len()),
            forall|i: int|
                0 <= i < acts@.len() ==> (#[trigger] acts@[i] matches BrokerAction::ToWorker(m)
                    && frames_view(m) == routed_to_worker(
                    old(self).pool@[old(self).pool@.len() - 1 - i].identity@,
                    old(self).pending_view()[i],
                )),
    {
        let mut acts: Vec<BrokerAction> = Vec::new();
        proof {
            assert(self.pool@.subrange(0, self.pool@.len() as int) =~= self.pool@);
            assert(self.pending_view().skip(0) =~= self.pending_view());
        }
        while self.pending.len() > 0 && self.pool.len() > 0
            invariant
                old(self).wf(),
                self.pool.wf(),
                self.heartbeat_at == old(self).heartbeat_at,
                acts@.len() <= old(self).pending_view().len(),
                acts@.len() <= old(self).pool@.len(),
                self.pool@ == old(self).pool@.subrange(
                    0,
                    old(self).pool@.len() - acts@.len(),
                ),
                self.pending_view() == old(self).pending_view().skip(acts@.len() as int),
                forall|i: int|
                    0 <= i < acts@.len() ==> (#[trigger] acts@[i] matches BrokerAction::ToWorker(m)
                        && frames_view(m) == routed_to_worker(
                        old(self).pool@[old(self).pool@.len() - 1 - i].identity@,
                        old(self).pending_view()[i],
                    )),
            decreases self.pending@.len(),
        {
            let ghost j = acts@.len() as int;
            let ghost pend_before = self.pending_view();
            let env = self.pending.remove(0);
            proof {
                assert(frames_view(env) == pend_before[0]);
                assert(pend_before == old(self).pending_view().skip(j));
                assert(pend_before.len() > 0);
                assert(old(self).pending_view().skip(j).len() == old(self).pending_view().len()
                    - j);
                assert(j + 1 <= old(self).pending_view().len());
                assert(old(self).pending_view().skip(j)[0] == old(self).pending_view()[j]);
                assert(pend_before[0] == old(self).pending_view()[j]);
                assert(self.pending_view() =~= pend_before.skip(1));
                assert(self.pending_view() =~= old(self).pending_view().skip(j + 1));
            }
            let wid = match self.pool.pop_next() {
                Some(w) => w,
                None => {
                    proof {
                        assert(false);
                    }
                    Vec::new()
                },
            };
            proof {
                let p = old(self).pool@.subrange(0, old(self).pool@.len() - j);
                assert(p.last() == old(self).pool@[old(self).pool@.len() - 1 - j]);
                assert(p.drop_last() =~= old(self).pool@.subrange(
                    0,
                    old(self).pool@.len() - (j + 1),
                ));
            }
            acts.push(BrokerAction::ToWorker(route_to_worker_frames(wid, env)));
        }
        proof {
            if self.pending_view().len() == 0 {
                assert(acts@.len() == old(self).pending_view().len());
            } else {
                assert(acts@.len() == old(self).pool@.len());
            }
            assert(acts@.len() == dispatch_count(old(self).pool@.len(), old(self).pending_view().len()));
        }
        acts
    }

    /// Housekeeping, run once per loop iteration whether or not traffic
    /// arrived: when the heartbeat deadline has elapsed, send a HEARTBEAT to
    /// every currently registered worker (not only those near expiry) and
    /// advance the deadline by one interval; then remove every worker record
    /// whose expiry has passed.
    pub fn tick(&mut self, now: u64) -> (acts: Vec<BrokerAction>)
        requires
            old(self).wf(),
            now <= u64::MAX - EXPIRY_SPAN_MS,
        ensures
            final(self).wf(),
            final(self).pending_view() == old(self).pending_view(),
            final(self).pool@ == live_records(old(self).pool@, now),
            now >= old(self).heartbeat_at ==> final(self).heartbeat_at == now
                + HEARTBEAT_INTERVAL_MS && acts@.len() == old(self).pool@.len() && forall|i: int|
                0 <= i < acts@.len() ==> (#[trigger] acts@[i] matches BrokerAction::ToWorker(m)
                    && frames_view(m) == heartbeat_wire(old(self).pool@[i].identity@)),
            now < old(self).heartbeat_at ==> final(self).heartbeat_at == old(self).heartbeat_at
                && acts@.len() == 0,
    {
        let mut acts: Vec<BrokerAction> = Vec::new();
        if now >= self.heartbeat_at {
            let mut ids = self.pool.identities();
            let ghost all = ids@;
            proof {
                assert(ids@ =~= all.skip(0));
            }
            while ids.len() > 0
                invariant
                    acts@.len() + ids@.len() == all.len(),
                    ids@ == all.skip(acts@.len() as int),
                    all.len() == old(self).pool@.len(),
                    forall|i: int|
                        0 <= i < all.len() ==> #[trigger] all[i]@ == old(self).pool@[i].identity@,
                    forall|i: int|
                        0 <= i < acts@.len() ==> (#[trigger] acts@[i] matches
                            BrokerAction::ToWorker(m) && frames_view(m) == heartbeat_wire(
                            old(self).pool@[i].identity@,
                        )),
                    self == old(self),
                decreases ids@.len(),
            {
                let ghost j = acts@.len() as int;
                let wid = ids.remove(0);
                proof {
                    assert(wid == all[j]);
                    assert(ids@ =~= all.skip(j + 1));
                }
                acts.push(BrokerAction::ToWorker(heartbeat_msg(wid)));
            }
            self.heartbeat_at = now + HEARTBEAT_INTERVAL_MS;
        }
        self.pool.purge(now);
        acts
    }
}

} // verus!
