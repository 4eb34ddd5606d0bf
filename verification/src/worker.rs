//! The worker agent: connects to the broker, announces readiness, echoes
//! requests, exchanges heartbeats, and reconnects with exponential backoff
//! when the broker goes quiet.
//!
//! The agent is a state machine over a liveness countdown, a reconnect
//! backoff interval, and a heartbeat deadline. Each entry point consumes one
//! poll outcome and returns the actions the caller must carry out on its
//! connection: send a reply, send a heartbeat, reconnect after a delay (a
//! fresh connection, announced with READY), or give up for good.

use vstd::prelude::*;
use crate::protocol::HEARTBEAT_INTERVAL_MS;
use crate::protocol::HEARTBEAT_LIVENESS;
use crate::protocol::INTERVAL_INIT_MS;
use crate::protocol::INTERVAL_MAX_MS;
use crate::protocol::frame_is_empty;
use crate::protocol::frame_is_heartbeat;
use crate::protocol::frames_view;
use crate::protocol::is_worker_heartbeat;
use crate::protocol::is_worker_request;
use crate::protocol::strip_first_frame;
use crate::protocol::worker_reply;

verus! {

/// One step the agent asks its caller to carry out.
pub enum WorkerAction {
    /// Send this multipart reply to the broker.
    SendReply(Vec<Vec<u8>>),
    /// Send a single-frame HEARTBEAT to the broker.
    SendHeartbeat,
    /// A message of unrecognized shape: log it and drop it.
    DropInvalid(Vec<Vec<u8>>),
    /// Sleep this many milliseconds, then open a fresh connection and
    /// announce READY on it; the old connection is discarded.
    Reconnect(u64),
    /// The backoff ceiling was reached without a successful exchange: sleep
    /// this many milliseconds (one last ceiling-length backoff), then
    /// terminate instead of retrying forever.
    GiveUp(u64),
}

/// The backoff interval after one more liveness failure: doubled, capped at
/// the ceiling.
pub open spec fn next_backoff(i: u64) -> u64 {
    if 2 * i <= INTERVAL_MAX_MS {
        (2 * i) as u64
    } else {
        INTERVAL_MAX_MS
    }
}

/// The reconnect interval after `k` consecutive liveness failures with no
/// successful exchange in between.
pub open spec fn backoff_at(k: nat) -> u64
    decreases k,
{
    if k == 0 {
        INTERVAL_INIT_MS
    } else {
        next_backoff(backoff_at((k - 1) as nat))
    }
}

/// Backoff monotonicity: starting at the initial interval, each consecutive
/// liveness failure exactly doubles the reconnect interval until the ceiling,
/// where it stays; the sequence never leaves the initial-to-ceiling range
/// and never decreases.
pub proof fn lemma_backoff_monotonic(k: nat)
    ensures
        INTERVAL_INIT_MS <= backoff_at(k) <= INTERVAL_MAX_MS,
        2 * backoff_at(k) <= INTERVAL_MAX_MS ==> backoff_at(k + 1) == 2 * backoff_at(k),
        2 * backoff_at(k) > INTERVAL_MAX_MS ==> backoff_at(k + 1) == INTERVAL_MAX_MS,
        backoff_at(k) <= backoff_at(k + 1),
        backoff_at(k) < INTERVAL_MAX_MS ==> backoff_at(k) < backoff_at(k + 1),
    decreases k,
{
    if k == 0 {
    } else {
        lemma_backoff_monotonic((k - 1) as nat);
    }
}

/// The worker agent's whole mutable state.
pub struct WorkerAgent {
    /// Missed intervals left before the broker is considered unreachable.
    pub liveness: u64,
    /// The delay before the next reconnect attempt.
    pub interval: u64,
    /// When the next heartbeat to the broker is due.
    pub heartbeat_at: u64,
    /// False once the agent has given up.
    pub running: bool,
}

impl WorkerAgent {
    /// The agent invariant while it has not given up.
    pub open spec fn wf(self) -> bool {
        self.running ==> {
            &&& 1 <= self.liveness <= HEARTBEAT_LIVENESS
            &&& INTERVAL_INIT_MS <= self.interval <= INTERVAL_MAX_MS
        }
    }

    /// A fresh agent, as it stands right after connecting and sending READY.
    pub fn new(now: u64) -> (w: WorkerAgent)
        requires
            now <= u64::MAX - HEARTBEAT_INTERVAL_MS,
        ensures
            w.wf(),
            w.running,
            w.liveness == HEARTBEAT_LIVENESS,
            w.interval == INTERVAL_INIT_MS,
            w.heartbeat_at == now + HEARTBEAT_INTERVAL_MS,
    {
        WorkerAgent {
            liveness: HEARTBEAT_LIVENESS,
            interval: INTERVAL_INIT_MS,
            heartbeat_at: now + HEARTBEAT_INTERVAL_MS,
            running: true,
        }
    }

    /// Handle one message from the broker. A request is answered with the
    /// same envelope minus its leading delimiter (an echo); a heartbeat is
    /// consumed silently; either one proves the broker alive, so the
    /// liveness countdown and the backoff interval are reset. Anything else
    /// is handed back to be logged and dropped, and proves nothing.
    pub fn on_message(&mut self, frames: Vec<Vec<u8>>) -> (acts: Vec<WorkerAction>)
        requires
            old(self).wf(),
            old(self).running,
        ensures
            final(self).wf(),
            final(self).running,
            final(self).heartbeat_at == old(self).heartbeat_at,
            is_worker_request(frames_view(frames)) ==> final(self).liveness
                == HEARTBEAT_LIVENESS && final(self).interval == INTERVAL_INIT_MS
                && acts@.len() == 1 && (acts@[0] matches WorkerAction::SendReply(m)
                && frames_view(m) == worker_reply(frames_view(frames))),
            is_worker_heartbeat(frames_view(frames)) ==> final(self).liveness
                == HEARTBEAT_LIVENESS && final(self).interval == INTERVAL_INIT_MS
                && acts@.len() == 0,
            !is_worker_request(frames_view(frames)) && !is_worker_heartbeat(
                frames_view(frames),
            ) ==> final(self).liveness == old(self).liveness
                && final(self).interval == old(self).interval
                && acts@.len() == 1 && (acts@[0] matches WorkerAction::DropInvalid(m)
                && frames_view(m) == frames_view(frames)),
    {
        let mut acts: Vec<WorkerAction> = Vec::new();
        if frames.len() == 4 && frame_is_empty(&frames[0]) && frame_is_empty(&frames[2]) {
            self.liveness = HEARTBEAT_LIVENESS;
            self.interval = INTERVAL_INIT_MS;
            acts.push(WorkerAction::SendReply(strip_first_frame(frames)));
        } else if frames.len() == 2 && frame_is_empty(&frames[0]) && frame_is_heartbeat(
            &frames[1],
        ) {
            self.liveness = HEARTBEAT_LIVENESS;
            self.interval = INTERVAL_INIT_MS;
        } else {
            acts.push(WorkerAction::DropInvalid(frames));
        }
        acts
    }

    /// Handle a poll timeout: one interval passed with no traffic at all.
    /// The liveness countdown drops by one; at zero the broker is considered
    /// unreachable, and the agent either reconnects after the current
    /// backoff delay (doubling it, up to the ceiling) or, if the ceiling was
    /// already reached, sleeps it out one last time and gives up for good.
    pub fn on_timeout(&mut self) -> (acts: Vec<WorkerAction>)
        requires
            old(self).wf(),
            old(self).running,
        ensures
            final(self).wf(),
            final(self).heartbeat_at == old(self).heartbeat_at,
            old(self).liveness > 1 ==> final(self).liveness == old(self).liveness - 1
                && final(self).interval == old(self).interval && final(self).running
                && acts@.len() == 0,
            old(self).liveness == 1 && old(self).interval < INTERVAL_MAX_MS
                ==> final(self).liveness == HEARTBEAT_LIVENESS
                && final(self).interval == next_backoff(old(self).interval)
                && final(self).running && acts@.len() == 1 && (
            acts@[0] matches WorkerAction::Reconnect(d) && d == old(self).interval),
            old(self).liveness == 1 && old(self).interval >= INTERVAL_MAX_MS
                ==> !final(self).running && acts@.len() == 1 && (
            acts@[0] matches WorkerAction::GiveUp(d) && d == old(self).interval),
    {
        let mut acts: Vec<WorkerAction> = Vec::new();
        self.liveness = self.liveness - 1;
        if self.liveness == 0 {
            if self.interval < INTERVAL_MAX_MS {
                acts.push(WorkerAction::Reconnect(self.interval));
                self.interval = if 2 * self.interval <= INTERVAL_MAX_MS {
                    2 * self.interval
                } else {
                    INTERVAL_MAX_MS
                };
                self.liveness = HEARTBEAT_LIVENESS;
            } else {
                acts.push(WorkerAction::GiveUp(self.interval));
                self.running = false;
            }
        }
        acts
    }

    /// Send a heartbeat to the broker whenever the local deadline has
    /// elapsed, whatever else the iteration did, and advance the deadline by
    /// one interval.
    pub fn heartbeat_tick(&mut self, now: u64) -> (acts: Vec<WorkerAction>)
        requires
            old(self).wf(),
            old(self).running,
            now <= u64::MAX - HEARTBEAT_INTERVAL_MS,
        ensures
            final(self).wf(),
            final(self).running,
            final(self).liveness == old(self).liveness,
            final(self).interval == old(self).interval,
            now >= old(self).heartbeat_at ==> final(self).heartbeat_at == now
                + HEARTBEAT_INTERVAL_MS && acts@.len() == 1 && acts@[0] is SendHeartbeat,
            now < old(self).heartbeat_at ==> final(self).heartbeat_at == old(self).heartbeat_at
                && acts@.len() == 0,
    {
        let mut acts: Vec<WorkerAction> = Vec::new();
        if now >= self.heartbeat_at {
            acts.push(WorkerAction::SendHeartbeat);
            self.heartbeat_at = now + HEARTBEAT_INTERVAL_MS;
        }
        acts
    }
}

} // verus!
