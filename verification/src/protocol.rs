//! Wire protocol: control frames and envelope shapes shared by the broker
//! and the worker agent.
//!
//! A message is an ordered sequence of opaque frames. A client request, as
//! the broker's front endpoint sees it, is `[client_identity, empty, body]`.
//! The broker prepends `[worker_identity, empty]` before forwarding on the
//! back endpoint; the transport strips the leading routing identity on
//! delivery, so the worker sees `[empty, client_identity, empty, body]`.
//! The worker strips the leading delimiter and sends the rest back.

use vstd::prelude::*;

verus! {

/// Missed heartbeat intervals after which a peer is considered dead.
pub const HEARTBEAT_LIVENESS: u64 = 3;

/// Milliseconds between heartbeat emissions.
pub const HEARTBEAT_INTERVAL_MS: u64 = 1000;

/// Initial reconnect backoff delay in milliseconds.
pub const INTERVAL_INIT_MS: u64 = 1000;

/// Reconnect backoff ceiling in milliseconds.
pub const INTERVAL_MAX_MS: u64 = 32000;

/// How long a worker registration outlives the last message from it.
pub const EXPIRY_SPAN_MS: u64 = HEARTBEAT_INTERVAL_MS * HEARTBEAT_LIVENESS;

/// Control byte a worker sends to announce availability.
pub const READY_BYTE: u8 = 1;

/// Control byte either side sends as proof of life.
pub const HEARTBEAT_BYTE: u8 = 2;

/// The single-frame READY control message.
pub open spec fn is_ready_frame(f: Seq<u8>) -> bool {
    f == seq![READY_BYTE]
}

/// The single-frame HEARTBEAT control message.
pub open spec fn is_heartbeat_frame(f: Seq<u8>) -> bool {
    f == seq![HEARTBEAT_BYTE]
}

/// A delimiter frame carries no bytes.
pub open spec fn is_empty_frame(f: Seq<u8>) -> bool {
    f.len() == 0
}

pub fn ready_frame() -> (r: Vec<u8>)
    ensures
        is_ready_frame(r@),
{
    let mut v: Vec<u8> = Vec::new();
    v.push(READY_BYTE);
    proof {
        assert(v@ =~= seq![READY_BYTE]);
    }
    v
}

pub fn heartbeat_frame() -> (r: Vec<u8>)
    ensures
        is_heartbeat_frame(r@),
{
    let mut v: Vec<u8> = Vec::new();
    v.push(HEARTBEAT_BYTE);
    proof {
        assert(v@ =~= seq![HEARTBEAT_BYTE]);
    }
    v
}

pub fn empty_frame() -> (r: Vec<u8>)
    ensures
        is_empty_frame(r@),
{
    Vec::new()
}

fn frame_is_single(f: &Vec<u8>, byte: u8) -> (r: bool)
    ensures
        r == (f@ == seq![byte]),
{
    if f.len() == 1 {
        let b = f[0];
        proof {
            if b == byte {
                assert(f@ =~= seq![byte]);
            } else {
                assert(f@[0] != seq![byte][0]);
            }
        }
        b == byte
    } else {
        proof {
            assert(f@.len() != seq![byte].len());
        }
        false
    }
}

pub fn frame_is_ready(f: &Vec<u8>) -> (r: bool)
    ensures
        r == is_ready_frame(f@),
{
    frame_is_single(f, READY_BYTE)
}

pub fn frame_is_heartbeat(f: &Vec<u8>) -> (r: bool)
    ensures
        r == is_heartbeat_frame(f@),
{
    frame_is_single(f, HEARTBEAT_BYTE)
}

pub fn frame_is_empty(f: &Vec<u8>) -> (r: bool)
    ensures
        r == is_empty_frame(f@),
{
    f.len() == 0
}

/// The frames of a multipart message, each as its byte sequence.
pub open spec fn frames_view(v: Vec<Vec<u8>>) -> Seq<Seq<u8>> {
    Seq::new(v@.len(), |i: int| v@[i]@)
}

/// A client envelope as the broker's front endpoint sees it:
/// `[client_identity, empty, body]`.
pub open spec fn is_client_envelope(env: Seq<Seq<u8>>) -> bool {
    env.len() == 3 && is_empty_frame(env[1])
}

/// The remainder of a back-endpoint message (after the routing identity)
/// that is a single READY or HEARTBEAT control frame.
pub open spec fn is_control_remainder(rem: Seq<Seq<u8>>) -> bool {
    rem.len() == 1 && (is_ready_frame(rem[0]) || is_heartbeat_frame(rem[0]))
}

/// The remainder of a back-endpoint message that is a reply envelope bound
/// for a client: the same shape as a client envelope.
pub open spec fn is_reply_remainder(rem: Seq<Seq<u8>>) -> bool {
    rem.len() == 3 && is_empty_frame(rem[1])
}

/// What the broker puts on the back-endpoint wire to route `env` to the
/// worker with identity `wid`: the envelope behind `[wid, empty]`.
pub open spec fn routed_to_worker(wid: Seq<u8>, env: Seq<Seq<u8>>) -> Seq<Seq<u8>> {
    seq![wid, Seq::<u8>::empty()] + env
}

/// The transport strips the leading routing identity frame on delivery.
pub open spec fn strip_routing(msg: Seq<Seq<u8>>) -> Seq<Seq<u8>> {
    msg.skip(1)
}

/// A request as the worker receives it: `[empty, client_identity, empty, body]`.
pub open spec fn is_worker_request(msg: Seq<Seq<u8>>) -> bool {
    msg.len() == 4 && is_empty_frame(msg[0]) && is_empty_frame(msg[2])
}

/// A broker heartbeat as the worker receives it: `[empty, HEARTBEAT]`.
pub open spec fn is_worker_heartbeat(msg: Seq<Seq<u8>>) -> bool {
    msg.len() == 2 && is_empty_frame(msg[0]) && is_heartbeat_frame(msg[1])
}

/// The reply a worker sends back: the received request minus its leading
/// delimiter frame.
pub open spec fn worker_reply(msg: Seq<Seq<u8>>) -> Seq<Seq<u8>> {
    msg.skip(1)
}

/// The wire form of the broker's heartbeat to one worker:
/// `[wid, empty, HEARTBEAT]`.
pub open spec fn heartbeat_wire(wid: Seq<u8>) -> Seq<Seq<u8>> {
    seq![wid, Seq::<u8>::empty(), seq![HEARTBEAT_BYTE]]
}

/// Routing round trip: a client envelope routed to any worker and echoed
/// back unchanged comes out as the very envelope the client sent, body
/// included, and every intermediate shape is the one the peer expects.
pub proof fn lemma_routing_round_trip(wid: Seq<u8>, env: Seq<Seq<u8>>)
    requires
        is_client_envelope(env),
    ensures
        is_worker_request(strip_routing(routed_to_worker(wid, env))),
        worker_reply(strip_routing(routed_to_worker(wid, env))) == env,
        is_reply_remainder(worker_reply(strip_routing(routed_to_worker(wid, env)))),
        worker_reply(strip_routing(routed_to_worker(wid, env)))[2] == env[2],
{
    assert(strip_routing(routed_to_worker(wid, env)) =~= seq![Seq::<u8>::empty()] + env);
    assert(worker_reply(strip_routing(routed_to_worker(wid, env))) =~= env);
}

/// Prefix `[wid, empty]` to an envelope: the broker-side routing step.
pub fn route_to_worker_frames(wid: Vec<u8>, env: Vec<Vec<u8>>) -> (r: Vec<Vec<u8>>)
    ensures
        frames_view(r) == routed_to_worker(wid@, frames_view(env)),
{
    let ghost orig = frames_view(env);
    let mut out = env;
    out.insert(0, empty_frame());
    out.insert(0, wid);
    proof {
        assert(frames_view(out) =~~= routed_to_worker(wid@, orig));
    }
    out
}

/// Drop the leading frame: the worker's reply step, and also what the
/// transport does with the routing identity on delivery.
pub fn strip_first_frame(msg: Vec<Vec<u8>>) -> (r: Vec<Vec<u8>>)
    requires
        frames_view(msg).len() >= 1,
    ensures
        frames_view(r) == frames_view(msg).skip(1),
{
    let ghost orig = frames_view(msg);
    let mut out = msg;
    out.remove(0);
    proof {
        assert(frames_view(out) =~= orig.skip(1));
    }
    out
}

/// The broker's heartbeat message to the worker with identity `wid`.
pub fn heartbeat_msg(wid: Vec<u8>) -> (r: Vec<Vec<u8>>)
    ensures
        frames_view(r) == heartbeat_wire(wid@),
{
    let ghost id = wid@;
    let mut out: Vec<Vec<u8>> = Vec::new();
    out.push(wid);
    out.push(empty_frame());
    out.push(heartbeat_frame());
    proof {
        assert(frames_view(out) =~~= heartbeat_wire(id));
    }
    out
}

/// Identities are opaque byte tokens, compared only for equality.
pub fn bytes_eq(a: &Vec<u8>, b: &Vec<u8>) -> (r: bool)
    ensures
        r == (a@ == b@),
{
    if a.len() != b.len() {
        return false;
    }
    let mut i: usize = 0;
    while i < a.len()
        invariant
            i <= a@.len(),
            a@.len() == b@.len(),
            forall|k: int| 0 <= k < i ==> a@[k] == b@[k],
        decreases a@.len() - i,
    {
        if a[i] != b[i] {
            return false;
        }
        i += 1;
    }
    proof {
        assert(a@ =~= b@);
    }
    true
}

/// A fresh copy of an opaque byte token.
pub fn copy_bytes(a: &Vec<u8>) -> (r: Vec<u8>)
    ensures
        r@ == a@,
{
    let mut out: Vec<u8> = Vec::new();
    let mut i: usize = 0;
    while i < a.len()
        invariant
            i <= a@.len(),
            out@ == a@.subrange(0, i as int),
        decreases a@.len() - i,
    {
        out.push(a[i]);
        proof {
            assert(out@ =~= a@.subrange(0, i + 1));
        }
        i += 1;
    }
    proof {
        assert(a@.subrange(0, a@.len() as int) =~= a@);
    }
    out
}

} // verus!
