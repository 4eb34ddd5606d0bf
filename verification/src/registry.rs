//! The worker registry: the broker's in-memory pool of known workers with
//! liveness expiry.
//!
//! The pool is an ordered collection of records with no duplicate
//! identities. Registration removes any prior record with the same identity
//! and appends a fresh one, so the most recently ready worker sits at the
//! end; selection pops from the end (LIFO). Purging removes every record
//! whose expiry has passed.

use vstd::prelude::*;
use crate::protocol::EXPIRY_SPAN_MS;
use crate::protocol::bytes_eq;
use crate::protocol::copy_bytes;

verus! {

/// One known worker: an opaque routing identity and the absolute time (in
/// milliseconds) past which it is considered dead unless it sends traffic.
pub struct WorkerRecord {
    pub identity: Vec<u8>,
    pub expiry: u64,
}

/// The pool without any record carrying `id`; order otherwise kept.
pub open spec fn remove_id(s: Seq<WorkerRecord>, id: Seq<u8>) -> Seq<WorkerRecord>
    decreases s.len(),
{
    if s.len() == 0 {
        Seq::empty()
    } else if s.last().identity@ != id {
        remove_id(s.drop_last(), id).push(s.last())
    } else {
        remove_id(s.drop_last(), id)
    }
}

/// Registration: drop any prior record with `r`'s identity, then append `r`.
pub open spec fn upsert(s: Seq<WorkerRecord>, r: WorkerRecord) -> Seq<WorkerRecord> {
    remove_id(s, r.identity@).push(r)
}

/// The records whose expiry has not yet passed at time `now`.
pub open spec fn live_records(s: Seq<WorkerRecord>, now: u64) -> Seq<WorkerRecord>
    decreases s.len(),
{
    if s.len() == 0 {
        Seq::empty()
    } else if s.last().expiry >= now {
        live_records(s.drop_last(), now).push(s.last())
    } else {
        live_records(s.drop_last(), now)
    }
}

/// The records whose expiry has passed at time `now`.
pub open spec fn expired_records(s: Seq<WorkerRecord>, now: u64) -> Seq<WorkerRecord>
    decreases s.len(),
{
    if s.len() == 0 {
        Seq::empty()
    } else if s.last().expiry < now {
        expired_records(s.drop_last(), now).push(s.last())
    } else {
        expired_records(s.drop_last(), now)
    }
}

/// How many records carry `id`.
pub open spec fn count_id(s: Seq<WorkerRecord>, id: Seq<u8>) -> nat
    decreases s.len(),
{
    if s.len() == 0 {
        0
    } else if s.last().identity@ == id {
        count_id(s.drop_last(), id) + 1
    } else {
        count_id(s.drop_last(), id)
    }
}

/// `s1` is `s0` with the expiry of the record carrying `id` (if any) set to
/// `expiry`: same length, same order, every other record untouched.
pub open spec fn refreshed(
    s0: Seq<WorkerRecord>,
    s1: Seq<WorkerRecord>,
    id: Seq<u8>,
    expiry: u64,
) -> bool {
    &&& s1.len() == s0.len()
    &&& forall|i: int|
        0 <= i < s0.len() && s0[i].identity@ != id ==> s1[i] == s0[i]
    &&& forall|i: int|
        0 <= i < s0.len() && s0[i].identity@ == id ==> s1[i] == (WorkerRecord {
            identity: s0[i].identity,
            expiry,
        })
}

/// No two records carry the same identity.
pub open spec fn distinct_ids(s: Seq<WorkerRecord>) -> bool {
    forall|i: int, j: int|
        0 <= i < j < s.len() ==> s[i].identity@ != s[j].identity@
}

/// What removal by identity leaves: records of other identities only, each
/// of them present in the original pool.
proof fn lemma_remove_id_spec(s: Seq<WorkerRecord>, id: Seq<u8>)
    ensures
        remove_id(s, id).len() <= s.len(),
        forall|i: int|
            0 <= i < remove_id(s, id).len()
                ==> (#[trigger] remove_id(s, id)[i]).identity@ != id,
        forall|i: int|
            0 <= i < remove_id(s, id).len() ==> s.contains(#[trigger] remove_id(s, id)[i]),
    decreases s.len(),
{
    if s.len() == 0 {
    } else {
        let d = s.drop_last();
        lemma_remove_id_spec(d, id);
        assert forall|i: int|
            0 <= i < remove_id(s, id).len() implies s.contains(
            #[trigger] remove_id(s, id)[i],
        ) by {
            if s.last().identity@ != id && i == remove_id(s, id).len() - 1 {
                assert(remove_id(s, id)[i] == s.last());
                assert(s[s.len() - 1] == s.last());
            } else {
                assert(remove_id(s, id)[i] == remove_id(d, id)[i]);
                assert(d.contains(remove_id(d, id)[i]));
                let k = choose|k: int| 0 <= k < d.len() && d[k] == remove_id(d, id)[i];
                assert(s[k] == d[k]);
            }
        }
    }
}

/// Removal by one identity never leaves a record of that identity behind.
proof fn lemma_remove_id_count(s: Seq<WorkerRecord>, id: Seq<u8>)
    ensures
        count_id(remove_id(s, id), id) == 0,
    decreases s.len(),
{
    if s.len() == 0 {
    } else {
        let d = s.drop_last();
        lemma_remove_id_count(d, id);
        if s.last().identity@ != id {
            let r = remove_id(d, id).push(s.last());
            assert(r.drop_last() =~= remove_id(d, id));
            assert(r.last() == s.last());
        }
    }
}

/// Removing an identity twice is the same as removing it once.
proof fn lemma_remove_id_idempotent(s: Seq<WorkerRecord>, id: Seq<u8>)
    ensures
        remove_id(remove_id(s, id), id) == remove_id(s, id),
    decreases s.len(),
{
    if s.len() == 0 {
    } else {
        let d = s.drop_last();
        lemma_remove_id_idempotent(d, id);
        if s.last().identity@ != id {
            let r = remove_id(d, id).push(s.last());
            assert(r.drop_last() =~= remove_id(d, id));
            assert(r.last() == s.last());
            assert(remove_id(r, id) == remove_id(remove_id(d, id), id).push(s.last()));
        }
    }
}

/// Removal by identity keeps distinct identities distinct.
proof fn lemma_remove_id_distinct(s: Seq<WorkerRecord>, id: Seq<u8>)
    requires
        distinct_ids(s),
    ensures
        distinct_ids(remove_id(s, id)),
    decreases s.len(),
{
    if s.len() == 0 {
    } else {
        let d = s.drop_last();
        assert forall|i: int, j: int|
            0 <= i < j < d.len() implies d[i].identity@ != d[j].identity@ by {
            assert(d[i] == s[i]);
            assert(d[j] == s[j]);
        }
        lemma_remove_id_distinct(d, id);
        lemma_remove_id_spec(d, id);
        if s.last().identity@ != id {
            let r = remove_id(d, id).push(s.last());
            assert forall|i: int, j: int|
                0 <= i < j < r.len() implies r[i].identity@ != r[j].identity@ by {
                if j < r.len() - 1 {
                    assert(r[i] == remove_id(d, id)[i]);
                    assert(r[j] == remove_id(d, id)[j]);
                } else {
                    assert(r[i] == remove_id(d, id)[i]);
                    assert(d.contains(remove_id(d, id)[i]));
                    let k = choose|k: int| 0 <= k < d.len() && d[k] == remove_id(d, id)[i];
                    assert(d[k] == s[k]);
                    assert(s[k].identity@ != s[s.len() - 1].identity@);
                }
            }
        }
    }
}

/// Registration keeps identities distinct.
proof fn lemma_upsert_distinct(s: Seq<WorkerRecord>, r: WorkerRecord)
    requires
        distinct_ids(s),
    ensures
        distinct_ids(upsert(s, r)),
{
    let id = r.identity@;
    lemma_remove_id_distinct(s, id);
    lemma_remove_id_spec(s, id);
    let u = upsert(s, r);
    assert forall|i: int, j: int|
        0 <= i < j < u.len() implies u[i].identity@ != u[j].identity@ by {
        if j < u.len() - 1 {
            assert(u[i] == remove_id(s, id)[i]);
            assert(u[j] == remove_id(s, id)[j]);
        } else {
            assert(u[i] == remove_id(s, id)[i]);
            assert(u[j] == r);
        }
    }
}

/// A registered identity appears exactly once afterwards.
pub proof fn lemma_upsert_count(s: Seq<WorkerRecord>, r: WorkerRecord)
    ensures
        count_id(upsert(s, r), r.identity@) == 1,
{
    let id = r.identity@;
    lemma_remove_id_count(s, id);
    let u = upsert(s, r);
    assert(u.drop_last() =~= remove_id(s, id));
    assert(u.last() == r);
}

/// Registering the same identity twice leaves exactly one record for it,
/// the later one: a second READY replaces the first registration outright.
pub proof fn lemma_ready_idempotent(s: Seq<WorkerRecord>, r1: WorkerRecord, r2: WorkerRecord)
    requires
        r1.identity@ == r2.identity@,
    ensures
        count_id(upsert(upsert(s, r1), r2), r2.identity@) == 1,
        upsert(upsert(s, r1), r2) == upsert(s, r2),
{
    let id = r2.identity@;
    lemma_upsert_count(upsert(s, r1), r2);
    let u1 = upsert(s, r1);
    assert(u1.drop_last() =~= remove_id(s, id));
    assert(u1.last() == r1);
    assert(remove_id(u1, id) == remove_id(remove_id(s, id), id));
    lemma_remove_id_idempotent(s, id);
}

/// Every record the purge keeps stood in the pool before it.
proof fn lemma_live_records_membership(s: Seq<WorkerRecord>, now: u64)
    ensures
        forall|i: int|
            0 <= i < live_records(s, now).len() ==> s.contains(
                #[trigger] live_records(s, now)[i],
            ),
    decreases s.len(),
{
    if s.len() == 0 {
    } else {
        let d = s.drop_last();
        lemma_live_records_membership(d, now);
        assert forall|i: int|
            0 <= i < live_records(s, now).len() implies s.contains(
            #[trigger] live_records(s, now)[i],
        ) by {
            if s.last().expiry >= now && i == live_records(s, now).len() - 1 {
                assert(live_records(s, now)[i] == s.last());
                assert(s[s.len() - 1] == s.last());
            } else {
                assert(live_records(s, now)[i] == live_records(d, now)[i]);
                assert(d.contains(live_records(d, now)[i]));
                let k = choose|k: int| 0 <= k < d.len() && d[k] == live_records(d, now)[i];
                assert(s[k] == d[k]);
            }
        }
    }
}

/// Purging splits the pool exactly: with N records of which K are expired
/// at purge time, the K expired ones all go and the N - K live ones all
/// stay, in their old order, whatever the order was.
pub proof fn lemma_purge_complete(s: Seq<WorkerRecord>, now: u64)
    ensures
        live_records(s, now).len() + expired_records(s, now).len() == s.len(),
        forall|i: int|
            0 <= i < live_records(s, now).len()
                ==> (#[trigger] live_records(s, now)[i]).expiry >= now,
        forall|i: int|
            0 <= i < expired_records(s, now).len()
                ==> (#[trigger] expired_records(s, now)[i]).expiry < now,
        forall|i: int|
            0 <= i < s.len() && s[i].expiry >= now
                ==> live_records(s, now).contains(#[trigger] s[i]),
        forall|i: int|
            0 <= i < s.len() && s[i].expiry < now
                ==> expired_records(s, now).contains(#[trigger] s[i]),
    decreases s.len(),
{
    if s.len() == 0 {
    } else {
        let d = s.drop_last();
        lemma_purge_complete(d, now);
        assert forall|i: int|
            0 <= i < s.len() && s[i].expiry >= now implies live_records(s, now).contains(
            #[trigger] s[i],
        ) by {
            if i == s.len() - 1 {
                let l = live_records(s, now);
                assert(l[l.len() - 1] == s[i]);
            } else {
                assert(d[i] == s[i]);
                assert(d[i].expiry >= now);
                assert(live_records(d, now).contains(d[i]));
                let k = choose|k: int|
                    0 <= k < live_records(d, now).len() && live_records(d, now)[k] == d[i];
                assert(live_records(s, now)[k] == s[i]);
            }
        }
        assert forall|i: int|
            0 <= i < s.len() && s[i].expiry < now implies expired_records(s, now).contains(
            #[trigger] s[i],
        ) by {
            if i == s.len() - 1 {
                let e = expired_records(s, now);
                assert(e[e.len() - 1] == s[i]);
            } else {
                assert(d[i] == s[i]);
                assert(d[i].expiry < now);
                assert(expired_records(d, now).contains(d[i]));
                let k = choose|k: int|
                    0 <= k < expired_records(d, now).len() && expired_records(d, now)[k]
                        == d[i];
                assert(expired_records(s, now)[k] == s[i]);
            }
        }
    }
}

/// Purging keeps distinct identities distinct.
proof fn lemma_live_records_distinct(s: Seq<WorkerRecord>, now: u64)
    requires
        distinct_ids(s),
    ensures
        distinct_ids(live_records(s, now)),
    decreases s.len(),
{
    if s.len() == 0 {
    } else {
        let d = s.drop_last();
        assert forall|i: int, j: int|
            0 <= i < j < d.len() implies d[i].identity@ != d[j].identity@ by {
            assert(d[i] == s[i]);
            assert(d[j] == s[j]);
        }
        lemma_live_records_distinct(d, now);
        lemma_live_records_membership(d, now);
        if s.last().expiry >= now {
            let r = live_records(d, now).push(s.last());
            assert forall|i: int, j: int|
                0 <= i < j < r.len() implies r[i].identity@ != r[j].identity@ by {
                if j < r.len() - 1 {
                    assert(r[i] == live_records(d, now)[i]);
                    assert(r[j] == live_records(d, now)[j]);
                } else {
                    assert(r[i] == live_records(d, now)[i]);
                    assert(d.contains(live_records(d, now)[i]));
                    let k = choose|k: int| 0 <= k < d.len() && d[k] == live_records(d, now)[i];
                    assert(d[k] == s[k]);
                    assert(s[k].identity@ != s[s.len() - 1].identity@);
                }
            }
        }
    }
}

/// The broker's pool of live workers, most recently ready last.
pub struct WorkerPool {
    records: Vec<WorkerRecord>,
}

impl View for WorkerPool {
    type V = Seq<WorkerRecord>;

    closed spec fn view(&self) -> Seq<WorkerRecord> {
        self.records@
    }
}

impl WorkerPool {
    /// The pool invariant: no duplicate identities.
    pub open spec fn wf(self) -> bool {
        distinct_ids(self@)
    }

    pub fn new() -> (p: WorkerPool)
        ensures
            p@ == Seq::<WorkerRecord>::empty(),
            p.wf(),
    {
        WorkerPool { records: Vec::new() }
    }

    pub fn len(&self) -> (n: usize)
        ensures
            n == self@.len(),
    {
        self.records.len()
    }

    pub fn is_empty(&self) -> (r: bool)
        ensures
            r == (self@.len() == 0),
    {
        self.records.len() == 0
    }

    /// Mark a worker ready: drop any prior record with the same identity and
    /// append a fresh one expiring `EXPIRY_SPAN_MS` from `now`.
    pub fn ready(&mut self, identity: Vec<u8>, now: u64)
        requires
            old(self).wf(),
            now <= u64::MAX - EXPIRY_SPAN_MS,
        ensures
            final(self).wf(),
            final(self)@ == upsert(
                old(self)@,
                (WorkerRecord { identity, expiry: (now + EXPIRY_SPAN_MS) as u64 }),
            ),
    {
        let ghost orig = self.records@;
        let ghost mut k: int = 0;
        let mut kept: Vec<WorkerRecord> = Vec::new();
        proof {
            assert(orig.subrange(0, 0) =~= Seq::<WorkerRecord>::empty());
            assert(orig.subrange(0, orig.len() as int) =~= orig);
        }
        while self.records.len() > 0
            invariant
                0 <= k <= orig.len(),
                self.records@ == orig.subrange(k, orig.len() as int),
                kept@ == remove_id(orig.subrange(0, k), identity@),
            decreases self.records@.len(),
        {
            let r = self.records.remove(0);
            proof {
                assert(r == orig[k]);
                assert(self.records@ =~= orig.subrange(k + 1, orig.len() as int));
                let p = orig.subrange(0, k + 1);
                assert(p.drop_last() =~= orig.subrange(0, k));
                assert(p.last() == orig[k]);
            }
            if !bytes_eq(&r.identity, &identity) {
                kept.push(r);
            }
            proof {
                k = k + 1;
            }
        }
        kept.push(WorkerRecord { identity, expiry: now + EXPIRY_SPAN_MS });
        self.records = kept;
        proof {
            lemma_upsert_distinct(
                orig,
                WorkerRecord { identity: identity, expiry: (now + EXPIRY_SPAN_MS) as u64 },
            );
        }
    }

    /// Refresh the expiry of the worker with this identity, if it is
    /// registered: any traffic from a worker is proof of life. Position and
    /// all other records are untouched; an unknown identity changes nothing.
    pub fn refresh(&mut self, identity: &Vec<u8>, now: u64)
        requires
            old(self).wf(),
            now <= u64::MAX - EXPIRY_SPAN_MS,
        ensures
            final(self).wf(),
            refreshed(old(self)@, final(self)@, identity@, (now + EXPIRY_SPAN_MS) as u64),
    {
        let ghost orig = self.records@;
        let mut i: usize = 0;
        while i < self.records.len()
            invariant
                self.records@ == orig,
                i <= orig.len(),
                forall|k: int| 0 <= k < i ==> orig[k].identity@ != identity@,
                old(self).wf(),
                orig == old(self)@,
                now <= u64::MAX - EXPIRY_SPAN_MS,
            decreases orig.len() - i,
        {
            if bytes_eq(&self.records[i].identity, identity) {
                let r = self.records.remove(i);
                self.records.insert(
                    i,
                    WorkerRecord { identity: r.identity, expiry: now + EXPIRY_SPAN_MS },
                );
                proof {
                    assert(self.records@ =~= orig.update(
                        i as int,
                        (WorkerRecord {
                            identity: orig[i as int].identity,
                            expiry: (now + EXPIRY_SPAN_MS) as u64,
                        }),
                    ));
                    assert forall|a: int, b: int|
                        0 <= a < b < self.records@.len()
                            implies self.records@[a].identity@ != self.records@[b].identity@
                        by {
                        assert(self.records@[a].identity@ == orig[a].identity@);
                        assert(self.records@[b].identity@ == orig[b].identity@);
                    }
                }
                return;
            }
            i += 1;
        }
    }

    /// Take the most recently ready worker, if any (LIFO selection).
    pub fn pop_next(&mut self) -> (r: Option<Vec<u8>>)
        requires
            old(self).wf(),
        ensures
            final(self).wf(),
            old(self)@.len() == 0 ==> r is None && final(self)@ == old(self)@,
            old(self)@.len() > 0 ==> final(self)@ == old(self)@.drop_last() && r == Some(
                old(self)@.last().identity,
            ),
    {
        let out = match self.records.pop() {
            None => None,
            Some(rec) => Some(rec.identity),
        };
        proof {
            assert forall|i: int, j: int|
                0 <= i < j < self.records@.len()
                    implies self.records@[i].identity@ != self.records@[j].identity@ by {
                assert(self.records@[i] == old(self)@[i]);
                assert(self.records@[j] == old(self)@[j]);
            }
        }
        out
    }

    /// Take the oldest-registered worker, if any: the FIFO alternative to
    /// `pop_next`, for callers that trade connection warmth for fairness.
    /// This broker uses LIFO selection; the protocol allows either.
    pub fn pop_oldest(&mut self) -> (r: Option<Vec<u8>>)
        requires
            old(self).wf(),
        ensures
            final(self).wf(),
            old(self)@.len() == 0 ==> r is None && final(self)@ == old(self)@,
            old(self)@.len() > 0 ==> final(self)@ == old(self)@.skip(1) && r == Some(
                old(self)@[0].identity,
            ),
    {
        if self.records.len() == 0 {
            return None;
        }
        let rec = self.records.remove(0);
        proof {
            assert(self.records@ =~= old(self)@.skip(1));
            assert forall|i: int, j: int|
                0 <= i < j < self.records@.len()
                    implies self.records@[i].identity@ != self.records@[j].identity@ by {
                assert(self.records@[i] == old(self)@[i + 1]);
                assert(self.records@[j] == old(self)@[j + 1]);
            }
        }
        Some(rec.identity)
    }

    /// Remove every record whose expiry has passed, not only the first.
    pub fn purge(&mut self, now: u64)
        requires
            old(self).wf(),
        ensures
            final(self).wf(),
            final(self)@ == live_records(old(self)@, now),
    {
        let ghost orig = self.records@;
        let ghost mut k: int = 0;
        let mut kept: Vec<WorkerRecord> = Vec::new();
        proof {
            assert(orig.subrange(0, 0) =~= Seq::<WorkerRecord>::empty());
            assert(orig.subrange(0, orig.len() as int) =~= orig);
        }
        while self.records.len() > 0
            invariant
                0 <= k <= orig.len(),
                self.records@ == orig.subrange(k, orig.len() as int),
                kept@ == live_records(orig.subrange(0, k), now),
            decreases self.records@.len(),
        {
            let r = self.records.remove(0);
            proof {
                assert(r == orig[k]);
                assert(self.records@ =~= orig.subrange(k + 1, orig.len() as int));
                let p = orig.subrange(0, k + 1);
                assert(p.drop_last() =~= orig.subrange(0, k));
                assert(p.last() == orig[k]);
            }
            if r.expiry >= now {
                kept.push(r);
            }
            proof {
                k = k + 1;
            }
        }
        self.records = kept;
        proof {
            lemma_live_records_distinct(orig, now);
        }
    }

    /// A copy of every registered identity, in pool order: the broker's
    /// heartbeat goes to every currently registered worker.
    pub fn identities(&self) -> (r: Vec<Vec<u8>>)
        ensures
            r@.len() == self@.len(),
            forall|i: int| 0 <= i < self@.len() ==> #[trigger] r@[i]@ == self@[i].identity@,
    {
        let mut out: Vec<Vec<u8>> = Vec::new();
        let mut i: usize = 0;
        while i < self.records.len()
            invariant
                i <= self@.len(),
                out@.len() == i,
                forall|k: int| 0 <= k < i ==> #[trigger] out@[k]@ == self@[k].identity@,
            decreases self@.len() - i,
        {
            out.push(copy_bytes(&self.records[i].identity));
            i += 1;
        }
        out
    }
}

} // verus!
