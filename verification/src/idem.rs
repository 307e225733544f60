//! Idempotency-key store: completed responses kept for a time-to-live,
//! and reservations of keys whose request is still executing.

use vstd::prelude::*;
use vstd::string::*;

use crate::problem::{problem_new_view, Problem, ProblemCode};
use crate::text::str_eq;

verus! {

/// `std::time::Instant`, carried opaquely.
#[verifier::external_type_specification]
#[verifier::external_body]
pub struct ExInstant(std::time::Instant);

/// Whether an age of `secs` seconds and `nanos` nanoseconds is strictly
/// longer than `ttl_secs` seconds.
pub open spec fn outlives_spec(secs: u64, nanos: u32, ttl_secs: u64) -> bool {
    secs > ttl_secs || (secs == ttl_secs && nanos > 0)
}

/// Whether an age strictly exceeds the time-to-live (see [`outlives_spec`]).
pub fn outlives(secs: u64, nanos: u32, ttl_secs: u64) -> (r: bool)
    ensures
        r == outlives_spec(secs, nanos, ttl_secs),
{
    secs > ttl_secs || (secs == ttl_secs && nanos > 0)
}

/// `std::time::Instant::elapsed`, as whole seconds and the sub-second
/// nanoseconds. Trusted: the value depends on the clock; the nanosecond
/// part is below one second, as `Duration` documents.
#[verifier::external_body]
fn elapsed_parts(t: &std::time::Instant) -> (r: (u64, u32))
    ensures
        r.1 < 1_000_000_000,
{
    let d = t.elapsed();
    (d.as_secs(), d.subsec_nanos())
}

/// A stored idempotent response.
#[derive(Debug)]
pub struct IdemRecord {
    /// Hash of the canonical request body.
    pub body_hash: u64,
    /// Stored response status.
    pub status: u16,
    /// Stored response body (JSON text).
    pub body_json: String,
    /// Insertion time.
    pub created: std::time::Instant,
}

impl IdemRecord {
    /// A copy of this record.
    pub fn duplicate(&self) -> (r: IdemRecord)
        ensures
            r == *self,
    {
        IdemRecord {
            body_hash: self.body_hash,
            status: self.status,
            body_json: self.body_json.clone(),
            created: self.created,
        }
    }
}

/// Outcome of reserving an idempotency key for one request.
#[derive(Debug)]
pub enum IdemReservation {
    /// The key is free; this caller now owns it and must complete or
    /// abort the reservation.
    Reserved,
    /// A completed request with the same body hash exists; replay it.
    Replay(IdemRecord),
    /// A completed request with a different body hash exists.
    ConflictReuse,
    /// Another request with this key is still executing.
    InFlight,
}

/// Idempotency-key store with a time-to-live.
pub struct IdemStore {
    ttl_secs: u64,
    records: Vec<(String, IdemRecord)>,
    pending: Vec<String>,
}

/// The value stored under `k` in an association list, if any.
pub open spec fn assoc_get<V>(s: Seq<(String, V)>, k: Seq<char>) -> Option<V> {
    if exists|i: int| 0 <= i < s.len() && (#[trigger] s[i]).0@ == k {
        Some(s[choose|i: int| 0 <= i < s.len() && (#[trigger] s[i]).0@ == k].1)
    } else {
        None
    }
}

/// Association-list keys are distinct.
pub open spec fn assoc_distinct<V>(s: Seq<(String, V)>) -> bool {
    forall|i: int, j: int| 0 <= i < j < s.len() ==> (#[trigger] s[i]).0@ != (#[trigger] s[j]).0@
}

/// With distinct keys, a slot gives the value stored under its key.
pub proof fn lemma_assoc_at<V>(s: Seq<(String, V)>, i: int)
    requires
        assoc_distinct(s),
        0 <= i < s.len(),
    ensures
        assoc_get(s, s[i].0@) == Some(s[i].1),
{
    let k = s[i].0@;
    assert(s[i].0@ == k);
    let c = choose|j: int| 0 <= j < s.len() && (#[trigger] s[j]).0@ == k;
    if c != i {
        if c < i {
            assert(s[c].0@ != s[i].0@);
        } else {
            assert(s[i].0@ != s[c].0@);
        }
    }
}

/// Some string of `s` has the characters `k`.
pub open spec fn has_str(s: Seq<String>, k: Seq<char>) -> bool {
    exists|i: int| 0 <= i < s.len() && (#[trigger] s[i])@ == k
}

/// Largest record count before a put sweeps expired records.
pub open spec fn sweep_threshold() -> nat {
    4096
}

/// `n` is `o` after reserving `key` for a request with `body_hash`,
/// `expired` telling whether the stored record outlived its time-to-live:
/// a held key answers `InFlight`; a live record answers `Replay` (same
/// hash) or `ConflictReuse`; otherwise the key becomes held, any expired
/// record dropped. Other keys are untouched.
pub open spec fn reservation(
    o: IdemStore,
    n: IdemStore,
    key: Seq<char>,
    body_hash: u64,
    expired: bool,
    r: IdemReservation,
) -> bool {
    &&& forall|q: Seq<char>| q != key ==> #[trigger] n.record_of(q) == o.record_of(q)
    &&& forall|q: Seq<char>| q != key ==> #[trigger] n.is_pending(q) == o.is_pending(q)
    &&& if o.is_pending(key) {
        r is InFlight && n.record_of(key) == o.record_of(key) && n.is_pending(key)
    } else {
        match o.record_of(key) {
            Some(rec) if !expired => n.record_of(key) == Some(rec) && !n.is_pending(key) && if rec.body_hash
                == body_hash {
                r == IdemReservation::Replay(rec)
            } else {
                r is ConflictReuse
            },
            _ => r is Reserved && n.record_of(key) is None && n.is_pending(key),
        }
    }
}

/// `n` is `o` after releasing `key`'s reservation.
pub open spec fn aborted(o: IdemStore, n: IdemStore, key: Seq<char>) -> bool {
    &&& !n.is_pending(key)
    &&& forall|q: Seq<char>| q != key ==> #[trigger] n.is_pending(q) == o.is_pending(q)
    &&& forall|q: Seq<char>| #[trigger] n.record_of(q) == o.record_of(q)
}

/// `n` is `o` after completing `key` with `record`: the key is released
/// and holds the record; other keys keep their record unless swept as
/// expired.
pub open spec fn completed(o: IdemStore, n: IdemStore, key: Seq<char>, record: IdemRecord) -> bool {
    &&& !n.is_pending(key)
    &&& forall|q: Seq<char>| q != key ==> #[trigger] n.is_pending(q) == o.is_pending(q)
    &&& n.record_of(key) == Some(record)
    &&& forall|q: Seq<char>| q != key ==> (#[trigger] n.record_of(q) is None || n.record_of(q) == o.record_of(q))
}

/// The idempotency protocol on one key: a free key is reserved; while
/// held, a second request is told it is in flight; once completed with a
/// response, a retry with the same body (before expiry) replays that
/// response and one with another body is a conflict; after an abort the
/// key can be reserved anew.
pub proof fn law_idempotency_protocol(
    s0: IdemStore,
    s1: IdemStore,
    s2: IdemStore,
    s3: IdemStore,
    key: Seq<char>,
    h: u64,
    h2: u64,
    r1: IdemReservation,
    r2: IdemReservation,
    rec: IdemRecord,
    r3: IdemReservation,
)
    requires
        !s0.is_pending(key),
        s0.record_of(key) is None,
        reservation(s0, s1, key, h, false, r1),
        reservation(s1, s2, key, h2, false, r2),
        completed(s1, s3, key, rec),
    ensures
        r1 is Reserved,
        r2 is InFlight,
        s3.record_of(key) == Some(rec) && !s3.is_pending(key),
        forall|s4: IdemStore, r4: IdemReservation|
            #![trigger reservation(s3, s4, key, rec.body_hash, false, r4)]
            reservation(s3, s4, key, rec.body_hash, false, r4) ==> r4 == IdemReservation::Replay(rec),
        forall|s4: IdemStore, r4: IdemReservation, h4: u64|
            #![trigger reservation(s3, s4, key, h4, false, r4)]
            h4 != rec.body_hash && reservation(s3, s4, key, h4, false, r4) ==> r4 is ConflictReuse,
{
}

/// A replay changes nothing: whatever the clock said, a reservation that
/// answers `Replay` leaves the key released and holding the same record,
/// so the next retry with the same body (before expiry) replays again.
pub proof fn law_replay_is_stable(
    s3: IdemStore,
    s4: IdemStore,
    s5: IdemStore,
    key: Seq<char>,
    h: u64,
    e: bool,
    rec: IdemRecord,
    r5: IdemReservation,
)
    requires
        reservation(s3, s4, key, h, e, IdemReservation::Replay(rec)),
        reservation(s4, s5, key, h, false, r5),
    ensures
        s4.record_of(key) == s3.record_of(key),
        s4.is_pending(key) == s3.is_pending(key),
        !s4.is_pending(key),
        r5 == IdemReservation::Replay(rec),
        s5.record_of(key) == Some(rec),
{
}

/// Aborting a held key frees it: the next reservation succeeds.
pub proof fn law_abort_frees(s1: IdemStore, s2: IdemStore, s3: IdemStore, key: Seq<char>, h: u64, r: IdemReservation)
    requires
        s1.is_pending(key),
        s1.record_of(key) is None,
        aborted(s1, s2, key),
        reservation(s2, s3, key, h, false, r),
    ensures
        r is Reserved,
        s3.is_pending(key),
{
}

impl IdemStore {
    /// Time-to-live in seconds.
    pub closed spec fn ttl_view(&self) -> u64 {
        self.ttl_secs
    }

    /// The record stored under `k`, if any.
    pub closed spec fn record_of(&self, k: Seq<char>) -> Option<IdemRecord> {
        assoc_get(self.records@, k)
    }

    /// Whether a request holding key `k` is executing.
    pub closed spec fn is_pending(&self, k: Seq<char>) -> bool {
        has_str(self.pending@, k)
    }

    /// Number of stored records.
    pub closed spec fn record_count(&self) -> nat {
        self.records@.len()
    }

    /// Keys of the record list are distinct.
    pub closed spec fn wf(&self) -> bool {
        &&& assoc_distinct(self.records@)
        &&& forall|i: int, j: int| 0 <= i < j < self.pending@.len() ==> (#[trigger] self.pending@[i])@ != (
        #[trigger] self.pending@[j])@
    }

    /// An empty store whose records live `ttl_hours` hours (saturating).
    pub fn new(ttl_hours: u64) -> (r: IdemStore)
        ensures
            r.wf(),
            r.ttl_view() == (if ttl_hours * 3600 > u64::MAX {
                u64::MAX as int
            } else {
                ttl_hours * 3600
            }),
            forall|k: Seq<char>| r.record_of(k) is None && !r.is_pending(k),
            r.record_count() == 0,
    {
        let ttl = if ttl_hours > u64::MAX / 3600 {
            u64::MAX
        } else {
            ttl_hours * 3600
        };
        IdemStore { ttl_secs: ttl, records: Vec::new(), pending: Vec::new() }
    }

    /// Whether a record has outlived the time-to-live (see [`outlives`]),
    /// by its age on the clock now; which age the clock reports is not
    /// stated.
    pub fn is_expired(&self, rec: &IdemRecord) -> (r: bool)
        ensures
            exists|secs: u64, nanos: u32| nanos < 1_000_000_000 && r == outlives_spec(secs, nanos, self.ttl_view()),
    {
        let (secs, nanos) = elapsed_parts(&rec.created);
        let r = outlives(secs, nanos, self.ttl_secs);
        assert(nanos < 1_000_000_000 && r == outlives_spec(secs, nanos, self.ttl_view()));
        r
    }

    /// Slot of the record stored under `k`.
    fn record_slot(&self, k: &str) -> (r: Option<usize>)
        requires
            self.wf(),
        ensures
            match r {
                Some(i) => i < self.records@.len() && self.records@[i as int].0@ == k@ && self.record_of(k@) == Some(
                    self.records@[i as int].1,
                ),
                None => self.record_of(k@) is None,
            },
    {
        let mut i: usize = 0;
        while i < self.records.len()
            invariant
                i <= self.records@.len(),
                self.wf(),
                forall|j: int| 0 <= j < i ==> (#[trigger] self.records@[j]).0@ != k@,
            decreases self.records.len() - i,
        {
            if str_eq(self.records[i].0.as_str(), k) {
                proof {
                    lemma_assoc_at(self.records@, i as int);
                }
                return Some(i);
            }
            i = i + 1;
        }
        None
    }

    /// Slot of a pending key.
    fn pending_slot(&self, k: &str) -> (r: Option<usize>)
        ensures
            match r {
                Some(i) => i < self.pending@.len() && self.pending@[i as int]@ == k@,
                None => !self.is_pending(k@),
            },
    {
        let mut i: usize = 0;
        while i < self.pending.len()
            invariant
                i <= self.pending@.len(),
                forall|j: int| 0 <= j < i ==> (#[trigger] self.pending@[j])@ != k@,
            decreases self.pending.len() - i,
        {
            if str_eq(self.pending[i].as_str(), k) {
                return Some(i);
            }
            i = i + 1;
        }
        None
    }

    /// Remove the record stored under `k`, if any.
    fn remove_record(&mut self, k: &str)
        requires
            old(self).wf(),
        ensures
            final(self).wf(),
            final(self).ttl_view() == old(self).ttl_view(),
            final(self).pending@ == old(self).pending@,
            final(self).record_of(k@) is None,
            forall|q: Seq<char>| q != k@ ==> #[trigger] final(self).record_of(q) == old(self).record_of(q),
            final(self).record_count() <= old(self).record_count(),
    {
        match self.record_slot(k) {
            None => {},
            Some(i) => {
                let ghost o = self.records@;
                let _ = self.records.remove(i);
                proof {
                    let n = self.records@;
                    assert forall|a: int, b: int| 0 <= a < b < n.len() implies (#[trigger] n[a]).0@ != (
                    #[trigger] n[b]).0@ by {
                        let aa = if a < i { a } else { a + 1 };
                        let bb = if b < i { b } else { b + 1 };
                        assert(n[a] == o[aa] && n[b] == o[bb]);
                    }
                    assert forall|q: Seq<char>| #[trigger] assoc_get(n, q) == if q == k@ {
                        None
                    } else {
                        assoc_get(o, q)
                    } by {
                        if exists|j: int| 0 <= j < n.len() && (#[trigger] n[j]).0@ == q {
                            let j = choose|j: int| 0 <= j < n.len() && (#[trigger] n[j]).0@ == q;
                            let jj = if j < i { j } else { j + 1 };
                            assert(n[j] == o[jj]);
                            assert(jj != i as int);
                            assert(o[jj].0@ != o[i as int].0@ || jj == i);
                            lemma_assoc_at(n, j);
                            lemma_assoc_at(o, jj);
                        } else if q != k@ && exists|j: int| 0 <= j < o.len() && (#[trigger] o[j]).0@ == q {
                            let j = choose|j: int| 0 <= j < o.len() && (#[trigger] o[j]).0@ == q;
                            assert(j != i as int);
                            let jn = if j < i { j } else { j - 1 };
                            assert(n[jn] == o[j]);
                        }
                    }
                }
            },
        }
    }

    /// Fetch the record under `key`, dropping it first when `expired`
    /// says it outlived its time-to-live.
    pub fn get_with(&mut self, key: &str, expired: bool) -> (r: Option<&IdemRecord>)
        requires
            old(self).wf(),
        ensures
            final(self).wf(),
            final(self).ttl_view() == old(self).ttl_view(),
            forall|q: Seq<char>| #[trigger] final(self).is_pending(q) == old(self).is_pending(q),
            forall|q: Seq<char>| q != key@ ==> #[trigger] final(self).record_of(q) == old(self).record_of(q),
            final(self).record_of(key@) == (if old(self).record_of(key@) is Some && expired {
                None
            } else {
                old(self).record_of(key@)
            }),
            match r {
                Some(rec) => final(self).record_of(key@) == Some(*rec),
                None => final(self).record_of(key@) is None,
            },
    {
        if expired && self.record_slot(key).is_some() {
            self.remove_record(key);
        }
        match self.record_slot(key) {
            Some(i) => Some(&self.records[i].1),
            None => None,
        }
    }

    /// Fetch a live record for `key` (an expired one is dropped).
    pub fn get(&mut self, key: &str) -> (r: Option<&IdemRecord>)
        requires
            old(self).wf(),
        ensures
            final(self).wf(),
            final(self).ttl_view() == old(self).ttl_view(),
            forall|q: Seq<char>| #[trigger] final(self).is_pending(q) == old(self).is_pending(q),
            forall|q: Seq<char>| q != key@ ==> #[trigger] final(self).record_of(q) == old(self).record_of(q),
            final(self).record_of(key@) is None || final(self).record_of(key@) == old(self).record_of(key@),
            match r {
                Some(rec) => final(self).record_of(key@) == Some(*rec),
                None => final(self).record_of(key@) is None,
            },
    {
        let expired = match self.record_slot(key) {
            Some(i) => self.is_expired(&self.records[i].1),
            None => false,
        };
        self.get_with(key, expired)
    }

    /// Check a key and reserve it when free, `expired` saying whether the
    /// record stored under it (if any) outlived its time-to-live: an
    /// executing request holding the key answers `InFlight`; a live record
    /// answers `Replay` for the same body hash and `ConflictReuse` for
    /// another; otherwise the key becomes pending and `Reserved` returns.
    pub fn reserve_with(&mut self, key: &str, body_hash: u64, expired: bool) -> (r: IdemReservation)
        requires
            old(self).wf(),
        ensures
            final(self).wf(),
            final(self).ttl_view() == old(self).ttl_view(),
            forall|q: Seq<char>| q != key@ ==> #[trigger] final(self).record_of(q) == old(self).record_of(q),
            forall|q: Seq<char>| q != key@ ==> #[trigger] final(self).is_pending(q) == old(self).is_pending(q),
            reservation(*old(self), *final(self), key@, body_hash, expired, r),
    {
        if self.pending_slot(key).is_some() {
            return IdemReservation::InFlight;
        }
        let ghost o = *self;
        if expired && self.record_slot(key).is_some() {
            self.remove_record(key);
        }
        assert(forall|q: Seq<char>| q != key@ ==> #[trigger] self.record_of(q) == o.record_of(q));
        match self.record_slot(key) {
            Some(i) => {
                let copy = self.records[i].1.duplicate();
                assert(forall|q: Seq<char>| q != key@ ==> #[trigger] self.record_of(q) == o.record_of(q));
                if copy.body_hash == body_hash {
                    IdemReservation::Replay(copy)
                } else {
                    IdemReservation::ConflictReuse
                }
            },
            None => {
                let ghost before = self.pending@;
                let ghost mid = *self;
                self.pending.push(String::from_str(key));
                proof {
                    assert(self.records@ == mid.records@);
                    assert forall|q: Seq<char>| q != key@ implies #[trigger] self.record_of(q) == o.record_of(q) by {
                        assert(mid.record_of(q) == o.record_of(q));
                    }
                    let n = self.pending@;
                    assert(n[before.len() as int]@ == key@);
                    assert forall|a: int, b: int| 0 <= a < b < n.len() implies (#[trigger] n[a])@ != (#[trigger] n[b])@ by {
                        if b == before.len() {
                            assert(n[a] == before[a]);
                            assert(!has_str(before, key@));
                        } else {
                            assert(n[a] == before[a] && n[b] == before[b]);
                        }
                    }
                    assert forall|q: Seq<char>| q != key@ implies #[trigger] has_str(n, q) == has_str(before, q) by {
                        if has_str(n, q) {
                            let j = choose|j: int| 0 <= j < n.len() && (#[trigger] n[j])@ == q;
                            assert(j < before.len());
                            assert(before[j] == n[j]);
                        }
                        if has_str(before, q) {
                            let j = choose|j: int| 0 <= j < before.len() && (#[trigger] before[j])@ == q;
                            assert(n[j] == before[j]);
                        }
                    }
                }
                IdemReservation::Reserved
            },
        }
    }

    /// Check a key and reserve it when free (see [`IdemStore::reserve_with`];
    /// whether a stored record expired is read from the clock).
    pub fn reserve(&mut self, key: &str, body_hash: u64) -> (r: IdemReservation)
        requires
            old(self).wf(),
        ensures
            final(self).wf(),
            final(self).ttl_view() == old(self).ttl_view(),
            forall|q: Seq<char>| q != key@ ==> #[trigger] final(self).record_of(q) == old(self).record_of(q),
            forall|q: Seq<char>| q != key@ ==> #[trigger] final(self).is_pending(q) == old(self).is_pending(q),
            old(self).is_pending(key@) ==> r is InFlight,
            !old(self).is_pending(key@) && old(self).record_of(key@) is None ==> r is Reserved
                && final(self).is_pending(key@),
            r matches IdemReservation::Replay(rec) ==> old(self).record_of(key@) == Some(rec) && rec.body_hash
                == body_hash,
            r is ConflictReuse ==> (old(self).record_of(key@) matches Some(rec) && rec.body_hash != body_hash),
            exists|expired: bool| #[trigger] reservation(*old(self), *final(self), key@, body_hash, expired, r),
    {
        let expired = match self.record_slot(key) {
            Some(i) => self.is_expired(&self.records[i].1),
            None => false,
        };
        self.reserve_with(key, body_hash, expired)
    }

    /// Release `key`'s reservation.
    pub fn abort(&mut self, key: &str)
        requires
            old(self).wf(),
        ensures
            final(self).wf(),
            final(self).ttl_view() == old(self).ttl_view(),
            aborted(*old(self), *final(self), key@),
            final(self).record_count() == old(self).record_count(),
    {
        match self.pending_slot(key) {
            None => {},
            Some(i) => {
                let ghost o = self.pending@;
                let _ = self.pending.remove(i);
                proof {
                    let n = self.pending@;
                    assert forall|a: int, b: int| 0 <= a < b < n.len() implies (#[trigger] n[a])@ != (#[trigger] n[b])@ by {
                        let aa = if a < i { a } else { a + 1 };
                        let bb = if b < i { b } else { b + 1 };
                        assert(n[a] == o[aa] && n[b] == o[bb]);
                    }
                    assert forall|q: Seq<char>| #[trigger] has_str(n, q) == (has_str(o, q) && q != key@) by {
                        if has_str(n, q) {
                            let j = choose|j: int| 0 <= j < n.len() && (#[trigger] n[j])@ == q;
                            let jj = if j < i { j } else { j + 1 };
                            assert(n[j] == o[jj]);
                            assert(jj != i as int);
                            assert(o[jj]@ != o[i as int]@);
                        }
                        if has_str(o, q) && q != key@ {
                            let j = choose|j: int| 0 <= j < o.len() && (#[trigger] o[j])@ == q;
                            assert(j != i as int);
                            let jn = if j < i { j } else { j - 1 };
                            assert(n[jn] == o[j]);
                        }
                    }
                }
            },
        }
    }

    /// Store `record` under `key` (replacing any record stored under it).
    fn upsert(&mut self, key: String, record: IdemRecord)
        requires
            old(self).wf(),
        ensures
            final(self).wf(),
            final(self).ttl_view() == old(self).ttl_view(),
            final(self).pending@ == old(self).pending@,
            final(self).record_of(key@) == Some(record),
            forall|q: Seq<char>| q != key@ ==> #[trigger] final(self).record_of(q) == old(self).record_of(q),
    {
        let ghost o = self.records@;
        let ghost kv = key@;
        match self.record_slot(key.as_str()) {
            Some(i) => {
                self.records.set(i, (key, record));
                proof {
                    let n = self.records@;
                    assert forall|a: int, b: int| 0 <= a < b < n.len() implies (#[trigger] n[a]).0@ != (
                    #[trigger] n[b]).0@ by {
                        assert(o[a].0@ != o[b].0@);
                    }
                    lemma_assoc_at(n, i as int);
                    assert forall|q: Seq<char>| q != kv implies #[trigger] assoc_get(n, q) == assoc_get(o, q) by {
                        if exists|j: int| 0 <= j < o.len() && (#[trigger] o[j]).0@ == q {
                            let j = choose|j: int| 0 <= j < o.len() && (#[trigger] o[j]).0@ == q;
                            assert(j != i as int);
                            assert(n[j] == o[j]);
                            lemma_assoc_at(n, j);
                            lemma_assoc_at(o, j);
                        } else if exists|j: int| 0 <= j < n.len() && (#[trigger] n[j]).0@ == q {
                            let j = choose|j: int| 0 <= j < n.len() && (#[trigger] n[j]).0@ == q;
                            assert(j != i as int);
                            assert(n[j] == o[j]);
                        }
                    }
                }
            },
            None => {
                self.records.push((key, record));
                proof {
                    let n = self.records@;
                    assert forall|a: int, b: int| 0 <= a < b < n.len() implies (#[trigger] n[a]).0@ != (
                    #[trigger] n[b]).0@ by {
                        if b == o.len() {
                            assert(n[a] == o[a]);
                        } else {
                            assert(o[a].0@ != o[b].0@);
                        }
                    }
                    lemma_assoc_at(n, o.len() as int);
                    assert forall|q: Seq<char>| q != kv implies #[trigger] assoc_get(n, q) == assoc_get(o, q) by {
                        if exists|j: int| 0 <= j < o.len() && (#[trigger] o[j]).0@ == q {
                            let j = choose|j: int| 0 <= j < o.len() && (#[trigger] o[j]).0@ == q;
                            assert(n[j] == o[j]);
                            lemma_assoc_at(n, j);
                            lemma_assoc_at(o, j);
                        } else if exists|j: int| 0 <= j < n.len() && (#[trigger] n[j]).0@ == q {
                            let j = choose|j: int| 0 <= j < n.len() && (#[trigger] n[j]).0@ == q;
                            assert(j != o.len());
                            assert(n[j] == o[j]);
                        }
                    }
                }
            },
        }
    }

    /// Keys of the stored records, in storage order.
    fn record_keys(&self) -> (r: Vec<String>)
        ensures
            r@.len() == self.records@.len(),
            forall|i: int| 0 <= i < r@.len() ==> (#[trigger] r@[i])@ == self.records@[i].0@,
    {
        let mut out: Vec<String> = Vec::new();
        let mut i: usize = 0;
        while i < self.records.len()
            invariant
                i <= self.records@.len(),
                out@.len() == i,
                forall|j: int| 0 <= j < i ==> (#[trigger] out@[j])@ == self.records@[j].0@,
            decreases self.records.len() - i,
        {
            out.push(self.records[i].0.clone());
            i = i + 1;
        }
        out
    }

    /// Store `record` under `key`. When more than 4096 records are stored,
    /// every record that `expired` marks (one flag per stored record, in
    /// storage order) is swept first.
    pub fn put_with(&mut self, key: String, record: IdemRecord, expired: &Vec<bool>)
        requires
            old(self).wf(),
            expired@.len() == old(self).record_count(),
        ensures
            final(self).wf(),
            final(self).ttl_view() == old(self).ttl_view(),
            forall|q: Seq<char>| #[trigger] final(self).is_pending(q) == old(self).is_pending(q),
            final(self).record_of(key@) == Some(record),
            forall|q: Seq<char>|
                q != key@ ==> #[trigger] final(self).record_of(q) == if old(self).record_count() > sweep_threshold()
                    && old(self).swept(expired@, q) {
                    None
                } else {
                    old(self).record_of(q)
                },
    {
        let ghost o = *self;
        if self.records.len() > 4096 {
            let keys = self.record_keys();
            let mut i: usize = 0;
            while i < keys.len()
                invariant
                    i <= keys@.len() == expired@.len() == o.records@.len(),
                    forall|j: int| 0 <= j < keys@.len() ==> (#[trigger] keys@[j])@ == o.records@[j].0@,
                    self.wf(),
                    self.ttl_view() == o.ttl_view(),
                    self.pending@ == o.pending@,
                    forall|q: Seq<char>|
                        #[trigger] self.record_of(q) == if exists|j: int|
                            0 <= j < i && (#[trigger] keys@[j])@ == q && expired@[j] {
                            None
                        } else {
                            o.record_of(q)
                        },
                decreases keys.len() - i,
            {
                if expired[i] {
                    self.remove_record(keys[i].as_str());
                }
                i = i + 1;
                proof {
                    assert forall|q: Seq<char>| #[trigger] self.record_of(q) == if exists|j: int|
                        0 <= j < i && (#[trigger] keys@[j])@ == q && expired@[j] {
                        None
                    } else {
                        o.record_of(q)
                    } by {
                        if keys@[i - 1]@ == q && expired@[i - 1] {
                            assert(0 <= i - 1 < i && keys@[i - 1]@ == q && expired@[i - 1]);
                        } else if exists|j: int| 0 <= j < i && (#[trigger] keys@[j])@ == q && expired@[j] {
                            let j = choose|j: int| 0 <= j < i && (#[trigger] keys@[j])@ == q && expired@[j];
                            assert(j < i - 1);
                        }
                    }
                }
            }
            proof {
                assert forall|q: Seq<char>| #[trigger] o.swept(expired@, q) == exists|j: int|
                    0 <= j < keys@.len() && (#[trigger] keys@[j])@ == q && expired@[j] by {
                    if o.swept(expired@, q) {
                        let j = choose|j: int| 0 <= j < o.records@.len() && (#[trigger] o.records@[j]).0@ == q && expired@[j];
                        assert(keys@[j]@ == q);
                    }
                }
            }
        }
        let ghost mid = *self;
        self.upsert(key, record);
    }

    /// Store `record` under `key`, sweeping expired records (by the clock)
    /// when more than 4096 are stored.
    pub fn put(&mut self, key: String, record: IdemRecord)
        requires
            old(self).wf(),
        ensures
            final(self).wf(),
            final(self).ttl_view() == old(self).ttl_view(),
            forall|q: Seq<char>| #[trigger] final(self).is_pending(q) == old(self).is_pending(q),
            final(self).record_of(key@) == Some(record),
            forall|q: Seq<char>|
                q != key@ && old(self).record_count() <= sweep_threshold() ==> #[trigger] final(self).record_of(q)
                    == old(self).record_of(q),
            forall|q: Seq<char>|
                q != key@ ==> (#[trigger] final(self).record_of(q) is None || final(self).record_of(q) == old(
                    self,
                ).record_of(q)),
    {
        let mut flags: Vec<bool> = Vec::new();
        let mut i: usize = 0;
        while i < self.records.len()
            invariant
                i <= self.records@.len(),
                flags@.len() == i,
            decreases self.records.len() - i,
        {
            let e = self.is_expired(&self.records[i].1);
            flags.push(e);
            i = i + 1;
        }
        self.put_with(key, record, &flags);
    }

    /// Complete a reservation with the produced response.
    pub fn complete(&mut self, key: &str, record: IdemRecord)
        requires
            old(self).wf(),
        ensures
            final(self).wf(),
            final(self).ttl_view() == old(self).ttl_view(),
            completed(*old(self), *final(self), key@, record),
    {
        self.abort(key);
        self.put(String::from_str(key), record);
    }

    /// A record stored under `q` is marked expired by `flags`.
    pub closed spec fn swept(&self, flags: Seq<bool>, q: Seq<char>) -> bool {
        exists|j: int| 0 <= j < self.records@.len() && (#[trigger] self.records@[j]).0@ == q && flags[j]
    }
}

/// The refusal a reservation outcome answers with, if any: a completed
/// request with another body is an idempotency-key-reuse conflict, and a
/// request still executing under the key is a plain conflict; a fresh
/// reservation or a replay is no refusal.
pub fn reservation_refusal(r: &IdemReservation) -> (p: Option<Problem>)
    ensures
        match r {
            IdemReservation::ConflictReuse => p matches Some(q) && q@ == problem_new_view(
                ProblemCode::IdempotencyKeyReuse,
                409,
                "Idempotency key reuse"@,
            ).with_detail("the same idempotency key arrived with a different request body"@),
            IdemReservation::InFlight => p matches Some(q) && q@ == problem_new_view(
                ProblemCode::Conflict,
                409,
                "Conflict"@,
            ).with_detail("a request with this idempotency key is still executing; retry once it completes"@),
            _ => p is None,
        },
{
    match r {
        IdemReservation::ConflictReuse => Some(
            Problem::new(ProblemCode::IdempotencyKeyReuse, 409, "Idempotency key reuse").detail(
                String::from_str("the same idempotency key arrived with a different request body"),
            ),
        ),
        IdemReservation::InFlight => Some(
            Problem::conflict(
                String::from_str("a request with this idempotency key is still executing; retry once it completes"),
            ),
        ),
        _ => None,
    }
}

} // verus!
