//! The bounded dispatch audit log: command records in acceptance order,
//! an id index, per-target outcomes and the command rollup status.

use vstd::prelude::*;
use vstd::string::*;

use crate::api::{CommandStatus, TargetStatus};
use crate::clock::{now_rfc3339, rfc3339_of_spec};
use crate::problem::{problem_new_view, Problem, ProblemCode};
use crate::retention::keep_last;
use crate::text::{concat3, str_eq};

verus! {

/// Per-target execution record. Power values are carried as the IEEE-754
/// bit patterns of kilowatt figures (`f64::to_bits`).
#[derive(Debug, Clone)]
pub struct TargetExecution {
    /// Home id.
    pub home_id: String,
    /// Execution status; `None` while still queued.
    pub status: Option<TargetStatus>,
    /// Requested power (kW, bit pattern) for power actions.
    pub requested_kw_bits: Option<u64>,
    /// Applied power (kW, bit pattern) measured at execution.
    pub applied_kw_bits: Option<u64>,
    /// Simulation time of execution.
    pub executed_at_sim_time: Option<String>,
    /// Assigned execution latency in milliseconds.
    pub latency_ms: u64,
}

/// Audit-log command record.
#[derive(Debug, Clone)]
pub struct CommandDoc {
    /// Command id.
    pub command_id: String,
    /// Rollup status.
    pub status: CommandStatus,
    /// Wall-clock acceptance time.
    pub created_at: String,
    /// Requesting principal.
    pub principal: String,
    /// Idempotency key, when supplied.
    pub idempotency_key: Option<String>,
    /// The xxh3 hash of the canonical request body, as 16 lowercase hex
    /// digits.
    pub request_hash: String,
    /// The original request, as canonical JSON text.
    pub request_json: String,
    /// Per-target execution detail.
    pub targets: Vec<TargetExecution>,
}

/// Append-only dispatch audit log, bounded by a retention cap (the oldest
/// record is dropped when a new one arrives at the cap).
pub struct AuditStore {
    records: Vec<CommandDoc>,
    by_id: Vec<(String, u64)>,
    base_seq: u64,
    next_seq: u64,
    cap: usize,
}

/// Sequence number indexed for `k`, if any.
pub open spec fn seq_of(ids: Seq<(String, u64)>, k: Seq<char>) -> Option<u64> {
    if exists|i: int| 0 <= i < ids.len() && (#[trigger] ids[i]).0@ == k {
        Some(ids[choose|i: int| 0 <= i < ids.len() && (#[trigger] ids[i]).0@ == k].1)
    } else {
        None
    }
}

/// Index keys are distinct.
pub open spec fn keys_distinct(ids: Seq<(String, u64)>) -> bool {
    forall|i: int, j: int| 0 <= i < j < ids.len() ==> (#[trigger] ids[i]).0@ != (#[trigger] ids[j]).0@
}

/// With distinct keys, the slot holding a key gives its sequence number.
pub proof fn lemma_seq_of_at(ids: Seq<(String, u64)>, i: int)
    requires
        keys_distinct(ids),
        0 <= i < ids.len(),
    ensures
        seq_of(ids, ids[i].0@) == Some(ids[i].1),
{
    let k = ids[i].0@;
    assert(ids[i].0@ == k);
    let c = choose|j: int| 0 <= j < ids.len() && (#[trigger] ids[j]).0@ == k;
    if c != i {
        if c < i {
            assert(ids[c].0@ != ids[i].0@);
        } else {
            assert(ids[i].0@ != ids[c].0@);
        }
    }
}

/// Number of targets with a final status.
pub open spec fn done_count(ts: Seq<TargetExecution>) -> nat
    decreases ts.len(),
{
    if ts.len() == 0 {
        0
    } else {
        done_count(ts.drop_last()) + if ts.last().status is Some {
            1nat
        } else {
            0nat
        }
    }
}

/// Number of targets applied in full.
pub open spec fn applied_count(ts: Seq<TargetExecution>) -> nat
    decreases ts.len(),
{
    if ts.len() == 0 {
        0
    } else {
        applied_count(ts.drop_last()) + if ts.last().status == Some(TargetStatus::Applied) {
            1nat
        } else {
            0nat
        }
    }
}

/// Every target was cancelled.
pub open spec fn all_cancelled(ts: Seq<TargetExecution>) -> bool {
    forall|i: int| 0 <= i < ts.len() ==> (#[trigger] ts[i]).status == Some(TargetStatus::Cancelled)
}

/// The rollup status of a command with targets `ts`: queued until a
/// target finishes, in flight until all have, then completed (with errors
/// when any target was not applied in full); cancelled when every target
/// was cancelled.
pub open spec fn rollup_status(ts: Seq<TargetExecution>) -> CommandStatus {
    let total = ts.len();
    let done = done_count(ts);
    let rejected = done - applied_count(ts);
    if done == total && all_cancelled(ts) && total > 0 {
        CommandStatus::Cancelled
    } else if done == 0 {
        CommandStatus::Queued
    } else if done < total {
        CommandStatus::InFlight
    } else if rejected == 0 {
        CommandStatus::Completed
    } else {
        CommandStatus::CompletedWithErrors
    }
}

/// Counting bounds.
pub proof fn lemma_counts(ts: Seq<TargetExecution>)
    ensures
        applied_count(ts) <= done_count(ts) <= ts.len(),
    decreases ts.len(),
{
    if ts.len() > 0 {
        lemma_counts(ts.drop_last());
    }
}

/// The record at `pos` with target `tp` given a final status.
pub open spec fn with_target(
    rs: Seq<CommandDoc>,
    pos: int,
    tp: int,
    status: TargetStatus,
    applied: Option<u64>,
    at: Option<Seq<char>>,
    r: Seq<CommandDoc>,
) -> bool {
    &&& r.len() == rs.len()
    &&& forall|i: int| 0 <= i < rs.len() && i != pos ==> r[i] == rs[i]
    &&& r[pos].command_id == rs[pos].command_id
    &&& r[pos].status == rs[pos].status
    &&& r[pos].targets@.len() == rs[pos].targets@.len()
    &&& forall|j: int|
        0 <= j < rs[pos].targets@.len() && j != tp ==> r[pos].targets@[j] == rs[pos].targets@[j]
    &&& r[pos].targets@[tp].home_id == rs[pos].targets@[tp].home_id
    &&& r[pos].targets@[tp].latency_ms == rs[pos].targets@[tp].latency_ms
    &&& r[pos].targets@[tp].requested_kw_bits == rs[pos].targets@[tp].requested_kw_bits
    &&& r[pos].targets@[tp].status == Some(status)
    &&& r[pos].targets@[tp].applied_kw_bits == applied
    &&& match (r[pos].targets@[tp].executed_at_sim_time, at) {
        (Some(x), Some(y)) => x@ == y,
        (None, None) => true,
        _ => false,
    }
}

impl AuditStore {
    /// Retained records, oldest first.
    pub closed spec fn records_view(&self) -> Seq<CommandDoc> {
        self.records@
    }

    /// In a consistent log, the record at the position indexed under `k`
    /// carries the id `k`.
    pub proof fn lemma_position_names_key(&self, k: Seq<char>)
        requires
            self.wf(),
        ensures
            self.position_of(k) matches Some(p) ==> 0 <= p < self.records_view().len()
                && self.records_view()[p].command_id@ == k,
    {
        if seq_of(self.by_id@, k) is Some {
            let i = choose|i: int| 0 <= i < self.by_id@.len() && (#[trigger] self.by_id@[i]).0@ == k;
            lemma_seq_of_at(self.by_id@, i);
            let (kk, sq) = self.by_id@[i];
            assert(self.base_seq <= sq < self.next_seq);
        }
    }

    /// Position of the record indexed under `k`.
    pub closed spec fn position_of(&self, k: Seq<char>) -> Option<int> {
        match seq_of(self.by_id@, k) {
            Some(s) => Some(s - self.base_seq),
            None => None,
        }
    }

    /// Retention cap.
    pub closed spec fn cap_view(&self) -> nat {
        self.cap as nat
    }

    /// Whether another record can be numbered.
    pub closed spec fn has_room(&self) -> bool {
        self.next_seq < u64::MAX
    }

    /// Internal consistency: sequence numbers count the retained records,
    /// index keys are distinct, and every indexed id names the retained
    /// record at its position.
    pub closed spec fn wf(&self) -> bool {
        &&& self.next_seq == self.base_seq + self.records@.len()
        &&& keys_distinct(self.by_id@)
        &&& forall|i: int|
            0 <= i < self.by_id@.len() ==> {
                let (k, s) = #[trigger] self.by_id@[i];
                &&& self.base_seq <= s < self.next_seq
                &&& self.records@[s - self.base_seq].command_id@ == k@
            }
    }

    /// An empty log with a retention cap.
    pub fn new(cap: usize) -> (r: AuditStore)
        ensures
            r.wf(),
            r.records_view() == Seq::<CommandDoc>::empty(),
            r.cap_view() == cap,
            r.has_room(),
            forall|k: Seq<char>| r.position_of(k) is None,
    {
        AuditStore { records: Vec::new(), by_id: Vec::new(), base_seq: 0, next_seq: 0, cap }
    }

    /// Whether another record can be numbered (sequence numbers are
    /// 64-bit).
    pub fn can_insert(&self) -> (r: bool)
        ensures
            r == self.has_room(),
    {
        self.next_seq < u64::MAX
    }

    /// Index slot holding `k`.
    fn slot_of(&self, k: &str) -> (r: Option<usize>)
        requires
            self.wf(),
        ensures
            match r {
                Some(i) => i < self.by_id@.len() && self.by_id@[i as int].0@ == k@ && seq_of(self.by_id@, k@)
                    == Some(self.by_id@[i as int].1),
                None => seq_of(self.by_id@, k@) is None,
            },
    {
        let mut i: usize = 0;
        while i < self.by_id.len()
            invariant
                i <= self.by_id@.len(),
                self.wf(),
                forall|j: int| 0 <= j < i ==> (#[trigger] self.by_id@[j]).0@ != k@,
            decreases self.by_id.len() - i,
        {
            if str_eq(self.by_id[i].0.as_str(), k) {
                proof {
                    lemma_seq_of_at(self.by_id@, i as int);
                }
                return Some(i);
            }
            i = i + 1;
        }
        None
    }

    /// Position of the record indexed under `k`.
    fn pos_of(&self, k: &str) -> (r: Option<usize>)
        requires
            self.wf(),
        ensures
            match r {
                Some(p) => self.position_of(k@) == Some(p as int) && p < self.records@.len(),
                None => self.position_of(k@) is None,
            },
    {
        match self.slot_of(k) {
            None => None,
            Some(i) => {
                let s = self.by_id[i].1;
                proof {
                    assert(s == self.by_id@[i as int].1);
                    assert(self.base_seq <= s < self.next_seq);
                    assert(s - self.base_seq < self.records@.len());
                }
                let d: u64 = s - self.base_seq;
                assert(d < self.records.len());
                assert(self.records@.len() <= usize::MAX);
                let p = d as usize;
                assert(p == d);
                Some(p)
            },
        }
    }

    /// Insert a new command record; at the cap the oldest record is
    /// dropped first (and its id unindexed).
    pub fn insert(&mut self, record: CommandDoc)
        requires
            old(self).wf(),
            old(self).has_room(),
        ensures
            final(self).wf(),
            inserted(*old(self), *final(self), record),
    {
        let ghost o = *self;
        let ghost ids_ev = self.by_id@;
        let ghost mut slot_ev: Option<usize> = None;
        let evict = self.records.len() >= self.cap && self.records.len() > 0;
        if evict {
            let slot = self.slot_of(self.records[0].command_id.as_str());
            proof {
                slot_ev = slot;
            }
            let ghost x = self.records@[0].command_id@;
            let ghost ids0 = self.by_id@;
            let _old_rec = self.records.remove(0);
            match slot {
                Some(i) => {
                    self.by_id.remove(i);
                },
                None => {},
            }
            self.base_seq = self.base_seq + 1;
            proof {
                assert forall|j: int| 0 <= j < self.by_id@.len() implies {
                    let (k, sq) = #[trigger] self.by_id@[j];
                    &&& self.base_seq <= sq < o.next_seq
                    &&& self.records@[sq - self.base_seq].command_id@ == k@
                    &&& k@ != x
                } by {
                    let jj = match slot {
                        Some(i) => if j < i { j } else { j + 1 },
                        None => j,
                    };
                    assert(self.by_id@[j] == ids0[jj]);
                    let (k, sq) = ids0[jj];
                    assert(o.base_seq <= sq < o.next_seq);
                    match slot {
                        Some(i) => {
                            assert(jj != i as int);
                            assert(ids0[jj].0@ != ids0[i as int].0@);
                        },
                        None => {
                            if k@ == x {
                                assert(seq_of(ids0, x) is Some);
                            }
                        },
                    }
                    assert(k@ != x);
                    assert(sq != o.base_seq);
                }
                assert(keys_distinct(self.by_id@)) by {
                    assert forall|p: int, q: int| 0 <= p < q < self.by_id@.len() implies (#[trigger] self.by_id@[p]).0@
                        != (#[trigger] self.by_id@[q]).0@ by {
                        let pp = match slot {
                            Some(i) => if p < i { p } else { p + 1 },
                            None => p,
                        };
                        let qq = match slot {
                            Some(i) => if q < i { q } else { q + 1 },
                            None => q,
                        };
                        assert(self.by_id@[p] == ids0[pp]);
                        assert(self.by_id@[q] == ids0[qq]);
                    }
                }
            }
        }
        let ghost ids1 = self.by_id@;
        let ghost base1 = self.base_seq;
        let ghost recs1 = self.records@;
        let sq = self.next_seq;
        let slot = self.find_slot_unchecked(record.command_id.as_str());
        let key = record.command_id.clone();
        match slot {
            Some(i) => {
                self.by_id.set(i, (key, sq));
            },
            None => {
                self.by_id.push((key, sq));
            },
        }
        self.next_seq = self.next_seq + 1;
        self.records.push(record);
        proof {
            let ids2 = self.by_id@;
            let id = record.command_id@;
            let kept = if evict { o.records@.drop_first() } else { o.records@ };
            assert(recs1 =~= kept);
            assert(self.records@ =~= kept.push(record));
            // Old slots of ids0 (before eviction) that survive into ids1.
            assert(o.next_seq == base1 + recs1.len());
            // index correspondence ids1 -> ids2
            assert forall|j: int| 0 <= j < ids1.len() && ids1[j].0@ != id implies #[trigger] ids2[j] == ids1[j] by {
                match slot {
                    Some(i) => {
                        assert(j != i as int);
                    },
                    None => {},
                }
            }
            let new_j: int = match slot {
                Some(i) => i as int,
                None => ids1.len() as int,
            };
            assert(ids2[new_j].0@ == id && ids2[new_j].1 == sq);
            assert(ids2.len() == match slot {
                Some(_) => ids1.len(),
                None => ids1.len() + 1,
            });
            assert forall|j: int| 0 <= j < ids2.len() && j != new_j implies #[trigger] ids2[j] == ids1[j] && ids1[j].0@
                != id by {
                match slot {
                    Some(i) => {
                        assert(ids1[j].0@ != ids1[i as int].0@);
                    },
                    None => {},
                }
            }
            assert(keys_distinct(ids2)) by {
                assert forall|p: int, q: int| 0 <= p < q < ids2.len() implies (#[trigger] ids2[p]).0@ != (
                #[trigger] ids2[q]).0@ by {
                    if p != new_j && q != new_j {
                        assert(ids2[p] == ids1[p] && ids2[q] == ids1[q]);
                    } else if p == new_j {
                        assert(ids2[q] == ids1[q]);
                    } else {
                        assert(ids2[p] == ids1[p]);
                    }
                }
            }
            assert forall|j: int| 0 <= j < ids2.len() implies {
                let (k, sv) = #[trigger] ids2[j];
                &&& self.base_seq <= sv < self.next_seq
                &&& self.records@[sv - self.base_seq].command_id@ == k@
            } by {
                if j != new_j {
                    assert(ids2[j] == ids1[j]);
                    let (k, sv) = ids1[j];
                    if evict {
                    } else {
                        assert(o.base_seq <= sv < o.next_seq);
                    }
                    assert(base1 <= sv < o.next_seq);
                    assert(self.records@[sv - base1] == recs1[sv - base1]);
                } else {
                    assert(self.records@[sq - base1] == record);
                }
            }
            lemma_seq_of_at(ids2, new_j);
            assert forall|k: Seq<char>| k != id implies #[trigger] self.position_of(k) == if evict && k
                == o.records@[0].command_id@ {
                None
            } else {
                match o.position_of(k) {
                    Some(p) => Some(if evict {
                        p - 1
                    } else {
                        p
                    }),
                    None => None,
                }
            } by {
                if exists|j: int| 0 <= j < ids2.len() && (#[trigger] ids2[j]).0@ == k {
                    let j = choose|j: int| 0 <= j < ids2.len() && (#[trigger] ids2[j]).0@ == k;
                    assert(j != new_j);
                    assert(ids2[j] == ids1[j]);
                    lemma_seq_of_at(ids2, j);
                    if evict {
                        let jj = match slot_ev {
                            Some(i) => if j < i { j } else { j + 1 },
                            None => j,
                        };
                        assert(ids1[j] == ids_ev[jj]);
                        lemma_seq_of_at(ids_ev, jj);
                        assert(k != o.records@[0].command_id@);
                    } else {
                        lemma_seq_of_at(o.by_id@, j);
                    }
                } else {
                    assert(seq_of(ids2, k) is None);
                    if !(evict && k == o.records@[0].command_id@) {
                        if exists|q: int| 0 <= q < o.by_id@.len() && (#[trigger] o.by_id@[q]).0@ == k {
                            let q = choose|q: int| 0 <= q < o.by_id@.len() && (#[trigger] o.by_id@[q]).0@ == k;
                            if evict {
                                let qj: int = match slot_ev {
                                    Some(i) => {
                                        assert(q != i as int);
                                        if q < i { q } else { q - 1 }
                                    },
                                    None => q,
                                };
                                assert(ids1[qj] == o.by_id@[q]);
                                assert(ids2[qj] == ids1[qj]);
                            } else {
                                assert(ids2[q] == ids1[q]);
                            }
                            assert(false);
                        }
                    }
                }
            }
        }
    }

    /// Index slot holding `k` (no consistency needed).
    fn find_slot_unchecked(&self, k: &str) -> (r: Option<usize>)
        ensures
            match r {
                Some(i) => i < self.by_id@.len() && self.by_id@[i as int].0@ == k@,
                None => forall|j: int| 0 <= j < self.by_id@.len() ==> (#[trigger] self.by_id@[j]).0@ != k@,
            },
    {
        let mut i: usize = 0;
        while i < self.by_id.len()
            invariant
                i <= self.by_id@.len(),
                forall|j: int| 0 <= j < i ==> (#[trigger] self.by_id@[j]).0@ != k@,
            decreases self.by_id.len() - i,
        {
            if str_eq(self.by_id[i].0.as_str(), k) {
                return Some(i);
            }
            i = i + 1;
        }
        None
    }

    /// Look up a command by id.
    pub fn get(&self, command_id: &str) -> (r: Option<&CommandDoc>)
        requires
            self.wf(),
        ensures
            match self.position_of(command_id@) {
                Some(p) => 0 <= p < self.records_view().len() && r == Some(&self.records_view()[p]),
                None => r is None,
            },
            r matches Some(d) ==> d.command_id@ == command_id@,
    {
        proof {
            self.lemma_position_names_key(command_id@);
        }
        match self.pos_of(command_id) {
            Some(p) => Some(&self.records[p]),
            None => None,
        }
    }

    /// Whether a command id is indexed (deduplication).
    pub fn contains(&self, command_id: &str) -> (r: bool)
        requires
            self.wf(),
        ensures
            r == (self.position_of(command_id@) is Some),
    {
        self.slot_of(command_id).is_some()
    }

    /// All retained records, oldest first.
    pub fn records(&self) -> (r: &[CommandDoc])
        ensures
            r@ == self.records_view(),
    {
        self.records.as_slice()
    }

    /// Record a target's execution outcome (nothing happens for an unknown
    /// command or target position).
    pub fn record_target(
        &mut self,
        command_id: &str,
        target_pos: usize,
        status: TargetStatus,
        applied_kw_bits: Option<u64>,
        executed_at: Option<String>,
    )
        requires
            old(self).wf(),
        ensures
            final(self).wf(),
            final(self).cap_view() == old(self).cap_view(),
            final(self).has_room() == old(self).has_room(),
            forall|k: Seq<char>| #[trigger] final(self).position_of(k) == old(self).position_of(k),
            match old(self).position_of(command_id@) {
                Some(p) => if target_pos < old(self).records_view()[p].targets@.len() {
                    with_target(
                        old(self).records_view(),
                        p,
                        target_pos as int,
                        status,
                        applied_kw_bits,
                        match executed_at {
                            Some(e) => Some(e@),
                            None => None,
                        },
                        final(self).records_view(),
                    )
                } else {
                    final(self).records_view() == old(self).records_view()
                },
                None => final(self).records_view() == old(self).records_view(),
            },
    {
        let p = match self.pos_of(command_id) {
            Some(p) => p,
            None => return ,
        };
        if target_pos >= self.records[p].targets.len() {
            return ;
        }
        let ghost o = *self;
        let mut rec = self.records.remove(p);
        let t = rec.targets.remove(target_pos);
        let nt = TargetExecution {
            home_id: t.home_id,
            status: Some(status),
            requested_kw_bits: t.requested_kw_bits,
            applied_kw_bits,
            executed_at_sim_time: executed_at,
            latency_ms: t.latency_ms,
        };
        rec.targets.insert(target_pos, nt);
        self.records.insert(p, rec);
        proof {
            assert(self.by_id@ == o.by_id@);
            assert forall|i: int| 0 <= i < o.records@.len() && i != p implies self.records@[i] == o.records@[i] by {
            }
            let pi = p as int;
            assert forall|j: int| 0 <= j < o.records@[pi].targets@.len() && j != target_pos implies self.records@[pi].targets@[j]
                == o.records@[pi].targets@[j] by {
            }
            assert forall|i: int| 0 <= i < self.records@.len() implies (#[trigger] self.records@[i]).command_id
                == o.records@[i].command_id by {
            }
        }
    }

    /// Mark every still-queued target of a command cancelled.
    pub fn mark_queued_cancelled(&mut self, command_id: &str)
        requires
            old(self).wf(),
        ensures
            final(self).wf(),
            final(self).cap_view() == old(self).cap_view(),
            final(self).has_room() == old(self).has_room(),
            forall|k: Seq<char>| #[trigger] final(self).position_of(k) == old(self).position_of(k),
            match old(self).position_of(command_id@) {
                Some(p) => {
                    &&& final(self).records_view().len() == old(self).records_view().len()
                    &&& forall|i: int|
                        0 <= i < old(self).records_view().len() && i != p ==> final(self).records_view()[i]
                            == old(self).records_view()[i]
                    &&& final(self).records_view()[p].command_id == old(self).records_view()[p].command_id
                    &&& final(self).records_view()[p].status == old(self).records_view()[p].status
                    &&& final(self).records_view()[p].targets@.len() == old(self).records_view()[p].targets@.len()
                    &&& forall|j: int|
                        0 <= j < old(self).records_view()[p].targets@.len() ==> {
                            let a = old(self).records_view()[p].targets@[j];
                            let b = #[trigger] final(self).records_view()[p].targets@[j];
                            if a.status is None {
                                b.status == Some(TargetStatus::Cancelled) && b.home_id == a.home_id && b.latency_ms
                                    == a.latency_ms && b.requested_kw_bits == a.requested_kw_bits
                                    && b.applied_kw_bits == a.applied_kw_bits && b.executed_at_sim_time
                                    == a.executed_at_sim_time
                            } else {
                                b == a
                            }
                        }
                },
                None => final(self).records_view() == old(self).records_view(),
            },
    {
        let p = match self.pos_of(command_id) {
            Some(p) => p,
            None => return ,
        };
        let ghost o = *self;
        let mut rec = self.records.remove(p);
        let ghost orig = rec.targets@;
        let n = rec.targets.len();
        let mut out: Vec<TargetExecution> = Vec::new();
        let mut rest = rec.targets;
        rec.targets = Vec::new();
        let mut j: usize = 0;
        while j < n
            invariant
                j <= n == orig.len(),
                rest@ == orig.skip(j as int),
                out@.len() == j,
                forall|q: int|
                    0 <= q < j ==> {
                        let a = orig[q];
                        let b = #[trigger] out@[q];
                        if a.status is None {
                            b.status == Some(TargetStatus::Cancelled) && b.home_id == a.home_id && b.latency_ms
                                == a.latency_ms && b.requested_kw_bits == a.requested_kw_bits && b.applied_kw_bits
                                == a.applied_kw_bits && b.executed_at_sim_time == a.executed_at_sim_time
                        } else {
                            b == a
                        }
                    },
            decreases n - j,
        {
            let t = rest.remove(0);
            assert(t == orig[j as int]);
            if t.status.is_none() {
                out.push(
                    TargetExecution {
                        home_id: t.home_id,
                        status: Some(TargetStatus::Cancelled),
                        requested_kw_bits: t.requested_kw_bits,
                        applied_kw_bits: t.applied_kw_bits,
                        executed_at_sim_time: t.executed_at_sim_time,
                        latency_ms: t.latency_ms,
                    },
                );
            } else {
                out.push(t);
            }
            j = j + 1;
            assert(rest@ =~= orig.skip(j as int));
        }
        rec.targets = out;
        self.records.insert(p, rec);
        proof {
            assert(self.by_id@ == o.by_id@);
            assert forall|i: int| 0 <= i < o.records@.len() && i != p implies self.records@[i] == o.records@[i] by {
            }
            assert forall|i: int| 0 <= i < self.records@.len() implies (#[trigger] self.records@[i]).command_id
                == o.records@[i].command_id by {
            }
        }
    }

    /// Recompute a command's rollup status (see [`rollup_status`]); returns
    /// `(applied, rejected, done)` when the command is indexed.
    pub fn rollup(&mut self, command_id: &str) -> (r: Option<(usize, usize, bool)>)
        requires
            old(self).wf(),
        ensures
            final(self).wf(),
            final(self).cap_view() == old(self).cap_view(),
            final(self).has_room() == old(self).has_room(),
            forall|k: Seq<char>| #[trigger] final(self).position_of(k) == old(self).position_of(k),
            match old(self).position_of(command_id@) {
                Some(p) => {
                    let ts = old(self).records_view()[p].targets@;
                    &&& r == Some(
                        (
                            applied_count(ts) as usize,
                            (done_count(ts) - applied_count(ts)) as usize,
                            done_count(ts) == ts.len(),
                        ),
                    )
                    &&& final(self).records_view().len() == old(self).records_view().len()
                    &&& forall|i: int|
                        0 <= i < old(self).records_view().len() && i != p ==> final(self).records_view()[i]
                            == old(self).records_view()[i]
                    &&& final(self).records_view()[p].status == rollup_status(ts)
                    &&& final(self).records_view()[p].command_id == old(self).records_view()[p].command_id
                    &&& final(self).records_view()[p].targets == old(self).records_view()[p].targets
                },
                None => r is None && final(self).records_view() == old(self).records_view(),
            },
    {
        let p = match self.pos_of(command_id) {
            Some(p) => p,
            None => return None,
        };
        let ghost o = *self;
        let ghost ts = self.records@[p as int].targets@;
        let total = self.records[p].targets.len();
        let mut applied: usize = 0;
        let mut done: usize = 0;
        let mut all_c = true;
        let mut j: usize = 0;
        while j < total
            invariant
                j <= total == ts.len(),
                p < self.records@.len(),
                ts == self.records@[p as int].targets@,
                applied == applied_count(ts.take(j as int)),
                done == done_count(ts.take(j as int)),
                applied <= done <= j,
                all_c == all_cancelled(ts.take(j as int)),
            decreases total - j,
        {
            let st = self.records[p].targets[j].status;
            proof {
                assert(ts.take(j + 1).drop_last() =~= ts.take(j as int));
                assert(ts.take(j + 1).last() == ts[j as int]);
            }
            match st {
                None => {},
                Some(TargetStatus::Applied) => {
                    applied = applied + 1;
                    done = done + 1;
                },
                Some(_) => {
                    done = done + 1;
                },
            }
            if st != Some(TargetStatus::Cancelled) {
                all_c = false;
            }
            j = j + 1;
            proof {
                assert forall|q: int| 0 <= q < j implies #[trigger] ts.take(j as int)[q] == ts[q] by {
                }
                if all_c {
                    assert forall|q: int| 0 <= q < j implies (#[trigger] ts.take(j as int)[q]).status == Some(
                        TargetStatus::Cancelled,
                    ) by {
                        if q < j - 1 {
                            assert(ts.take(j - 1)[q] == ts[q]);
                        }
                    }
                } else {
                    if st != Some(TargetStatus::Cancelled) {
                        assert(ts.take(j as int)[j - 1].status != Some(TargetStatus::Cancelled));
                    } else {
                        let w = choose|q: int| 0 <= q < j - 1 && (#[trigger] ts.take(j - 1)[q]).status != Some(
                            TargetStatus::Cancelled,
                        );
                        assert(ts.take(j as int)[w] == ts.take(j - 1)[w]);
                    }
                }
            }
        }
        assert(ts.take(total as int) =~= ts);
        let rejected = done - applied;
        let status = if done == total && all_c && total > 0 {
            CommandStatus::Cancelled
        } else if done == 0 {
            CommandStatus::Queued
        } else if done < total {
            CommandStatus::InFlight
        } else if rejected == 0 {
            CommandStatus::Completed
        } else {
            CommandStatus::CompletedWithErrors
        };
        let mut rec = self.records.remove(p);
        rec.status = status;
        self.records.insert(p, rec);
        proof {
            assert(self.by_id@ == o.by_id@);
            assert forall|i: int| 0 <= i < o.records@.len() && i != p implies self.records@[i] == o.records@[i] by {
            }
            assert forall|i: int| 0 <= i < self.records@.len() implies (#[trigger] self.records@[i]).command_id
                == o.records@[i].command_id by {
            }
        }
        Some((applied, rejected, done == total))
    }
}

/// `n` is `o` after inserting `record`: at the cap (and with at least one
/// record) the oldest record is dropped and its id unindexed, the record
/// is appended and indexed at its position, and every other id keeps its
/// record.
pub open spec fn inserted(o: AuditStore, n: AuditStore, record: CommandDoc) -> bool {
    let evict = o.records_view().len() >= o.cap_view() && o.records_view().len() > 0;
    let kept = if evict {
        o.records_view().drop_first()
    } else {
        o.records_view()
    };
    &&& n.cap_view() == o.cap_view()
    &&& n.records_view() == kept.push(record)
    &&& n.position_of(record.command_id@) == Some(kept.len() as int)
    &&& forall|k: Seq<char>|
        k != record.command_id@ ==> #[trigger] n.position_of(k) == if evict && k == o.records_view()[0].command_id@ {
            None
        } else {
            match o.position_of(k) {
                Some(p) => Some(
                    if evict {
                        p - 1
                    } else {
                        p
                    },
                ),
                None => None,
            }
        }
}

/// The retention bound: never more records than the cap, except that one
/// record is always kept.
pub open spec fn within_retention(a: AuditStore) -> bool {
    a.records_view().len() <= a.cap_view() || a.records_view().len() <= 1
}

/// A record just inserted is found again by its id, and the log stays
/// within its retention bound.
pub proof fn law_insert_then_get(o: AuditStore, n: AuditStore, record: CommandDoc)
    requires
        inserted(o, n, record),
        within_retention(o),
    ensures
        n.position_of(record.command_id@) matches Some(p) && 0 <= p < n.records_view().len() && n.records_view()[p]
            == record,
        within_retention(n),
{
}

/// The rollup status of a command whose targets all finished as applied is
/// `Completed`; once every target is cancelled it is `Cancelled`; with no
/// finished target it is `Queued`.
pub proof fn law_rollup_outcomes(ts: Seq<TargetExecution>)
    requires
        ts.len() > 0,
    ensures
        (forall|i: int| 0 <= i < ts.len() ==> (#[trigger] ts[i]).status == Some(TargetStatus::Applied))
            ==> rollup_status(ts) == CommandStatus::Completed,
        all_cancelled(ts) ==> rollup_status(ts) == CommandStatus::Cancelled,
        (forall|i: int| 0 <= i < ts.len() ==> (#[trigger] ts[i]).status is None) ==> rollup_status(ts)
            == CommandStatus::Queued,
{
    lemma_counts(ts);
    if forall|i: int| 0 <= i < ts.len() ==> (#[trigger] ts[i]).status == Some(TargetStatus::Applied) {
        lemma_all_applied(ts);
    }
    if all_cancelled(ts) {
        lemma_all_done_cancelled(ts);
    }
    if forall|i: int| 0 <= i < ts.len() ==> (#[trigger] ts[i]).status is None {
        lemma_none_done(ts);
        assert(ts[0].status is None);
    }
}

/// With every target applied, all are done and applied.
proof fn lemma_all_applied(ts: Seq<TargetExecution>)
    requires
        forall|i: int| 0 <= i < ts.len() ==> (#[trigger] ts[i]).status == Some(TargetStatus::Applied),
    ensures
        done_count(ts) == ts.len(),
        applied_count(ts) == ts.len(),
    decreases ts.len(),
{
    if ts.len() > 0 {
        assert forall|i: int| 0 <= i < ts.drop_last().len() implies (#[trigger] ts.drop_last()[i]).status == Some(
            TargetStatus::Applied,
        ) by {
            assert(ts.drop_last()[i] == ts[i]);
        }
        lemma_all_applied(ts.drop_last());
        assert(ts.last() == ts[ts.len() - 1]);
    }
}

/// With every target cancelled, all are done.
proof fn lemma_all_done_cancelled(ts: Seq<TargetExecution>)
    requires
        all_cancelled(ts),
    ensures
        done_count(ts) == ts.len(),
    decreases ts.len(),
{
    if ts.len() > 0 {
        assert forall|i: int| 0 <= i < ts.drop_last().len() implies (#[trigger] ts.drop_last()[i]).status == Some(
            TargetStatus::Cancelled,
        ) by {
            assert(ts.drop_last()[i] == ts[i]);
        }
        lemma_all_done_cancelled(ts.drop_last());
        assert(ts.last() == ts[ts.len() - 1]);
    }
}

/// With no target finished, none is done.
proof fn lemma_none_done(ts: Seq<TargetExecution>)
    requires
        forall|i: int| 0 <= i < ts.len() ==> (#[trigger] ts[i]).status is None,
    ensures
        done_count(ts) == 0,
    decreases ts.len(),
{
    if ts.len() > 0 {
        assert forall|i: int| 0 <= i < ts.drop_last().len() implies (#[trigger] ts.drop_last()[i]).status is None by {
            assert(ts.drop_last()[i] == ts[i]);
        }
        lemma_none_done(ts.drop_last());
        assert(ts.last() == ts[ts.len() - 1]);
    }
}

/// Name of a command status, as `{:?}` renders it.
pub open spec fn status_name(s: CommandStatus) -> Seq<char> {
    match s {
        CommandStatus::Queued => "Queued"@,
        CommandStatus::InFlight => "InFlight"@,
        CommandStatus::Completed => "Completed"@,
        CommandStatus::CompletedWithErrors => "CompletedWithErrors"@,
        CommandStatus::Cancelled => "Cancelled"@,
    }
}

/// Whether a command has finished (completed, with or without errors, or
/// cancelled).
pub open spec fn finished(s: CommandStatus) -> bool {
    s == CommandStatus::Completed || s == CommandStatus::CompletedWithErrors || s == CommandStatus::Cancelled
}

/// Name of a command status.
fn status_text(s: CommandStatus) -> (r: &'static str)
    ensures
        r@ == status_name(s),
{
    match s {
        CommandStatus::Queued => "Queued",
        CommandStatus::InFlight => "InFlight",
        CommandStatus::Completed => "Completed",
        CommandStatus::CompletedWithErrors => "CompletedWithErrors",
        CommandStatus::Cancelled => "Cancelled",
    }
}

/// Whether a command may be cancelled: it must be retained in the log
/// (else not found) and not yet finished (else a conflict naming its
/// status).
pub fn cancel_admission(store: &AuditStore, command_id: &str) -> (r: Result<(), Problem>)
    requires
        store.wf(),
    ensures
        match store.position_of(command_id@) {
            None => r matches Err(p) && p@ == problem_new_view(ProblemCode::NotFound, 404, "Not found"@).with_detail(
                "no "@ + "command"@ + " with id `"@ + command_id@ + "`"@,
            ),
            Some(i) => {
                let s = store.records_view()[i].status;
                if finished(s) {
                    r matches Err(p) && p@ == problem_new_view(ProblemCode::Conflict, 409, "Conflict"@).with_detail(
                        "command "@ + command_id@ + " is already "@ + status_name(s),
                    )
                } else {
                    r is Ok
                }
            },
        },
{
    match store.get(command_id) {
        None => Err(Problem::not_found("command", command_id)),
        Some(rec) => {
            let s = rec.status;
            if s == CommandStatus::Completed || s == CommandStatus::CompletedWithErrors || s == CommandStatus::Cancelled {
                let mut m = concat3("command ", command_id, " is already ");
                m.append(status_text(s));
                Err(Problem::conflict(m))
            } else {
                Ok(())
            }
        },
    }
}

/// A new command record: queued, accepted now (wall clock, RFC 3339).
pub fn command_record(
    command_id: String,
    principal: String,
    idempotency_key: Option<String>,
    request_hash: String,
    request_json: String,
    targets: Vec<TargetExecution>,
) -> (r: CommandDoc)
    ensures
        r.command_id == command_id,
        r.status == CommandStatus::Queued,
        exists|u: u64| r.created_at@ == rfc3339_of_spec(u),
        r.principal == principal,
        r.idempotency_key == idempotency_key,
        r.request_hash == request_hash,
        r.request_json == request_json,
        r.targets == targets,
{
    CommandDoc {
        command_id,
        status: CommandStatus::Queued,
        created_at: now_rfc3339(),
        principal,
        idempotency_key,
        request_hash,
        request_json,
        targets,
    }
}

/// Where the retained window starts after `m` inserts into a log that keeps
/// `cap` records.
pub open spec fn retained_from(m: int, cap: nat) -> int {
    if m > cap {
        m - cap
    } else {
        0
    }
}

/// No record among the first `m` carries the id `k`.
pub open spec fn ids_avoid(recs: Seq<CommandDoc>, m: int, k: Seq<char>) -> bool {
    forall|i: int| 0 <= i < m ==> (#[trigger] recs[i]).command_id@ != k
}

/// What a log that started empty holds after the first `m` inserts: the
/// newest `cap` records, each found at its place in that window, evicted
/// ids and ids never inserted not found.
pub open spec fn log_holds(a: AuditStore, recs: Seq<CommandDoc>, cap: nat, m: int) -> bool {
    &&& a.records_view() == keep_last(recs.take(m), cap)
    &&& forall|i: int|
        0 <= i < m ==> #[trigger] a.position_of(recs[i].command_id@) == if i >= retained_from(m, cap) {
            Some(i - retained_from(m, cap))
        } else {
            None
        }
    &&& forall|k: Seq<char>| ids_avoid(recs, m, k) ==> #[trigger] a.position_of(k) is None
}

proof fn lemma_log_step(o: AuditStore, n: AuditStore, recs: Seq<CommandDoc>, cap: nat, m: int)
    requires
        cap >= 1,
        0 <= m < recs.len(),
        log_holds(o, recs, cap, m),
        o.cap_view() == cap,
        inserted(o, n, recs[m]),
        forall|i: int, j: int| 0 <= i < j < recs.len() ==> (#[trigger] recs[i]).command_id@ != (#[trigger] recs[j]).command_id@,
    ensures
        log_holds(n, recs, cap, m + 1),
        n.cap_view() == cap,
{
    let s = recs.take(m);
    let x = recs[m];
    assert(recs.take(m + 1) =~= s.push(x));
    let evict = o.records_view().len() >= o.cap_view() && o.records_view().len() > 0;
    let rf0 = retained_from(m, cap);
    let rf1 = retained_from(m + 1, cap);
    if m >= cap {
        assert(evict);
        assert(keep_last(s, cap).drop_first().push(x) =~= keep_last(s.push(x), cap));
        assert(o.records_view()[0] == recs[rf0]);
        assert(rf1 == rf0 + 1);
    } else {
        assert(!evict);
        assert(rf1 == 0 && rf0 == 0);
    }
    assert(n.records_view() == keep_last(recs.take(m + 1), cap));
    assert forall|i: int| 0 <= i < m + 1 implies #[trigger] n.position_of(recs[i].command_id@) == if i >= rf1 {
        Some(i - rf1)
    } else {
        None
    } by {
        if i < m {
            let k = recs[i].command_id@;
            assert(k != x.command_id@);
            assert(o.position_of(recs[i].command_id@) == if i >= rf0 {
                Some(i - rf0)
            } else {
                None
            });
            if evict && k == o.records_view()[0].command_id@ {
                if i != rf0 {
                    assert(recs[i].command_id@ != recs[rf0].command_id@);
                }
            }
        }
    }
    assert forall|k: Seq<char>| ids_avoid(recs, m + 1, k) implies #[trigger] n.position_of(k) is None by {
        assert(recs[m].command_id@ != k);
        assert(ids_avoid(recs, m, k));
        if evict {
            assert(o.records_view()[0] == recs[rf0]);
            assert(recs[rf0].command_id@ != k);
        }
    }
}

proof fn lemma_log_prefix(stores: Seq<AuditStore>, recs: Seq<CommandDoc>, cap: nat, m: int)
    requires
        cap >= 1,
        stores.len() == recs.len() + 1,
        0 <= m <= recs.len(),
        stores[0].records_view() == Seq::<CommandDoc>::empty(),
        stores[0].cap_view() == cap,
        forall|k: Seq<char>| #[trigger] stores[0].position_of(k) is None,
        forall|i: int| 0 <= i < recs.len() ==> inserted(#[trigger] stores[i], stores[i + 1], recs[i]),
        forall|i: int, j: int| 0 <= i < j < recs.len() ==> (#[trigger] recs[i]).command_id@ != (#[trigger] recs[j]).command_id@,
    ensures
        log_holds(stores[m], recs, cap, m),
        stores[m].cap_view() == cap,
    decreases m,
{
    if m == 0 {
        assert(recs.take(0) =~= Seq::<CommandDoc>::empty());
    } else {
        lemma_log_prefix(stores, recs, cap, m - 1);
        assert(inserted(stores[m - 1], stores[m], recs[m - 1]));
        lemma_log_step(stores[m - 1], stores[m], recs, cap, m - 1);
    }
}

/// A log of capacity at least one that starts empty and takes records with
/// distinct ids, one insert after another, holds exactly the newest `cap`
/// of them, oldest first; a retained id is found at its record, an evicted
/// or never-inserted id is not found.
pub proof fn law_log_keeps_newest(stores: Seq<AuditStore>, recs: Seq<CommandDoc>, cap: nat)
    requires
        cap >= 1,
        stores.len() == recs.len() + 1,
        stores[0].records_view() == Seq::<CommandDoc>::empty(),
        stores[0].cap_view() == cap,
        forall|k: Seq<char>| #[trigger] stores[0].position_of(k) is None,
        forall|i: int| 0 <= i < recs.len() ==> inserted(#[trigger] stores[i], stores[i + 1], recs[i]),
        forall|i: int, j: int| 0 <= i < j < recs.len() ==> (#[trigger] recs[i]).command_id@ != (#[trigger] recs[j]).command_id@,
    ensures
        stores.last().records_view() == keep_last(recs, cap),
        forall|i: int|
            0 <= i < recs.len() ==> (#[trigger] stores.last().position_of(recs[i].command_id@) is Some) == (i
                >= retained_from(recs.len() as int, cap)),
        forall|i: int|
            0 <= i < recs.len() && i >= retained_from(recs.len() as int, cap) ==> #[trigger] stores.last().position_of(
                recs[i].command_id@,
            ) == Some(i - retained_from(recs.len() as int, cap)) && stores.last().records_view()[i - retained_from(
                recs.len() as int,
                cap,
            )] == recs[i],
        forall|k: Seq<char>| ids_avoid(recs, recs.len() as int, k) ==> #[trigger] stores.last().position_of(k) is None,
{
    let n = recs.len() as int;
    lemma_log_prefix(stores, recs, cap, n);
    assert(recs.take(n) =~= recs);
    let rf = retained_from(n, cap);
    assert forall|i: int| 0 <= i < n && i >= rf implies #[trigger] stores.last().position_of(recs[i].command_id@)
        == Some(i - rf) && stores.last().records_view()[i - rf] == recs[i] by {
        assert(stores.last().position_of(recs[i].command_id@) == Some(i - rf));
    }
}

} // verus!
