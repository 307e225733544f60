//! The loaded device catalog: per-kind tables kept in sorted identifier
//! order (lookups and iteration behave like ordered maps keyed by
//! `model_id`), the catalog manifest, and where the catalog came from.
//!
//! The entry types here hold each entry's identity, topology and
//! composition facts. Numeric ratings (energies, powers, efficiencies,
//! temperatures) are floating point and are validated by the caller.

use vstd::prelude::*;
use vstd::string::*;

use crate::kinds::{Coupling, EntryKindSerde, InverterTopology};
use crate::text::{lemma_lt_asymmetric, lemma_lt_irreflexive, lemma_lt_total, lemma_lt_transitive, seq_lt, str_eq, str_lt};

verus! {

/// A catalog entry identified by a string key (`model_id` or `preset_id`).
pub trait Keyed {
    /// The key's characters.
    spec fn key_view(&self) -> Seq<char>;

    /// The key.
    fn key_str(&self) -> (r: &str)
        ensures
            r@ == self.key_view(),
    ;
}

/// Keys strictly ascend along the sequence (so they are also unique).
pub open spec fn sorted_keys<T: Keyed>(s: Seq<T>) -> bool {
    forall|i: int, j: int| 0 <= i < j < s.len() ==> seq_lt(s[i].key_view(), s[j].key_view())
}

/// Some entry of `s` has key `k`.
pub open spec fn has_key<T: Keyed>(s: Seq<T>, k: Seq<char>) -> bool {
    exists|i: int| 0 <= i < s.len() && (#[trigger] s[i]).key_view() == k
}

/// Position of an entry of `s` with key `k` (meaningful when one exists).
pub open spec fn key_index<T: Keyed>(s: Seq<T>, k: Seq<char>) -> int {
    choose|i: int| 0 <= i < s.len() && (#[trigger] s[i]).key_view() == k
}

/// The entry of `s` with key `k`, if any.
pub open spec fn find<T: Keyed>(s: Seq<T>, k: Seq<char>) -> Option<T> {
    if has_key(s, k) {
        Some(s[key_index(s, k)])
    } else {
        None
    }
}

/// In a sorted sequence the entry at `i` is the one `find` returns.
pub proof fn lemma_find_at<T: Keyed>(s: Seq<T>, i: int)
    requires
        sorted_keys(s),
        0 <= i < s.len(),
    ensures
        find(s, s[i].key_view()) == Some(s[i]),
{
    let k = s[i].key_view();
    assert(has_key(s, k)) by {
        assert(s[i].key_view() == k);
    }
    let j = key_index(s, k);
    assert(0 <= j < s.len() && s[j].key_view() == k);
    if j < i {
        assert(seq_lt(s[j].key_view(), s[i].key_view()));
        lemma_lt_irreflexive(k);
    } else if i < j {
        assert(seq_lt(s[i].key_view(), s[j].key_view()));
        lemma_lt_irreflexive(k);
    }
    assert(j == i);
    assert(find(s, k) == Some(s[j]));
}

/// Dropping the first entry of a sorted sequence removes exactly its key.
pub proof fn lemma_find_drop_first<T: Keyed>(s: Seq<T>, k: Seq<char>)
    requires
        sorted_keys(s),
        s.len() > 0,
    ensures
        find(s.drop_first(), k) == if k == s[0].key_view() {
            None
        } else {
            find(s, k)
        },
{
    let t = s.drop_first();
    assert(sorted_keys(t)) by {
        assert forall|i: int, j: int| 0 <= i < j < t.len() implies seq_lt(t[i].key_view(), t[j].key_view()) by {
            assert(t[i] == s[i + 1] && t[j] == s[j + 1]);
        }
    }
    if k == s[0].key_view() {
        if has_key(t, k) {
            let i = choose|i: int| 0 <= i < t.len() && (#[trigger] t[i]).key_view() == k;
            assert(t[i] == s[i + 1]);
            assert(seq_lt(s[0].key_view(), s[i + 1].key_view()));
            lemma_lt_irreflexive(k);
        }
    } else {
        if has_key(t, k) {
            let i = choose|i: int| 0 <= i < t.len() && (#[trigger] t[i]).key_view() == k;
            assert(t[i] == s[i + 1]);
            lemma_find_at(t, i);
            lemma_find_at(s, i + 1);
        } else if has_key(s, k) {
            let i = choose|i: int| 0 <= i < s.len() && (#[trigger] s[i]).key_view() == k;
            assert(i != 0);
            assert(t[i - 1] == s[i]);
            assert(t[i - 1].key_view() == k);
        }
    }
}

/// Two key-sorted sequences that agree on every lookup are equal.
pub proof fn lemma_sorted_unique<T: Keyed>(a: Seq<T>, b: Seq<T>)
    requires
        sorted_keys(a),
        sorted_keys(b),
        forall|k: Seq<char>| #[trigger] find(a, k) == find(b, k),
    ensures
        a == b,
    decreases a.len(),
{
    if a.len() == 0 {
        if b.len() > 0 {
            lemma_find_at(b, 0);
            assert(find(a, b[0].key_view()) is None);
        }
        assert(a =~= b);
    } else if b.len() == 0 {
        lemma_find_at(a, 0);
        assert(find(b, a[0].key_view()) is None);
    } else {
        let ka = a[0].key_view();
        let kb = b[0].key_view();
        lemma_find_at(a, 0);
        lemma_find_at(b, 0);
        if ka != kb {
            assert(find(a, kb) == Some(b[0]));
            let i = key_index(a, kb);
            assert(has_key(a, kb));
            assert(0 <= i < a.len() && a[i].key_view() == kb);
            assert(i != 0);
            assert(seq_lt(ka, kb));
            assert(find(b, ka) == Some(a[0]));
            let j = key_index(b, ka);
            assert(has_key(b, ka));
            assert(0 <= j < b.len() && b[j].key_view() == ka);
            assert(j != 0);
            assert(seq_lt(kb, ka));
            lemma_lt_asymmetric(ka, kb);
        }
        assert(a[0] == b[0]);
        assert forall|k: Seq<char>| #[trigger] find(a.drop_first(), k) == find(b.drop_first(), k) by {
            lemma_find_drop_first(a, k);
            lemma_find_drop_first(b, k);
        }
        assert(sorted_keys(a.drop_first())) by {
            assert forall|i: int, j: int| 0 <= i < j < a.len() - 1 implies seq_lt(
                a.drop_first()[i].key_view(),
                a.drop_first()[j].key_view(),
            ) by {
                assert(a.drop_first()[i] == a[i + 1] && a.drop_first()[j] == a[j + 1]);
            }
        }
        assert(sorted_keys(b.drop_first())) by {
            assert forall|i: int, j: int| 0 <= i < j < b.len() - 1 implies seq_lt(
                b.drop_first()[i].key_view(),
                b.drop_first()[j].key_view(),
            ) by {
                assert(b.drop_first()[i] == b[i + 1] && b.drop_first()[j] == b[j + 1]);
            }
        }
        lemma_sorted_unique(a.drop_first(), b.drop_first());
        assert(a =~= seq![a[0]] + a.drop_first());
        assert(b =~= seq![b[0]] + b.drop_first());
    }
}

/// Keys ascend strictly along a sequence of strings.
pub open spec fn strictly_sorted(s: Seq<Seq<char>>) -> bool {
    forall|i: int, j: int| 0 <= i < j < s.len() ==> seq_lt(s[i], s[j])
}

/// The keys of a sequence of entries, in order.
pub open spec fn keys_of<T: Keyed>(s: Seq<T>) -> Seq<Seq<char>> {
    s.map_values(|x: T| x.key_view())
}

/// The members of a finite set of strings in ascending order.
pub open spec fn ascending(ks: Set<Seq<char>>) -> Seq<Seq<char>> {
    choose|s: Seq<Seq<char>>| strictly_sorted(s) && forall|k: Seq<char>| #[trigger] s.contains(k) <==> ks.contains(k)
}

/// Two strictly ascending string sequences with the same members are equal.
pub proof fn lemma_ascending_unique(a: Seq<Seq<char>>, b: Seq<Seq<char>>)
    requires
        strictly_sorted(a),
        strictly_sorted(b),
        forall|k: Seq<char>| #[trigger] a.contains(k) <==> b.contains(k),
    ensures
        a == b,
    decreases a.len(),
{
    if a.len() == 0 {
        if b.len() > 0 {
            assert(b.contains(b[0]));
            assert(a.contains(b[0]));
            assert(false);
        }
        assert(a =~= b);
    } else if b.len() == 0 {
        assert(a.contains(a[0]));
        assert(b.contains(a[0]));
        assert(false);
    } else {
        assert(a.contains(a[0]));
        assert(b.contains(b[0]));
        assert(b.contains(a[0]));
        assert(a.contains(b[0]));
        if a[0] != b[0] {
            let j = choose|j: int| 0 <= j < b.len() && b[j] == a[0];
            let i = choose|i: int| 0 <= i < a.len() && a[i] == b[0];
            assert(j != 0 && i != 0);
            assert(seq_lt(b[0], b[j]));
            assert(seq_lt(a[0], a[i]));
            lemma_lt_asymmetric(a[0], b[0]);
        }
        let a1 = a.drop_first();
        let b1 = b.drop_first();
        assert forall|k: Seq<char>| #[trigger] a1.contains(k) <==> b1.contains(k) by {
            if a1.contains(k) {
                let i = choose|i: int| 0 <= i < a1.len() && a1[i] == k;
                assert(a[i + 1] == k && seq_lt(a[0], a[i + 1]));
                assert(a.contains(k));
                assert(b.contains(k));
                if k == b[0] {
                    lemma_lt_irreflexive(k);
                }
                let j = choose|j: int| 0 <= j < b.len() && b[j] == k;
                assert(j != 0);
                assert(b1[j - 1] == k);
            }
            if b1.contains(k) {
                let i = choose|i: int| 0 <= i < b1.len() && b1[i] == k;
                assert(b[i + 1] == k && seq_lt(b[0], b[i + 1]));
                assert(b.contains(k));
                assert(a.contains(k));
                if k == a[0] {
                    lemma_lt_irreflexive(k);
                }
                let j = choose|j: int| 0 <= j < a.len() && a[j] == k;
                assert(j != 0);
                assert(a1[j - 1] == k);
            }
        }
        lemma_ascending_unique(a1, b1);
        assert(a =~= seq![a[0]] + a1);
        assert(b =~= seq![b[0]] + b1);
    }
}

/// A strictly ascending sequence with exactly the members of `ks` is
/// `ascending(ks)`.
pub proof fn lemma_ascending_of(s: Seq<Seq<char>>, ks: Set<Seq<char>>)
    requires
        strictly_sorted(s),
        forall|k: Seq<char>| #[trigger] s.contains(k) <==> ks.contains(k),
    ensures
        ascending(ks) == s,
{
    let c = ascending(ks);
    assert(strictly_sorted(c) && forall|k: Seq<char>| #[trigger] c.contains(k) <==> ks.contains(k));
    assert forall|k: Seq<char>| #[trigger] c.contains(k) <==> s.contains(k) by {
        if c.contains(k) {
            assert(ks.contains(k));
        }
        if s.contains(k) {
            assert(ks.contains(k));
        }
    }
    lemma_ascending_unique(c, s);
}

/// The keys of a key-sorted sequence ascend strictly and are exactly its keys.
pub proof fn lemma_keys_of_sorted<T: Keyed>(s: Seq<T>)
    requires
        sorted_keys(s),
    ensures
        strictly_sorted(keys_of(s)),
        forall|k: Seq<char>| #[trigger] keys_of(s).contains(k) <==> has_key(s, k),
{
    assert forall|k: Seq<char>| #[trigger] keys_of(s).contains(k) <==> has_key(s, k) by {
        if keys_of(s).contains(k) {
            let i = choose|i: int| 0 <= i < keys_of(s).len() && keys_of(s)[i] == k;
            assert(s[i].key_view() == k);
        }
        if has_key(s, k) {
            let i = choose|i: int| 0 <= i < s.len() && (#[trigger] s[i]).key_view() == k;
            assert(keys_of(s)[i] == k);
        }
    }
}

/// Keys never decrease along the sequence.
pub open spec fn ascending_keys<T: Keyed>(s: Seq<T>) -> bool {
    forall|i: int, j: int| 0 <= i < j < s.len() ==> !seq_lt(s[j].key_view(), s[i].key_view())
}

/// Sort entries by key (ascending, stable insertion sort).
pub fn sort_by_key<T: Keyed>(v: Vec<T>) -> (r: Vec<T>)
    ensures
        ascending_keys(r@),
        r@.to_multiset() == v@.to_multiset(),
        r@.len() == v@.len(),
{
    let ghost all = v@;
    assert(all.len() == v.len());
    let mut out: Vec<T> = Vec::new();
    proof {
        assert(all.take(0) =~= Seq::<T>::empty());
        assert(out@ =~= Seq::<T>::empty());
        vstd::seq_lib::to_multiset_len(all.take(0));
        vstd::seq_lib::to_multiset_len(out@);
        assert(all.take(0).to_multiset() =~= out@.to_multiset());
    }
    let mut rest = v;
    let mut n: usize = 0;
    while rest.len() > 0
        invariant
            n <= all.len(),
            rest@ == all.skip(n as int),
            all.len() <= usize::MAX,
            ascending_keys(out@),
            out@.to_multiset() == all.take(n as int).to_multiset(),
            out@.len() == n,
        decreases rest.len(),
    {
        let x = rest.remove(0);
        assert(x == all[n as int]);
        let mut p: usize = 0;
        while p < out.len() && !str_lt(x.key_str(), out[p].key_str())
            invariant
                p <= out@.len(),
                forall|k: int| 0 <= k < p ==> !seq_lt(x.key_view(), (#[trigger] out@[k]).key_view()),
            decreases out.len() - p,
        {
            p = p + 1;
        }
        let ghost before = out@;
        out.insert(p, x);
        proof {
            assert(out@ == before.insert(p as int, x));
            assert forall|i: int, j: int| 0 <= i < j < out@.len() implies !seq_lt(
                out@[j].key_view(),
                out@[i].key_view(),
            ) by {
                let xk = x.key_view();
                if i < p && j == p {
                    assert(out@[i] == before[i]);
                    assert(!seq_lt(xk, before[i].key_view()));
                } else if i == p && j > p {
                    assert(out@[j] == before[j - 1]);
                    // p < before.len() and seq_lt(xk, before[p]); before[p] <= before[j-1]
                    assert(seq_lt(xk, before[p as int].key_view()));
                    let a = before[p as int].key_view();
                    let b = before[j - 1].key_view();
                    if a != b {
                        lemma_lt_total(a, b);
                        assert(!seq_lt(b, a));
                        lemma_lt_transitive(xk, a, b);
                    }
                    lemma_lt_asymmetric(xk, b);
                } else if i < p && j > p {
                    assert(out@[i] == before[i] && out@[j] == before[j - 1]);
                } else if j < p {
                    assert(out@[i] == before[i] && out@[j] == before[j]);
                } else {
                    assert(out@[i] == before[i - 1] && out@[j] == before[j - 1]);
                }
            }
            assert(all.take(n + 1) =~= all.take(n as int).push(x));
            vstd::seq_lib::to_multiset_insert(before, p as int, x);
            vstd::seq_lib::to_multiset_build(all.take(n as int), x);
        }
        n = n + 1;
        assert(rest@ =~= all.skip(n as int));
    }
    assert(all.take(all.len() as int) =~= all);
    out
}

/// An ordered table of catalog entries keyed by their identifier.
#[derive(Debug)]
pub struct Table<T> {
    entries: Vec<T>,
}

impl<T: Keyed> Table<T> {
    /// The entries in ascending key order.
    pub closed spec fn seq(&self) -> Seq<T> {
        self.entries@
    }

    /// Entries ascend strictly by key.
    pub closed spec fn wf(&self) -> bool {
        sorted_keys(self.entries@)
    }

    /// An empty table.
    pub fn new() -> (t: Table<T>)
        ensures
            t.wf(),
            t.seq() == Seq::<T>::empty(),
    {
        Table { entries: Vec::new() }
    }

    /// The entries in ascending key order.
    pub fn entries(&self) -> (r: &[T])
        ensures
            r@ == self.seq(),
            self.wf() ==> sorted_keys(r@),
    {
        self.entries.as_slice()
    }

    /// Number of entries.
    pub fn len(&self) -> (r: usize)
        ensures
            r == self.seq().len(),
    {
        self.entries.len()
    }

    /// Position of the entry with key `k`.
    pub fn position(&self, k: &str) -> (r: Option<usize>)
        requires
            self.wf(),
        ensures
            match r {
                Some(i) => i < self.seq().len() && self.seq()[i as int].key_view() == k@,
                None => !has_key(self.seq(), k@),
            },
    {
        let mut i: usize = 0;
        while i < self.entries.len()
            invariant
                i <= self.entries@.len(),
                forall|j: int| 0 <= j < i ==> (#[trigger] self.entries@[j]).key_view() != k@,
            decreases self.entries.len() - i,
        {
            if str_eq(self.entries[i].key_str(), k) {
                return Some(i);
            }
            i = i + 1;
        }
        None
    }

    /// Look up the entry with key `k`.
    pub fn get(&self, k: &str) -> (r: Option<&T>)
        requires
            self.wf(),
        ensures
            match r {
                Some(e) => find(self.seq(), k@) == Some(*e),
                None => find(self.seq(), k@) is None,
            },
    {
        match self.position(k) {
            Some(i) => {
                proof {
                    lemma_find_at(self.entries@, i as int);
                }
                Some(&self.entries[i])
            },
            None => None,
        }
    }

    /// Insert an entry, replacing any entry with the same key (ordered-map
    /// `insert`); returns whether an entry was replaced.
    pub fn insert(&mut self, item: T) -> (replaced: bool)
        requires
            old(self).wf(),
        ensures
            final(self).wf(),
            replaced == has_key(old(self).seq(), item.key_view()),
            forall|k: Seq<char>|
                #![trigger find(final(self).seq(), k)]
                find(final(self).seq(), k) == if k == item.key_view() {
                    Some(item)
                } else {
                    find(old(self).seq(), k)
                },
            forall|k: Seq<char>|
                has_key(final(self).seq(), k) <==> (has_key(old(self).seq(), k) || k
                    == item.key_view()),
    {
        let ghost s = self.entries@;
        let ghost kk = item.key_view();
        let mut p: usize = 0;
        let mut go = true;
        while go && p < self.entries.len()
            invariant
                self.entries@ == s,
                kk == item.key_view(),
                sorted_keys(s),
                p <= s.len(),
                forall|j: int| 0 <= j < p ==> seq_lt((#[trigger] s[j]).key_view(), kk),
                !go ==> p < s.len() && !seq_lt(s[p as int].key_view(), kk),
            decreases self.entries@.len() - p + (if go { 1int } else { 0int }),
        {
            let a = self.entries[p].key_str();
            let b = item.key_str();
            if str_lt(a, b) {
                p = p + 1;
            } else {
                go = false;
            }
        }
        // Every entry from `p` on has a key at or above `item`'s.
        let same = p < self.entries.len() && str_eq(self.entries[p].key_str(), item.key_str());
        if same {
            proof {
                assert forall|j: int| p < j < s.len() implies seq_lt(kk, #[trigger] s[j].key_view()) by {
                    assert(seq_lt(s[p as int].key_view(), s[j].key_view()));
                }
            }
            self.entries.set(p, item);
            proof {
                let f = self.entries@;
                assert(f == s.update(p as int, item));
                assert forall|i: int, j: int| 0 <= i < j < f.len() implies seq_lt(
                    f[i].key_view(),
                    f[j].key_view(),
                ) by {
                    if i == p as int {
                    } else if j == p as int {
                        assert(seq_lt(s[i].key_view(), kk));
                    } else {
                    }
                }
                assert forall|k: Seq<char>| has_key(f, k) <==> (has_key(s, k) || k == kk) by {
                    if has_key(s, k) {
                        let i = choose|i: int| 0 <= i < s.len() && (#[trigger] s[i]).key_view() == k;
                        assert(f[i].key_view() == k);
                    }
                    if has_key(f, k) {
                        let i = choose|i: int| 0 <= i < f.len() && (#[trigger] f[i]).key_view() == k;
                        assert(s[i].key_view() == k);
                    }
                    if k == kk {
                        assert(f[p as int].key_view() == k);
                    }
                }
                assert forall|k: Seq<char>|
                    #![trigger find(f, k)]
                    find(f, k) == if k == kk {
                        Some(item)
                    } else {
                        find(s, k)
                    } by {
                    if k == kk {
                        lemma_find_at(f, p as int);
                    } else if has_key(s, k) {
                        let i = choose|i: int| 0 <= i < s.len() && (#[trigger] s[i]).key_view() == k;
                        lemma_find_at(s, i);
                        lemma_find_at(f, i);
                    }
                }
                assert(has_key(s, kk)) by {
                    assert(s[p as int].key_view() == kk);
                }
            }
            true
        } else {
            proof {
                assert forall|j: int| p <= j < s.len() implies seq_lt(kk, #[trigger] s[j].key_view()) by {
                    if j == p as int {
                        lemma_lt_total(kk, s[j].key_view());
                    } else {
                        lemma_lt_total(kk, s[p as int].key_view());
                        assert(seq_lt(s[p as int].key_view(), s[j].key_view()));
                        lemma_lt_transitive(kk, s[p as int].key_view(), s[j].key_view());
                    }
                }
            }
            self.entries.insert(p, item);
            proof {
                let f = self.entries@;
                assert(f == s.insert(p as int, item));
                assert forall|i: int, j: int| 0 <= i < j < f.len() implies seq_lt(
                    f[i].key_view(),
                    f[j].key_view(),
                ) by {
                    if i < p as int && j < p as int {
                    } else if i < p as int && j == p as int {
                    } else if i < p as int {
                        assert(seq_lt(s[i].key_view(), kk));
                        assert(seq_lt(kk, s[j - 1].key_view()));
                        lemma_lt_transitive(s[i].key_view(), kk, s[j - 1].key_view());
                    } else if i == p as int {
                        assert(seq_lt(kk, s[j - 1].key_view()));
                    } else {
                        assert(seq_lt(s[i - 1].key_view(), s[j - 1].key_view()));
                    }
                }
                assert(!has_key(s, kk)) by {
                    if has_key(s, kk) {
                        let i = choose|i: int| 0 <= i < s.len() && (#[trigger] s[i]).key_view() == kk;
                        lemma_lt_irreflexive(kk);
                        if i < p as int {
                        } else {
                        }
                    }
                }
                assert forall|k: Seq<char>| has_key(f, k) <==> (has_key(s, k) || k == kk) by {
                    if has_key(s, k) {
                        let i = choose|i: int| 0 <= i < s.len() && (#[trigger] s[i]).key_view() == k;
                        if i < p as int {
                            assert(f[i].key_view() == k);
                        } else {
                            assert(f[i + 1].key_view() == k);
                        }
                    }
                    if has_key(f, k) {
                        let i = choose|i: int| 0 <= i < f.len() && (#[trigger] f[i]).key_view() == k;
                        if i < p as int {
                            assert(s[i].key_view() == k);
                        } else if i > p as int {
                            assert(s[i - 1].key_view() == k);
                        }
                    }
                    if k == kk {
                        assert(f[p as int].key_view() == k);
                    }
                }
                assert forall|k: Seq<char>|
                    #![trigger find(f, k)]
                    find(f, k) == if k == kk {
                        Some(item)
                    } else {
                        find(s, k)
                    } by {
                    if k == kk {
                        lemma_find_at(f, p as int);
                    } else if has_key(s, k) {
                        let i = choose|i: int| 0 <= i < s.len() && (#[trigger] s[i]).key_view() == k;
                        lemma_find_at(s, i);
                        if i < p as int {
                            lemma_find_at(f, i);
                        } else {
                            lemma_find_at(f, i + 1);
                        }
                    }
                }
            }
            false
        }
    }
}

} // verus!

verus! {

/// Expansion-pack metadata of a battery entry.
#[derive(Debug)]
pub struct Expansion {
    /// Maximum battery units (head + packs) sharing one inverter.
    pub max_units_per_inverter: Option<u32>,
    /// `model_id` of the expansion-pack entry, if any.
    pub expansion_pack_model_id: Option<String>,
    /// Whether packs add power (false: energy only).
    pub packs_add_power: Option<bool>,
}

/// Identity, topology and composition facts of a battery catalog entry.
#[derive(Debug)]
pub struct BatteryModel {
    /// Schema version; must equal the supported schema version.
    pub schema_version: String,
    /// Content revision of this entry (semver).
    pub entry_version: String,
    /// `model_id` of the entry this one replaces, if any.
    pub supersedes: Option<String>,
    /// Unique `vendor.model` identifier.
    pub model_id: String,
    /// Vendor display name.
    pub vendor: String,
    /// Human-readable model name.
    pub display_name: String,
    /// Cell chemistry.
    pub chemistry: crate::kinds::Chemistry,
    /// Coupling topology.
    pub coupling: Coupling,
    /// Grid-forming capability when paired with the required controller.
    pub grid_forming_in_backup: bool,
    /// Controller `model_id` required for backup operation.
    pub requires_controller_id: Option<String>,
    /// True when the inverter is integrated.
    pub integrated_inverter: Option<bool>,
    /// Microinverter count per unit.
    pub microinverter_count: Option<u32>,
    /// Whether a per-microinverter power rating is declared.
    pub has_power_per_microinverter: bool,
    /// Expansion-pack metadata.
    pub expansion: Option<Expansion>,
    /// Cooling system type.
    pub cooling: Option<crate::kinds::Cooling>,
}

/// Identity, topology and compatibility facts of an inverter catalog entry.
#[derive(Debug)]
pub struct InverterModel {
    /// Schema version.
    pub schema_version: String,
    /// Content revision of this entry.
    pub entry_version: String,
    /// Unique `vendor.model` identifier.
    pub model_id: String,
    /// Vendor display name.
    pub vendor: String,
    /// Human-readable model name.
    pub display_name: String,
    /// Topology classification.
    pub topology: InverterTopology,
    /// Grid-following when on-grid.
    pub grid_following_on_grid: bool,
    /// Grid-forming in backup when paired with its controller.
    pub grid_forming_in_backup: bool,
    /// Compatible battery `model_id`s.
    pub compatible_battery_ids: Vec<String>,
    /// Maximum batteries per inverter.
    pub max_batteries: Option<u32>,
}

/// Identity and capability facts of a system controller catalog entry.
#[derive(Debug)]
pub struct ControllerModel {
    /// Schema version.
    pub schema_version: String,
    /// Content revision of this entry.
    pub entry_version: String,
    /// Unique `vendor.model` identifier.
    pub model_id: String,
    /// Vendor display name.
    pub vendor: String,
    /// Human-readable model name.
    pub display_name: String,
    /// Whether this controller forms an islanded microgrid.
    pub provides_grid_forming: bool,
    /// Whether a generator input is supported through this controller.
    pub supports_generator_input: bool,
    /// Whether sunlight (PV-only) black-start is supported.
    pub pv_blackstart: Option<bool>,
}

/// Identity and wiring facts of a PV preset catalog entry.
#[derive(Debug)]
pub struct PvPreset {
    /// Schema version.
    pub schema_version: String,
    /// Content revision of this entry.
    pub entry_version: String,
    /// Unique preset identifier.
    pub preset_id: String,
    /// Human-readable name.
    pub display_name: String,
    /// PV inverter `model_id`; `None` when PV lands on hybrid MPPTs.
    pub pv_inverter_model_id: Option<String>,
    /// PV microinverter count, when microinverter-based.
    pub microinverter_count: Option<u32>,
}

impl Keyed for BatteryModel {
    open spec fn key_view(&self) -> Seq<char> {
        self.model_id@
    }

    fn key_str(&self) -> (r: &str) {
        self.model_id.as_str()
    }
}

impl Keyed for InverterModel {
    open spec fn key_view(&self) -> Seq<char> {
        self.model_id@
    }

    fn key_str(&self) -> (r: &str) {
        self.model_id.as_str()
    }
}

impl Keyed for ControllerModel {
    open spec fn key_view(&self) -> Seq<char> {
        self.model_id@
    }

    fn key_str(&self) -> (r: &str) {
        self.model_id.as_str()
    }
}

impl Keyed for PvPreset {
    open spec fn key_view(&self) -> Seq<char> {
        self.preset_id@
    }

    fn key_str(&self) -> (r: &str) {
        self.preset_id.as_str()
    }
}

impl Keyed for String {
    open spec fn key_view(&self) -> Seq<char> {
        self@
    }

    fn key_str(&self) -> (r: &str) {
        self.as_str()
    }
}

/// One entry record in `catalog.json`: identity plus content hash.
#[derive(Debug)]
pub struct CatalogEntry {
    /// Path relative to the registry root.
    pub path: String,
    /// Entry kind (matches the directory).
    pub kind: EntryKindSerde,
    /// `model_id` (or `preset_id`) declared inside the entry file.
    pub model_id: String,
    /// `entry_version` declared inside the entry file.
    pub entry_version: String,
    /// Lowercase hex SHA-256 of the entry file's bytes.
    pub sha256: String,
}

impl CatalogEntry {
    /// A copy of this record.
    pub fn duplicate(&self) -> (r: CatalogEntry)
        ensures
            r == *self,
    {
        CatalogEntry {
            path: self.path.clone(),
            kind: self.kind,
            model_id: self.model_id.clone(),
            entry_version: self.entry_version.clone(),
            sha256: self.sha256.clone(),
        }
    }
}

/// The `catalog.json` manifest.
#[derive(Debug)]
pub struct CatalogManifest {
    /// Semantic version of the whole registry.
    pub registry_version: String,
    /// Schema version the entries conform to.
    pub schema_version: String,
    /// Entry index with per-file content hashes.
    pub entries: Vec<CatalogEntry>,
    /// Whole-catalog integrity hash.
    pub catalog_sha256: String,
}

/// Where the loaded catalog came from.
#[derive(Debug)]
pub enum RegistrySource {
    /// The built-in catalog.
    Embedded,
    /// An external directory, with any built-in entries it shadowed.
    External {
        /// Directory the catalog was loaded from.
        dir: String,
        /// `Kind:model_id` keys of built-in entries shadowed by it.
        shadowed: Vec<String>,
    },
}

/// The last entry of `s` with key `k` (the one an ordered map built by
/// inserting `s` in order keeps).
pub open spec fn last_with_key<T: Keyed>(s: Seq<T>, k: Seq<char>) -> Option<T>
    decreases s.len(),
{
    if s.len() == 0 {
        None
    } else if s.last().key_view() == k {
        Some(s.last())
    } else {
        last_with_key(s.drop_last(), k)
    }
}

/// The entries an ordered map built by inserting `items` in order holds,
/// in ascending key order: the last entry of each key, sorted by key.
pub open spec fn ordered_by_key<T: Keyed>(items: Seq<T>) -> Seq<T> {
    choose|s: Seq<T>| sorted_keys(s) && forall|k: Seq<char>| #[trigger] find(s, k) == last_with_key(items, k)
}

/// A key-sorted sequence with the lookups of `items` is `ordered_by_key(items)`.
pub proof fn lemma_ordered_by_key<T: Keyed>(items: Seq<T>, s: Seq<T>)
    requires
        sorted_keys(s),
        forall|k: Seq<char>| #[trigger] find(s, k) == last_with_key(items, k),
    ensures
        ordered_by_key(items) == s,
{
    let c = ordered_by_key(items);
    assert(sorted_keys(c) && forall|k: Seq<char>| #[trigger] find(c, k) == last_with_key(items, k));
    assert forall|k: Seq<char>| #[trigger] find(c, k) == find(s, k) by {
    }
    lemma_sorted_unique(c, s);
}

/// `last_with_key` finds an entry exactly when one has the key, and the
/// entry it finds has that key.
pub proof fn lemma_last_with_key<T: Keyed>(s: Seq<T>, k: Seq<char>)
    ensures
        (last_with_key(s, k) is Some) <==> has_key(s, k),
        last_with_key(s, k) matches Some(x) ==> x.key_view() == k,
    decreases s.len(),
{
    if s.len() > 0 {
        lemma_last_with_key(s.drop_last(), k);
        if has_key(s.drop_last(), k) {
            let i = choose|i: int| 0 <= i < s.drop_last().len() && (#[trigger] s.drop_last()[i]).key_view() == k;
            assert(s[i].key_view() == k);
        }
        if has_key(s, k) && s.last().key_view() != k {
            let i = choose|i: int| 0 <= i < s.len() && (#[trigger] s[i]).key_view() == k;
            assert(i != s.len() - 1);
            assert(s.drop_last()[i].key_view() == k);
        }
        if s.last().key_view() == k {
            assert(s[s.len() - 1].key_view() == k);
        }
    }
}

/// Build an ordered table from entries inserted in order (later entries
/// with an already-present key replace earlier ones).
pub fn table_from<T: Keyed>(items: Vec<T>) -> (t: Table<T>)
    ensures
        t.wf(),
        forall|k: Seq<char>| #[trigger] find(t.seq(), k) == last_with_key(items@, k),
        t.seq() == ordered_by_key(items@),
{
    let ghost all = items@;
    assert(all.len() == items.len());
    let mut t: Table<T> = Table::new();
    let mut rest = items;
    let mut n: usize = 0;
    while rest.len() > 0
        invariant
            t.wf(),
            n <= all.len(),
            rest@ == all.skip(n as int),
            rest@.len() == all.len() - n,
            all.len() <= usize::MAX,
            forall|k: Seq<char>| #[trigger] find(t.seq(), k) == last_with_key(all.take(n as int), k),
        decreases rest.len(),
    {
        let item = rest.remove(0);
        proof {
            assert(item == all[n as int]);
            assert(all.take(n + 1).drop_last() =~= all.take(n as int));
            assert(all.take(n + 1).last() == item);
        }
        t.insert(item);
        n = n + 1;
        proof {
            assert(rest@ =~= all.skip(n as int));
        }
    }
    assert(all.take(all.len() as int) =~= all);
    proof {
        lemma_ordered_by_key(all, t.seq());
    }
    t
}

/// The loaded, validated, immutable device registry.
#[derive(Debug)]
pub struct Registry {
    manifest: CatalogManifest,
    batteries: Table<BatteryModel>,
    inverters: Table<InverterModel>,
    controllers: Table<ControllerModel>,
    pv_presets: Table<PvPreset>,
    source: RegistrySource,
}

impl Registry {
    /// The four tables are ordered by key.
    #[verifier::type_invariant]
    closed spec fn tables_ordered(&self) -> bool {
        &&& self.batteries.wf()
        &&& self.inverters.wf()
        &&& self.controllers.wf()
        &&& self.pv_presets.wf()
    }

    /// Battery entries in ascending `model_id` order.
    pub closed spec fn battery_seq(&self) -> Seq<BatteryModel> {
        self.batteries.seq()
    }

    /// Inverter entries in ascending `model_id` order.
    pub closed spec fn inverter_seq(&self) -> Seq<InverterModel> {
        self.inverters.seq()
    }

    /// Controller entries in ascending `model_id` order.
    pub closed spec fn controller_seq(&self) -> Seq<ControllerModel> {
        self.controllers.seq()
    }

    /// PV presets in ascending `preset_id` order.
    pub closed spec fn pv_preset_seq(&self) -> Seq<PvPreset> {
        self.pv_presets.seq()
    }

    /// The manifest.
    pub closed spec fn manifest_spec(&self) -> &CatalogManifest {
        &self.manifest
    }

    /// The catalog's origin.
    pub closed spec fn source_spec(&self) -> &RegistrySource {
        &self.source
    }

    /// Assemble a registry from its manifest, origin and tables.
    pub fn assemble(
        manifest: CatalogManifest,
        source: RegistrySource,
        batteries: Table<BatteryModel>,
        inverters: Table<InverterModel>,
        controllers: Table<ControllerModel>,
        pv_presets: Table<PvPreset>,
    ) -> (r: Registry)
        requires
            batteries.wf(),
            inverters.wf(),
            controllers.wf(),
            pv_presets.wf(),
        ensures
            r.battery_seq() == batteries.seq(),
            r.inverter_seq() == inverters.seq(),
            r.controller_seq() == controllers.seq(),
            r.pv_preset_seq() == pv_presets.seq(),
            *r.manifest_spec() == manifest,
            *r.source_spec() == source,
    {
        Registry { manifest, batteries, inverters, controllers, pv_presets, source }
    }

    /// Build a registry directly from typed entries, bypassing catalog files,
    /// integrity checks and validation. The manifest is trivial, the origin
    /// is the built-in catalog, and there are no PV presets. Later entries
    /// replace earlier ones with the same `model_id`.
    pub fn from_parts(
        batteries: Vec<BatteryModel>,
        inverters: Vec<InverterModel>,
        controllers: Vec<ControllerModel>,
    ) -> (r: Registry)
        ensures
            forall|k: Seq<char>| #[trigger] find(r.battery_seq(), k) == last_with_key(batteries@, k),
            forall|k: Seq<char>| #[trigger] find(r.inverter_seq(), k) == last_with_key(inverters@, k),
            forall|k: Seq<char>| #[trigger] find(r.controller_seq(), k) == last_with_key(controllers@, k),
            r.pv_preset_seq().len() == 0,
            r.battery_seq() == ordered_by_key(batteries@),
            r.inverter_seq() == ordered_by_key(inverters@),
            r.controller_seq() == ordered_by_key(controllers@),
            r.manifest_spec().registry_version@ == "0.0.0-test"@,
            r.manifest_spec().schema_version@ == "1.0.0"@,
            r.manifest_spec().entries@.len() == 0,
            r.manifest_spec().catalog_sha256@.len() == 0,
            r.source_spec() is Embedded,
    {
        let manifest = CatalogManifest {
            registry_version: String::from_str("0.0.0-test"),
            schema_version: String::from_str("1.0.0"),
            entries: Vec::new(),
            catalog_sha256: String::new(),
        };
        Registry {
            manifest,
            batteries: table_from(batteries),
            inverters: table_from(inverters),
            controllers: table_from(controllers),
            pv_presets: Table::new(),
            source: RegistrySource::Embedded,
        }
    }

    /// The catalog manifest (version, entry index, integrity hash).
    pub fn manifest(&self) -> (r: &CatalogManifest)
        ensures
            r == self.manifest_spec(),
    {
        &self.manifest
    }

    /// Where this registry was loaded from.
    pub fn source(&self) -> (r: &RegistrySource)
        ensures
            r == self.source_spec(),
    {
        &self.source
    }

    /// Add a battery entry (replacing one with the same `model_id`);
    /// reports whether one was replaced.
    pub fn put_battery(&mut self, m: BatteryModel) -> (replaced: bool)
        ensures
            replaced == has_key(old(self).battery_seq(), m.key_view()),
            forall|k: Seq<char>|
                #![trigger find(final(self).battery_seq(), k)]
                find(final(self).battery_seq(), k) == if k == m.key_view() {
                    Some(m)
                } else {
                    find(old(self).battery_seq(), k)
                },
            final(self).inverter_seq() == old(self).inverter_seq(),
            final(self).controller_seq() == old(self).controller_seq(),
            final(self).pv_preset_seq() == old(self).pv_preset_seq(),
            *final(self).manifest_spec() == *old(self).manifest_spec(),
            *final(self).source_spec() == *old(self).source_spec(),
    {
        proof {
            use_type_invariant(&*self);
        }
        let mut t = Table::new();
        std::mem::swap(&mut t, &mut self.batteries);
        let replaced = t.insert(m);
        self.batteries = t;
        replaced
    }

    /// Add an inverter entry (replacing one with the same `model_id`).
    pub fn put_inverter(&mut self, m: InverterModel) -> (replaced: bool)
        ensures
            replaced == has_key(old(self).inverter_seq(), m.key_view()),
            forall|k: Seq<char>|
                #![trigger find(final(self).inverter_seq(), k)]
                find(final(self).inverter_seq(), k) == if k == m.key_view() {
                    Some(m)
                } else {
                    find(old(self).inverter_seq(), k)
                },
            final(self).battery_seq() == old(self).battery_seq(),
            final(self).controller_seq() == old(self).controller_seq(),
            final(self).pv_preset_seq() == old(self).pv_preset_seq(),
            *final(self).manifest_spec() == *old(self).manifest_spec(),
            *final(self).source_spec() == *old(self).source_spec(),
    {
        proof {
            use_type_invariant(&*self);
        }
        let mut t = Table::new();
        std::mem::swap(&mut t, &mut self.inverters);
        let replaced = t.insert(m);
        self.inverters = t;
        replaced
    }

    /// Add a controller entry (replacing one with the same `model_id`).
    pub fn put_controller(&mut self, m: ControllerModel) -> (replaced: bool)
        ensures
            replaced == has_key(old(self).controller_seq(), m.key_view()),
            forall|k: Seq<char>|
                #![trigger find(final(self).controller_seq(), k)]
                find(final(self).controller_seq(), k) == if k == m.key_view() {
                    Some(m)
                } else {
                    find(old(self).controller_seq(), k)
                },
            final(self).battery_seq() == old(self).battery_seq(),
            final(self).inverter_seq() == old(self).inverter_seq(),
            final(self).pv_preset_seq() == old(self).pv_preset_seq(),
            *final(self).manifest_spec() == *old(self).manifest_spec(),
            *final(self).source_spec() == *old(self).source_spec(),
    {
        proof {
            use_type_invariant(&*self);
        }
        let mut t = Table::new();
        std::mem::swap(&mut t, &mut self.controllers);
        let replaced = t.insert(m);
        self.controllers = t;
        replaced
    }

    /// Add a PV preset (replacing one with the same `preset_id`).
    pub fn put_pv_preset(&mut self, m: PvPreset) -> (replaced: bool)
        ensures
            replaced == has_key(old(self).pv_preset_seq(), m.key_view()),
            forall|k: Seq<char>|
                #![trigger find(final(self).pv_preset_seq(), k)]
                find(final(self).pv_preset_seq(), k) == if k == m.key_view() {
                    Some(m)
                } else {
                    find(old(self).pv_preset_seq(), k)
                },
            final(self).battery_seq() == old(self).battery_seq(),
            final(self).inverter_seq() == old(self).inverter_seq(),
            final(self).controller_seq() == old(self).controller_seq(),
            *final(self).manifest_spec() == *old(self).manifest_spec(),
            *final(self).source_spec() == *old(self).source_spec(),
    {
        proof {
            use_type_invariant(&*self);
        }
        let mut t = Table::new();
        std::mem::swap(&mut t, &mut self.pv_presets);
        let replaced = t.insert(m);
        self.pv_presets = t;
        replaced
    }

    /// Replace the manifest and the record of where the catalog came from.
    pub fn relabel(&mut self, manifest: CatalogManifest, source: RegistrySource)
        ensures
            *final(self).manifest_spec() == manifest,
            *final(self).source_spec() == source,
            final(self).battery_seq() == old(self).battery_seq(),
            final(self).inverter_seq() == old(self).inverter_seq(),
            final(self).controller_seq() == old(self).controller_seq(),
            final(self).pv_preset_seq() == old(self).pv_preset_seq(),
    {
        proof {
            use_type_invariant(&*self);
        }
        self.manifest = manifest;
        self.source = source;
    }

    /// Take the manifest out (leaving an empty one), e.g. to rebuild it.
    pub fn take_manifest(&mut self) -> (m: CatalogManifest)
        ensures
            m == *old(self).manifest_spec(),
            final(self).battery_seq() == old(self).battery_seq(),
            final(self).inverter_seq() == old(self).inverter_seq(),
            final(self).controller_seq() == old(self).controller_seq(),
            final(self).pv_preset_seq() == old(self).pv_preset_seq(),
            *final(self).source_spec() == *old(self).source_spec(),
    {
        proof {
            use_type_invariant(&*self);
        }
        let mut empty = CatalogManifest {
            registry_version: String::new(),
            schema_version: String::new(),
            entries: Vec::new(),
            catalog_sha256: String::new(),
        };
        std::mem::swap(&mut self.manifest, &mut empty);
        empty
    }

    /// Look up a battery model by `model_id`.
    pub fn battery(&self, model_id: &str) -> (r: Option<&BatteryModel>)
        ensures
            match r {
                Some(m) => find(self.battery_seq(), model_id@) == Some(*m),
                None => find(self.battery_seq(), model_id@) is None,
            },
    {
        proof {
            use_type_invariant(self);
        }
        self.batteries.get(model_id)
    }

    /// Look up an inverter model by `model_id`.
    pub fn inverter(&self, model_id: &str) -> (r: Option<&InverterModel>)
        ensures
            match r {
                Some(m) => find(self.inverter_seq(), model_id@) == Some(*m),
                None => find(self.inverter_seq(), model_id@) is None,
            },
    {
        proof {
            use_type_invariant(self);
        }
        self.inverters.get(model_id)
    }

    /// Look up a controller model by `model_id`.
    pub fn controller(&self, model_id: &str) -> (r: Option<&ControllerModel>)
        ensures
            match r {
                Some(m) => find(self.controller_seq(), model_id@) == Some(*m),
                None => find(self.controller_seq(), model_id@) is None,
            },
    {
        proof {
            use_type_invariant(self);
        }
        self.controllers.get(model_id)
    }

    /// Look up a PV preset by `preset_id`.
    pub fn pv_preset(&self, preset_id: &str) -> (r: Option<&PvPreset>)
        ensures
            match r {
                Some(m) => find(self.pv_preset_seq(), preset_id@) == Some(*m),
                None => find(self.pv_preset_seq(), preset_id@) is None,
            },
    {
        proof {
            use_type_invariant(self);
        }
        self.pv_presets.get(preset_id)
    }

    /// All battery models in ascending `model_id` order.
    pub fn batteries(&self) -> (r: &[BatteryModel])
        ensures
            r@ == self.battery_seq(),
            sorted_keys(r@),
    {
        proof {
            use_type_invariant(self);
        }
        self.batteries.entries()
    }

    /// All inverter models in ascending `model_id` order.
    pub fn inverters(&self) -> (r: &[InverterModel])
        ensures
            r@ == self.inverter_seq(),
            sorted_keys(r@),
    {
        proof {
            use_type_invariant(self);
        }
        self.inverters.entries()
    }

    /// All controller models in ascending `model_id` order.
    pub fn controllers(&self) -> (r: &[ControllerModel])
        ensures
            r@ == self.controller_seq(),
            sorted_keys(r@),
    {
        proof {
            use_type_invariant(self);
        }
        self.controllers.entries()
    }

    /// All PV presets in ascending `preset_id` order.
    pub fn pv_presets(&self) -> (r: &[PvPreset])
        ensures
            r@ == self.pv_preset_seq(),
            sorted_keys(r@),
    {
        proof {
            use_type_invariant(self);
        }
        self.pv_presets.entries()
    }
}

} // verus!
