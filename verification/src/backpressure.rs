//! Backpressure from the outbox backlog: the last known count of unpublished
//! events per store, and a threshold above which writes are refused.
use vstd::prelude::*;
use crate::keyed::{assoc_insert, assoc_map, distinct_keys, find_key, lemma_assoc_map};
use crate::projection::contains_str;
use crate::text::views;

verus! {

/// Last known outbox depth per store, and the threshold above which a store is refused.
pub struct OutboxBacklog {
    threshold: i64,
    depths: Vec<(String, i64)>,
}

/// `seen` holds the store `k`.
pub open spec fn in_seen(seen: Seq<String>, k: Seq<char>) -> bool {
    exists|i: int| 0 <= i < seen.len() && seen[i]@ == k
}

/// The depths after a poll that saw `seen`: stores not seen are drained.
pub open spec fn spec_reset(d: Map<Seq<char>, i64>, seen: Seq<String>) -> Map<Seq<char>, i64> {
    Map::new(|k: Seq<char>| d.contains_key(k), |k: Seq<char>| if in_seen(seen, k) { d[k] } else { 0 })
}

/// The stores whose depth a reset changes.
pub open spec fn reset_target(d: Map<Seq<char>, i64>, seen: Seq<String>, k: Seq<char>) -> bool {
    d.contains_key(k) && !in_seen(seen, k) && d[k] != 0
}

/// The backlog that refuses writes to `store`, if any.
pub open spec fn spec_check(threshold: i64, d: Map<Seq<char>, i64>, store: Seq<char>) -> Option<i64> {
    if threshold <= 0 {
        None
    } else if d.contains_key(store) && d[store] > threshold {
        Some(d[store])
    } else {
        None
    }
}

/// The keys of the pairs of `s` that a reset with `seen` changes, in order.
pub open spec fn reset_keys(s: Seq<(String, i64)>, seen: Seq<String>) -> Seq<Seq<char>>
    decreases s.len(),
{
    if s.len() == 0 {
        Seq::empty()
    } else if !in_seen(seen, s.last().0@) && s.last().1 != 0 {
        reset_keys(s.drop_last(), seen).push(s.last().0@)
    } else {
        reset_keys(s.drop_last(), seen)
    }
}

proof fn lemma_reset_keys(s: Seq<(String, i64)>, seen: Seq<String>)
    requires
        distinct_keys(s),
    ensures
        forall|x: int|
            0 <= x < reset_keys(s, seen).len() ==> exists|j: int|
                0 <= j < s.len() && (#[trigger] s[j]).0@ == #[trigger] reset_keys(s, seen)[x] && !in_seen(
                    seen,
                    s[j].0@,
                ) && s[j].1 != 0,
        forall|j: int|
            0 <= j < s.len() && !in_seen(seen, (#[trigger] s[j]).0@) && s[j].1 != 0 ==> exists|
                x: int,
            |
                0 <= x < reset_keys(s, seen).len() && reset_keys(s, seen)[x] == s[j].0@,
        forall|a: int, b: int|
            0 <= a < b < reset_keys(s, seen).len() ==> #[trigger] reset_keys(s, seen)[a]
                != #[trigger] reset_keys(s, seen)[b],
    decreases s.len(),
{
    if s.len() > 0 {
        let d = s.drop_last();
        crate::keyed::lemma_distinct_drop_last(s);
        lemma_reset_keys(d, seen);
        let r = reset_keys(s, seen);
        let rd = reset_keys(d, seen);
        assert forall|x: int| 0 <= x < r.len() implies exists|j: int|
            0 <= j < s.len() && (#[trigger] s[j]).0@ == #[trigger] r[x] && !in_seen(seen, s[j].0@) && s[j].1
                != 0 by {
            if x < rd.len() {
                assert(r[x] == rd[x]);
                let j = choose|j: int|
                    0 <= j < d.len() && (#[trigger] d[j]).0@ == rd[x] && !in_seen(seen, d[j].0@)
                        && d[j].1 != 0;
                assert(s[j] == d[j]);
            } else {
                assert(s[s.len() - 1].0@ == r[x]);
            }
        }
        assert forall|j: int|
            0 <= j < s.len() && !in_seen(seen, (#[trigger] s[j]).0@) && s[j].1 != 0 implies exists|
            x: int,
        | 0 <= x < r.len() && r[x] == s[j].0@ by {
            if j < s.len() - 1 {
                assert(s[j] == d[j]);
                let x = choose|x: int| 0 <= x < rd.len() && rd[x] == d[j].0@;
                assert(r[x] == rd[x]);
            } else {
                assert(r[rd.len() as int] == s[j].0@);
            }
        }
        assert forall|a: int, b: int| 0 <= a < b < r.len() implies #[trigger] r[a] != #[trigger] r[b] by {
            if b < rd.len() {
                assert(r[a] == rd[a] && r[b] == rd[b]);
            } else if b == rd.len() {
                assert(r[a] == rd[a]);
                let j = choose|j: int|
                    0 <= j < d.len() && (#[trigger] d[j]).0@ == rd[a] && !in_seen(seen, d[j].0@)
                        && d[j].1 != 0;
                assert(s[j] == d[j]);
                assert(s[j].0@ != s[s.len() - 1].0@);
            }
        }
    }
}

impl OutboxBacklog {
    /// The threshold; `<= 0` turns backpressure off.
    pub closed spec fn spec_threshold(&self) -> i64 {
        self.threshold
    }

    /// The last known depth of each store.
    pub closed spec fn spec_depths(&self) -> Map<Seq<char>, i64> {
        assoc_map(self.depths@)
    }

    pub closed spec fn wf(&self) -> bool {
        distinct_keys(self.depths@)
    }

    /// A backlog with no known depths. `threshold <= 0` disables backpressure.
    pub fn new(threshold: i64) -> (r: Self)
        ensures
            r.wf(),
            r.spec_threshold() == threshold,
            r.spec_depths() == Map::<Seq<char>, i64>::empty(),
    {
        OutboxBacklog { threshold, depths: Vec::new() }
    }

    /// The configured threshold.
    pub fn threshold(&self) -> (r: i64)
        ensures
            r == self.spec_threshold(),
    {
        self.threshold
    }

    /// Records the depth of `store`.
    pub fn update(&mut self, store: &str, depth: i64)
        requires
            old(self).wf(),
        ensures
            final(self).wf(),
            final(self).spec_threshold() == old(self).spec_threshold(),
            final(self).spec_depths() == old(self).spec_depths().insert(store@, depth),
    {
        assoc_insert(&mut self.depths, crate::text::owned(store), depth);
    }

    /// Sets to 0 every known store that is not in `seen` (its outbox drained) and
    /// returns the stores whose depth this changed, each once.
    pub fn reset_missing(&mut self, seen: &[String]) -> (r: Vec<String>)
        requires
            old(self).wf(),
        ensures
            final(self).wf(),
            final(self).spec_threshold() == old(self).spec_threshold(),
            final(self).spec_depths() == spec_reset(old(self).spec_depths(), seen@),
            forall|i: int|
                0 <= i < r@.len() ==> reset_target(old(self).spec_depths(), seen@, (#[trigger] r@[i])@),
            forall|k: Seq<char>|
                reset_target(old(self).spec_depths(), seen@, k) ==> exists|i: int|
                    0 <= i < r@.len() && (#[trigger] r@[i])@ == k,
            forall|i: int, j: int| 0 <= i < j < r@.len() ==> (#[trigger] r@[i])@ != (#[trigger] r@[j])@,
    {
        let ghost d0 = self.depths@;
        let ghost m0 = assoc_map(d0);
        let ghost t0 = self.threshold;
        proof {
            lemma_assoc_map(d0);
        }
        let mut reset: Vec<String> = Vec::new();
        let n = self.depths.len();
        let mut i: usize = 0;
        while i < n
            invariant
                n == self.depths@.len(),
                n == d0.len(),
                self.threshold == t0,
                m0 == assoc_map(d0),
                distinct_keys(d0),
                i <= n,
                forall|j: int| 0 <= j < n ==> (#[trigger] self.depths@[j]).0@ == d0[j].0@,
                forall|j: int|
                    0 <= j < i ==> (#[trigger] self.depths@[j]).1 == (if in_seen(seen@, d0[j].0@) {
                        d0[j].1
                    } else {
                        0
                    }),
                forall|j: int| i <= j < n ==> (#[trigger] self.depths@[j]).1 == d0[j].1,
                views(reset@) == reset_keys(d0.take(i as int), seen@),
            decreases n - i,
        {
            let depth = self.depths[i].1;
            let ghost before = views(reset@);
            if !contains_str(seen, self.depths[i].0.as_str()) && depth != 0 {
                let key = self.depths[i].0.clone();
                let key2 = self.depths[i].0.clone();
                self.depths.set(i, (key, 0));
                reset.push(key2);
                assert(views(reset@) =~= before.push(d0[i as int].0@));
            } else {
                proof {
                    if !in_seen(seen@, d0[i as int].0@) {
                        assert(depth == 0);
                    }
                }
            }
            assert(d0.take(i + 1).drop_last() =~= d0.take(i as int));
            i = i + 1;
        }
        proof {
            assert(d0.take(n as int) =~= d0);
            lemma_assoc_map(d0);
            lemma_reset_keys(d0, seen@);
            assert(distinct_keys(self.depths@)) by {
                assert forall|a: int, b: int| 0 <= a < b < self.depths@.len() implies (
                #[trigger] self.depths@[a]).0@ != (#[trigger] self.depths@[b]).0@ by {
                    assert(d0[a].0@ != d0[b].0@);
                }
            }
            lemma_assoc_map(self.depths@);
            let m1 = assoc_map(self.depths@);
            assert forall|k: Seq<char>| m1.contains_key(k) implies m0.contains_key(k) by {
                let j = choose|j: int| 0 <= j < n && (#[trigger] self.depths@[j]).0@ == k;
                assert(d0[j].0@ == k);
            }
            assert forall|k: Seq<char>| m0.contains_key(k) implies m1.contains_key(k) && m1[k] == (
            if in_seen(seen@, k) {
                m0[k]
            } else {
                0
            }) by {
                let j = choose|j: int| 0 <= j < n && (#[trigger] d0[j]).0@ == k;
                assert(self.depths@[j].0@ == k);
            }
            let target = spec_reset(m0, seen@);
            assert(target.dom() =~= m0.dom());
            assert forall|k: Seq<char>| #[trigger] m1.dom().contains(k) == m0.dom().contains(k) by {
                if m1.contains_key(k) {
                    assert(m0.contains_key(k));
                }
                if m0.contains_key(k) {
                    let j = choose|j: int| 0 <= j < n && (#[trigger] d0[j]).0@ == k;
                    assert(self.depths@[j].0@ == k);
                    assert(m1.contains_key(k));
                }
            }
            assert(m1.dom() =~= m0.dom());
            assert forall|k: Seq<char>| #[trigger] m1.contains_key(k) implies m1[k] == target[k] by {
                assert(m0.contains_key(k));
            }
            assert(m1 =~= target);
            assert forall|x: int| 0 <= x < reset@.len() implies reset_target(
                m0,
                seen@,
                (#[trigger] reset@[x])@,
            ) by {
                assert(views(reset@)[x] == reset@[x]@);
                let j = choose|j: int|
                    0 <= j < n && (#[trigger] d0[j]).0@ == reset@[x]@ && !in_seen(seen@, d0[j].0@)
                        && d0[j].1 != 0;
                assert(m0[d0[j].0@] == d0[j].1);
            }
            assert forall|k: Seq<char>| reset_target(m0, seen@, k) implies exists|x: int|
                0 <= x < reset@.len() && (#[trigger] reset@[x])@ == k by {
                let j = choose|j: int| 0 <= j < n && (#[trigger] d0[j]).0@ == k;
                assert(m0[k] == d0[j].1);
                let x = choose|x: int| 0 <= x < views(reset@).len() && views(reset@)[x] == k;
                assert(reset@[x]@ == views(reset@)[x]);
            }
            assert forall|a: int, b: int| 0 <= a < b < reset@.len() implies (
            #[trigger] reset@[a])@ != (#[trigger] reset@[b])@ by {
                assert(views(reset@)[a] == reset@[a]@);
                assert(views(reset@)[b] == reset@[b]@);
            }
        }
        reset
    }

    /// `Some(depth)` when backpressure is on and `store`'s known depth is above the threshold.
    pub fn check(&self, store: &str) -> (r: Option<i64>)
        requires
            self.wf(),
        ensures
            r == spec_check(self.spec_threshold(), self.spec_depths(), store@),
    {
        if self.threshold <= 0 {
            return None;
        }
        proof {
            lemma_assoc_map(self.depths@);
        }
        match find_key(&self.depths, store) {
            Some(i) => {
                let d = self.depths[i].1;
                if d > self.threshold {
                    Some(d)
                } else {
                    None
                }
            },
            None => None,
        }
    }
}

/// A second reset with the same `seen` changes nothing and reports no store.
pub proof fn lemma_reset_missing_idempotent(d: Map<Seq<char>, i64>, seen: Seq<String>)
    ensures
        spec_reset(spec_reset(d, seen), seen) == spec_reset(d, seen),
        forall|k: Seq<char>| !reset_target(spec_reset(d, seen), seen, k),
{
    assert(spec_reset(spec_reset(d, seen), seen) =~= spec_reset(d, seen));
}

/// After a reset, no store outside `seen` is refused.
pub proof fn lemma_reset_releases_drained(
    threshold: i64,
    d: Map<Seq<char>, i64>,
    seen: Seq<String>,
    store: Seq<char>,
)
    requires
        !in_seen(seen, store),
    ensures
        spec_check(threshold, spec_reset(d, seen), store) is None,
{
}

/// With backpressure off, no store is ever refused.
pub proof fn lemma_disabled_never_refuses(threshold: i64, d: Map<Seq<char>, i64>, store: Seq<char>)
    requires
        threshold <= 0,
    ensures
        spec_check(threshold, d, store) is None,
{
}

} // verus!
