//! Association lists keyed by strings, seen as maps.
use vstd::prelude::*;
use crate::text::str_eq;

verus! {

/// The pairs of `s` as a map from key text to value; a later pair replaces an earlier one.
pub open spec fn assoc_map<V>(s: Seq<(String, V)>) -> Map<Seq<char>, V>
    decreases s.len(),
{
    if s.len() == 0 {
        Map::empty()
    } else {
        assoc_map(s.drop_last()).insert(s.last().0@, s.last().1)
    }
}

/// No two pairs of `s` share a key.
pub open spec fn distinct_keys<V>(s: Seq<(String, V)>) -> bool {
    forall|i: int, j: int| 0 <= i < j < s.len() ==> (#[trigger] s[i]).0@ != (#[trigger] s[j]).0@
}

pub proof fn lemma_distinct_drop_last<V>(s: Seq<(String, V)>)
    requires
        distinct_keys(s),
        s.len() > 0,
    ensures
        distinct_keys(s.drop_last()),
{
    let d = s.drop_last();
    assert forall|i: int, j: int| 0 <= i < j < d.len() implies (#[trigger] d[i]).0@ != (
    #[trigger] d[j]).0@ by {
        assert(d[i] == s[i] && d[j] == s[j]);
    }
}

/// With distinct keys, each pair is in the map, and the map holds nothing else.
pub proof fn lemma_assoc_map<V>(s: Seq<(String, V)>)
    requires
        distinct_keys(s),
    ensures
        forall|i: int|
            0 <= i < s.len() ==> assoc_map(s).contains_key((#[trigger] s[i]).0@) && assoc_map(s)[s[i].0@]
                == s[i].1,
        forall|k: Seq<char>|
            assoc_map(s).contains_key(k) ==> exists|i: int| 0 <= i < s.len() && (#[trigger] s[i]).0@ == k,
        assoc_map(s).dom().finite(),
        assoc_map(s).dom().len() == s.len(),
    decreases s.len(),
{
    if s.len() > 0 {
        let d = s.drop_last();
        lemma_distinct_drop_last(s);
        lemma_assoc_map(d);
        assert forall|i: int|
            0 <= i < s.len() implies assoc_map(s).contains_key((#[trigger] s[i]).0@) && assoc_map(
            s,
        )[s[i].0@] == s[i].1 by {
            if i < s.len() - 1 {
                assert(d[i] == s[i]);
                assert(s[i].0@ != s[s.len() - 1].0@);
            }
        }
        assert forall|k: Seq<char>| assoc_map(s).contains_key(k) implies exists|i: int|
            0 <= i < s.len() && (#[trigger] s[i]).0@ == k by {
            if k == s.last().0@ {
                assert(s[s.len() - 1].0@ == k);
            } else {
                let i = choose|i: int| 0 <= i < d.len() && (#[trigger] d[i]).0@ == k;
                assert(s[i] == d[i]);
            }
        }
        assert(!assoc_map(d).contains_key(s.last().0@)) by {
            if assoc_map(d).contains_key(s.last().0@) {
                let i = choose|i: int| 0 <= i < d.len() && (#[trigger] d[i]).0@ == s.last().0@;
                assert(s[i] == d[i]);
                assert(s[i].0@ != s[s.len() - 1].0@);
            }
        }
        assert(assoc_map(s).dom() =~= assoc_map(d).dom().insert(s.last().0@));
    }
}

/// Replacing the value of an existing key.
pub proof fn lemma_assoc_update<V>(s: Seq<(String, V)>, k: int, p: (String, V))
    requires
        distinct_keys(s),
        0 <= k < s.len(),
        p.0@ == s[k].0@,
    ensures
        assoc_map(s.update(k, p)) == assoc_map(s).insert(p.0@, p.1),
        distinct_keys(s.update(k, p)),
    decreases s.len(),
{
    let u = s.update(k, p);
    assert(distinct_keys(u)) by {
        assert forall|i: int, j: int| 0 <= i < j < u.len() implies (#[trigger] u[i]).0@ != (
        #[trigger] u[j]).0@ by {
            assert(u[i].0@ == s[i].0@);
            assert(u[j].0@ == s[j].0@);
        }
    }
    let d = s.drop_last();
    lemma_distinct_drop_last(s);
    if k == s.len() - 1 {
        assert(u.drop_last() =~= d);
        assert(assoc_map(u) =~= assoc_map(s).insert(p.0@, p.1));
    } else {
        lemma_assoc_update(d, k, p);
        assert(u.drop_last() =~= d.update(k, p));
        assert(s.last().0@ != p.0@) by {
            assert(s[k].0@ != s[s.len() - 1].0@);
        }
        assert(assoc_map(u) =~= assoc_map(s).insert(p.0@, p.1));
    }
}

/// Appending a pair with a new key.
pub proof fn lemma_assoc_push<V>(s: Seq<(String, V)>, p: (String, V))
    requires
        distinct_keys(s),
        forall|i: int| 0 <= i < s.len() ==> (#[trigger] s[i]).0@ != p.0@,
    ensures
        assoc_map(s.push(p)) == assoc_map(s).insert(p.0@, p.1),
        distinct_keys(s.push(p)),
{
    let q = s.push(p);
    assert(q.drop_last() =~= s);
    assert(distinct_keys(q)) by {
        assert forall|i: int, j: int| 0 <= i < j < q.len() implies (#[trigger] q[i]).0@ != (
        #[trigger] q[j]).0@ by {
            assert(q[i] == s[i]);
            if j < s.len() {
                assert(q[j] == s[j]);
            }
        }
    }
}

/// Index of the pair whose key is `key`.
pub fn find_key<V>(s: &Vec<(String, V)>, key: &str) -> (r: Option<usize>)
    ensures
        match r {
            Some(i) => i < s@.len() && s@[i as int].0@ == key@,
            None => forall|i: int| 0 <= i < s@.len() ==> (#[trigger] s@[i]).0@ != key@,
        },
{
    let n = s.len();
    let mut i: usize = 0;
    while i < n
        invariant
            n == s@.len(),
            i <= n,
            forall|j: int| 0 <= j < i ==> (#[trigger] s@[j]).0@ != key@,
        decreases n - i,
    {
        if str_eq(s[i].0.as_str(), key) {
            return Some(i);
        }
        i = i + 1;
    }
    None
}

/// The value of a key is that of its last pair.
pub proof fn lemma_assoc_last<V>(s: Seq<(String, V)>, i: int)
    requires
        0 <= i < s.len(),
        forall|j: int| i < j < s.len() ==> (#[trigger] s[j]).0@ != s[i].0@,
    ensures
        assoc_map(s).contains_key(s[i].0@),
        assoc_map(s)[s[i].0@] == s[i].1,
    decreases s.len(),
{
    if i < s.len() - 1 {
        let d = s.drop_last();
        assert(d[i] == s[i]);
        assert forall|j: int| i < j < d.len() implies (#[trigger] d[j]).0@ != d[i].0@ by {
            assert(d[j] == s[j]);
        }
        lemma_assoc_last(d, i);
        assert(s[s.len() - 1].0@ != s[i].0@);
    }
}

/// A key without pairs is not in the map.
pub proof fn lemma_assoc_absent<V>(s: Seq<(String, V)>, k: Seq<char>)
    requires
        forall|i: int| 0 <= i < s.len() ==> (#[trigger] s[i]).0@ != k,
    ensures
        !assoc_map(s).contains_key(k),
    decreases s.len(),
{
    if s.len() > 0 {
        let d = s.drop_last();
        assert forall|i: int| 0 <= i < d.len() implies (#[trigger] d[i]).0@ != k by {
            assert(d[i] == s[i]);
        }
        lemma_assoc_absent(d, k);
        assert(s[s.len() - 1].0@ != k);
    }
}

/// Index of the last pair whose key is `key`: the pair that `assoc_map` keeps.
pub fn last_key<V>(s: &Vec<(String, V)>, key: &str) -> (r: Option<usize>)
    ensures
        match r {
            Some(i) => i < s@.len() && s@[i as int].0@ == key@ && assoc_map(s@).contains_key(key@)
                && assoc_map(s@)[key@] == s@[i as int].1,
            None => !assoc_map(s@).contains_key(key@),
        },
{
    let mut i: usize = s.len();
    while i > 0
        invariant
            i <= s@.len(),
            forall|j: int| i <= j < s@.len() ==> (#[trigger] s@[j]).0@ != key@,
        decreases i,
    {
        if str_eq(s[i - 1].0.as_str(), key) {
            proof {
                lemma_assoc_last(s@, i - 1);
            }
            return Some(i - 1);
        }
        i = i - 1;
    }
    proof {
        lemma_assoc_absent(s@, key@);
    }
    None
}

/// Sets `key` to `value`: replaces the value of an existing key, else appends.
pub fn assoc_insert<V>(s: &mut Vec<(String, V)>, key: String, value: V)
    requires
        distinct_keys(old(s)@),
    ensures
        distinct_keys(final(s)@),
        assoc_map(final(s)@) == assoc_map(old(s)@).insert(key@, value),
{
    let ghost k = key@;
    match find_key(s, key.as_str()) {
        Some(i) => {
            proof {
                lemma_assoc_update(s@, i as int, (key, value));
            }
            s.set(i, (key, value));
        },
        None => {
            proof {
                lemma_assoc_push(s@, (key, value));
            }
            s.push((key, value));
        },
    }
}

} // verus!
