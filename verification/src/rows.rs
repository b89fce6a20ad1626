//! Rows read from the stores being migrated, and the rules that merge the
//! rows of several stores into one set: last-write-wins for state,
//! agreement for idempotency records and outbox events.
use vstd::prelude::*;
use crate::migrate::MigrationError;
use crate::order::{compare_text, lemma_text_lt_asymmetric, lemma_text_lt_transitive, text_lt, Order};
use crate::seqs::{first_index, lemma_first_index, lemma_first_index_unique};
use crate::text::{concat, str_eq};

verus! {

/// The state of one entity key in one source: a payload, or a tombstone when
/// `payload` is `None`.
#[derive(Debug)]
pub struct StateRow {
    pub entity: String,
    pub key: String,
    pub version: u64,
    pub timestamp: String,
    pub source: String,
    pub payload: Option<Vec<u8>>,
    pub event_id: Option<String>,
}

/// A state row as values.
pub struct StateView {
    pub entity: Seq<char>,
    pub key: Seq<char>,
    pub version: u64,
    pub timestamp: Seq<char>,
    pub source: Seq<char>,
    pub payload: Option<Seq<u8>>,
    pub event_id: Option<Seq<char>>,
}

pub open spec fn bytes_view(b: Option<Vec<u8>>) -> Option<Seq<u8>> {
    match b {
        Some(v) => Some(v@),
        None => None,
    }
}

pub open spec fn text_view(t: Option<String>) -> Option<Seq<char>> {
    match t {
        Some(v) => Some(v@),
        None => None,
    }
}

impl View for StateRow {
    type V = StateView;

    open spec fn view(&self) -> StateView {
        StateView {
            entity: self.entity@,
            key: self.key@,
            version: self.version,
            timestamp: self.timestamp@,
            source: self.source@,
            payload: bytes_view(self.payload),
            event_id: text_view(self.event_id),
        }
    }
}

pub open spec fn state_views(s: Seq<StateRow>) -> Seq<StateView> {
    s.map_values(|r: StateRow| r@)
}

/// Both rows describe the same entity key.
pub open spec fn same_state_key(a: StateView, b: StateView) -> bool {
    a.entity == b.entity && a.key == b.key
}

/// `a` wins over `b` under last-write-wins: the higher version, then the later
/// timestamp, then the lexicographically smaller source.
pub open spec fn lww_beats(a: StateView, b: StateView) -> bool {
    a.version > b.version || (a.version == b.version && (text_lt(b.timestamp, a.timestamp) || (
    b.timestamp == a.timestamp && text_lt(a.source, b.source))))
}

/// Two rows for one key disagree on version, payload or timestamp.
pub open spec fn state_conflict(current: StateView, candidate: StateView) -> bool {
    current.version != candidate.version || current.payload != candidate.payload
        || current.timestamp != candidate.timestamp
}

/// Where the key of `c` is held in `s`, or -1.
pub open spec fn state_index(s: Seq<StateView>, c: StateView) -> int {
    first_index(s, |x: StateView| same_state_key(x, c))
}

/// `s` after one candidate row is merged in.
pub open spec fn merge_step(s: Seq<StateView>, c: StateView) -> Seq<StateView> {
    let i = state_index(s, c);
    if i < 0 {
        s.push(c)
    } else if lww_beats(c, s[i]) {
        s.update(i, c)
    } else {
        s
    }
}

/// Merging `c` into `s` meets a row for the same key that disagrees with it.
pub open spec fn step_conflict(s: Seq<StateView>, c: StateView) -> bool {
    let i = state_index(s, c);
    i >= 0 && state_conflict(s[i], c)
}

/// The rows kept after merging `rows` in order.
pub open spec fn merged_states(rows: Seq<StateView>) -> Seq<StateView>
    decreases rows.len(),
{
    if rows.len() == 0 {
        Seq::empty()
    } else {
        merge_step(merged_states(rows.drop_last()), rows.last())
    }
}

/// How many merges in `rows` met a disagreeing row.
pub open spec fn merged_conflicts(rows: Seq<StateView>) -> nat
    decreases rows.len(),
{
    if rows.len() == 0 {
        0
    } else {
        merged_conflicts(rows.drop_last()) + if step_conflict(
            merged_states(rows.drop_last()),
            rows.last(),
        ) {
            1nat
        } else {
            0nat
        }
    }
}

/// No two rows of `s` share a key.
pub open spec fn distinct_state_keys(s: Seq<StateView>) -> bool {
    forall|i: int, j: int|
        0 <= i < j < s.len() ==> !same_state_key(#[trigger] s[i], #[trigger] s[j])
}

/// Some row of `s` has the key of `c`.
pub open spec fn key_held(s: Seq<StateView>, c: StateView) -> bool {
    exists|i: int| 0 <= i < s.len() && same_state_key(#[trigger] s[i], c)
}

/// Last-write-wins never prefers a row to itself, and is transitive.
pub proof fn lemma_lww_order(a: StateView, b: StateView, c: StateView)
    ensures
        !lww_beats(a, a),
        lww_beats(a, b) ==> !lww_beats(b, a),
        lww_beats(a, b) && lww_beats(b, c) ==> lww_beats(a, c),
{
    lemma_text_lt_asymmetric(a.timestamp, a.timestamp);
    lemma_text_lt_asymmetric(a.source, a.source);
    lemma_text_lt_asymmetric(a.timestamp, b.timestamp);
    lemma_text_lt_asymmetric(a.source, b.source);
    if lww_beats(a, b) && lww_beats(b, c) && a.version == b.version && b.version == c.version {
        if text_lt(b.timestamp, a.timestamp) && text_lt(c.timestamp, b.timestamp) {
            lemma_text_lt_transitive(c.timestamp, b.timestamp, a.timestamp);
        }
        if b.timestamp == a.timestamp && c.timestamp == b.timestamp && text_lt(a.source, b.source)
            && text_lt(b.source, c.source) {
            lemma_text_lt_transitive(a.source, b.source, c.source);
        }
    }
}

/// Last-write-wins merging keeps one row per key; each kept row is one of the
/// candidates; every candidate's key is kept; and no candidate for a key
/// outranks the row kept for it.
#[verifier::spinoff_prover]
#[verifier::rlimit(40)]
pub proof fn lemma_merged_states(rows: Seq<StateView>)
    ensures
        distinct_state_keys(merged_states(rows)),
        forall|i: int|
            0 <= i < merged_states(rows).len() ==> rows.contains(
                #[trigger] merged_states(rows)[i],
            ),
        forall|j: int| 0 <= j < rows.len() ==> key_held(merged_states(rows), #[trigger] rows[j]),
        forall|i: int, j: int|
            0 <= i < merged_states(rows).len() && 0 <= j < rows.len() && same_state_key(
                #[trigger] rows[j],
                #[trigger] merged_states(rows)[i],
            ) ==> !lww_beats(rows[j], merged_states(rows)[i]),
    decreases rows.len(),
{
    if rows.len() > 0 {
        let d = rows.drop_last();
        let c = rows.last();
        let s = merged_states(d);
        let r = merged_states(rows);
        lemma_merged_states(d);
        let p = |x: StateView| same_state_key(x, c);
        lemma_first_index(s, p);
        let k = state_index(s, c);
        assert(r == merge_step(s, c));
        assert forall|i: int, j: int| 0 <= i < j < r.len() implies !same_state_key(
            #[trigger] r[i],
            #[trigger] r[j],
        ) by {
            if k < 0 && j == s.len() {
                assert(!p(s[i]));
            } else if k >= 0 && lww_beats(c, s[k]) && (i == k || j == k) {
                if i == k {
                    assert(!same_state_key(s[k], s[j]));
                } else {
                    assert(!same_state_key(s[i], s[k]));
                }
            }
        }
        assert forall|i: int| 0 <= i < r.len() implies rows.contains(#[trigger] r[i]) by {
            if (k < 0 && i == s.len()) || (k >= 0 && lww_beats(c, s[k]) && i == k) {
                assert(rows[rows.len() - 1] == r[i]);
            } else {
                assert(d.contains(s[i]));
                let j0 = choose|j: int| 0 <= j < d.len() && d[j] == s[i];
                assert(rows[j0] == d[j0]);
            }
        }
        assert forall|j: int| 0 <= j < rows.len() implies key_held(r, #[trigger] rows[j]) by {
            if j == rows.len() - 1 {
                if k < 0 {
                    assert(same_state_key(r[s.len() as int], rows[j]));
                } else {
                    assert(same_state_key(r[k], rows[j]));
                }
            } else {
                assert(rows[j] == d[j]);
                assert(key_held(s, d[j]));
                let i0 = choose|i: int| 0 <= i < s.len() && same_state_key(s[i], d[j]);
                if k >= 0 && lww_beats(c, s[k]) && i0 == k {
                    assert(same_state_key(r[k], rows[j]));
                } else {
                    assert(same_state_key(r[i0], rows[j]));
                }
            }
        }
        assert forall|i: int, j: int|
            0 <= i < r.len() && 0 <= j < rows.len() && same_state_key(
                #[trigger] rows[j],
                #[trigger] r[i],
            ) implies !lww_beats(rows[j], r[i]) by {
            lemma_lww_order(rows[j], r[i], r[i]);
            if j == rows.len() - 1 {
                if k >= 0 && !lww_beats(c, s[k]) {
                    assert(i == k) by {
                        if i != k {
                            assert(same_state_key(s[i], s[k]));
                        }
                    }
                }
            } else {
                assert(rows[j] == d[j]);
                if k < 0 && i == s.len() {
                    assert(key_held(s, d[j]));
                    let i0 = choose|i: int| 0 <= i < s.len() && same_state_key(s[i], d[j]);
                    assert(p(s[i0]));
                } else if k >= 0 && lww_beats(c, s[k]) && i == k {
                    lemma_lww_order(rows[j], c, s[k]);
                    assert(!lww_beats(d[j], s[k]));
                } else {
                    assert(r[i] == s[i]);
                    assert(!lww_beats(d[j], s[i]));
                }
            }
        }
    }
}

/// Merging a candidate into rows with distinct entity keys meets a conflict
/// exactly when a row for the candidate's entity key is held and differs from
/// it in version, payload or timestamp.
pub proof fn lemma_merge_state_conflict(s: Seq<StateView>, c: StateView)
    requires
        forall|i: int, j: int|
            0 <= i < j < s.len() ==> !(#[trigger] s[i].entity == #[trigger] s[j].entity && s[i].key
                == s[j].key),
    ensures
        step_conflict(s, c) == exists|i: int|
            0 <= i < s.len() && s[i].entity == c.entity && s[i].key == c.key && (#[trigger] s[i].version
                != c.version || s[i].payload != c.payload || s[i].timestamp != c.timestamp),
{
    let p = |x: StateView| same_state_key(x, c);
    lemma_first_index(s, p);
    let k = state_index(s, c);
    if step_conflict(s, c) {
        assert(p(s[k]));
        assert(s[k].entity == c.entity && s[k].key == c.key && (s[k].version != c.version
            || s[k].payload != c.payload || s[k].timestamp != c.timestamp));
    } else {
        assert forall|i: int|
            0 <= i < s.len() && s[i].entity == c.entity && s[i].key == c.key implies !(
            #[trigger] s[i].version != c.version || s[i].payload != c.payload || s[i].timestamp
                != c.timestamp) by {
            assert(same_state_key(s[i], c));
            assert(p(s[i]));
            assert(k >= 0);
            if k < i {
                assert(p(s[k]));
                assert(s[k].entity == s[i].entity && s[k].key == s[i].key);
            }
            assert(k == i);
        }
    }
}

/// Merging rows one after another counts a conflict for a row exactly when the
/// rows merged before it hold a row for its entity key that differs from it in
/// version, payload or timestamp.
pub proof fn lemma_merged_conflicts_step(rows: Seq<StateView>, c: StateView)
    ensures
        merged_conflicts(rows.push(c)) == merged_conflicts(rows) + if exists|i: int|
            0 <= i < merged_states(rows).len() && merged_states(rows)[i].entity == c.entity
                && merged_states(rows)[i].key == c.key && (#[trigger] merged_states(rows)[i].version
                != c.version || merged_states(rows)[i].payload != c.payload
                || merged_states(rows)[i].timestamp != c.timestamp) {
            1nat
        } else {
            0nat
        },
{
    let all = rows.push(c);
    assert(all.drop_last() =~= rows);
    assert(all.last() == c);
    let s = merged_states(rows);
    lemma_merged_states(rows);
    assert forall|i: int, j: int| 0 <= i < j < s.len() implies !(#[trigger] s[i].entity
        == #[trigger] s[j].entity && s[i].key == s[j].key) by {
        assert(!same_state_key(s[i], s[j]));
    }
    lemma_merge_state_conflict(s, c);
}

/// Two rows for the same entity key that differ in version, payload or
/// timestamp make one conflict when merged; rows that agree, or that are for
/// different keys, make none.
pub proof fn lemma_two_rows_conflict(a: StateView, b: StateView)
    ensures
        merged_conflicts(seq![a, b]) == if a.entity == b.entity && a.key == b.key && (a.version
            != b.version || a.payload != b.payload || a.timestamp != b.timestamp) {
            1nat
        } else {
            0nat
        },
{
    let one = seq![a];
    let none = Seq::<StateView>::empty();
    assert(one.drop_last() =~= none);
    assert(one.last() == a);
    assert(merged_states(none) == none);
    assert(merged_conflicts(none) == 0);
    assert(merged_states(one) == merge_step(merged_states(one.drop_last()), one.last()));
    assert(merged_states(one) == merge_step(none, a));
    lemma_first_index(Seq::<StateView>::empty(), |x: StateView| same_state_key(x, a));
    assert(merged_states(one) =~= one);
    assert(merged_conflicts(one) == 0);
    assert(seq![a, b] =~= one.push(b));
    lemma_merged_conflicts_step(one, b);
    assert(merged_states(one).len() == 1);
    assert(merged_states(one)[0] == a);
    assert(merged_states(one)[0].version == a.version);
    assert(merged_conflicts(seq![a, b]) == merged_conflicts(one.push(b)));
}

impl StateRow {
    /// A copy of the row.
    pub fn duplicate(&self) -> (r: StateRow)
        ensures
            r@ == self@,
    {
        StateRow {
            entity: self.entity.clone(),
            key: self.key.clone(),
            version: self.version,
            timestamp: self.timestamp.clone(),
            source: self.source.clone(),
            payload: match &self.payload {
                Some(p) => Some(p.clone()),
                None => None,
            },
            event_id: match &self.event_id {
                Some(e) => Some(e.clone()),
                None => None,
            },
        }
    }
}

/// Whether two byte strings are equal.
pub fn bytes_eq(a: &[u8], b: &[u8]) -> (r: bool)
    ensures
        r == (a@ == b@),
{
    if a.len() != b.len() {
        return false;
    }
    let mut i: usize = 0;
    while i < a.len()
        invariant
            a@.len() == b@.len(),
            i <= a@.len(),
            forall|j: int| 0 <= j < i ==> a@[j] == b@[j],
        decreases a@.len() - i,
    {
        if a[i] != b[i] {
            return false;
        }
        i = i + 1;
    }
    assert(a@ =~= b@);
    true
}

fn opt_bytes_eq(a: &Option<Vec<u8>>, b: &Option<Vec<u8>>) -> (r: bool)
    ensures
        r == (bytes_view(*a) == bytes_view(*b)),
{
    match (a, b) {
        (Some(x), Some(y)) => bytes_eq(x.as_slice(), y.as_slice()),
        (None, None) => true,
        _ => false,
    }
}

/// Orders two rows under last-write-wins: `Greater` when `a` wins over `b`.
pub fn compare_state(a: &StateRow, b: &StateRow) -> (r: Order)
    ensures
        (r == Order::Greater) == lww_beats(a@, b@),
        (r == Order::Less) == lww_beats(b@, a@),
{
    proof {
        lemma_lww_order(a@, b@, b@);
        lemma_lww_order(b@, a@, a@);
    }
    if a.version > b.version {
        return Order::Greater;
    }
    if a.version < b.version {
        return Order::Less;
    }
    match compare_text(a.timestamp.as_str(), b.timestamp.as_str()) {
        Order::Greater => Order::Greater,
        Order::Less => Order::Less,
        Order::Equal => match compare_text(b.source.as_str(), a.source.as_str()) {
            Order::Greater => Order::Greater,
            Order::Less => Order::Less,
            Order::Equal => Order::Equal,
        },
    }
}

fn find_state(states: &Vec<StateRow>, candidate: &StateRow) -> (r: Option<usize>)
    ensures
        match r {
            Some(i) => i < states@.len() && i as int == state_index(state_views(states@), candidate@),
            None => state_index(state_views(states@), candidate@) < 0,
        },
{
    let ghost s = state_views(states@);
    let ghost p = |x: StateView| same_state_key(x, candidate@);
    let mut i: usize = 0;
    while i < states.len()
        invariant
            s == state_views(states@),
            p == (|x: StateView| same_state_key(x, candidate@)),
            i <= states@.len(),
            forall|j: int| 0 <= j < i ==> !p(#[trigger] s[j]),
        decreases states@.len() - i,
    {
        if str_eq(states[i].entity.as_str(), candidate.entity.as_str()) && str_eq(
            states[i].key.as_str(),
            candidate.key.as_str(),
        ) {
            proof {
                lemma_first_index_unique(s, p, i as int);
            }
            return Some(i);
        }
        i = i + 1;
    }
    proof {
        lemma_first_index_unique(s, p, i as int);
    }
    None
}

/// Merges one candidate into `states`; returns whether it disagreed with the
/// row already held for its key.
pub fn merge_state(states: &mut Vec<StateRow>, candidate: StateRow) -> (conflict: bool)
    ensures
        state_views(final(states)@) == merge_step(state_views(old(states)@), candidate@),
        conflict == step_conflict(state_views(old(states)@), candidate@),
{
    let ghost s = state_views(states@);
    match find_state(states, &candidate) {
        None => {
            states.push(candidate);
            assert(state_views(states@) =~= s.push(candidate@));
            false
        },
        Some(i) => {
            let conflict = states[i].version != candidate.version || !opt_bytes_eq(
                &states[i].payload,
                &candidate.payload,
            ) || !str_eq(states[i].timestamp.as_str(), candidate.timestamp.as_str());
            if compare_state(&candidate, &states[i]) == Order::Greater {
                let ghost cv = candidate@;
                states.set(i, candidate);
                assert(state_views(states@) =~= s.update(i as int, cv));
            }
            conflict
        },
    }
}

/// Merges candidate rows in the order read; returns the rows kept, one per key,
/// and how many merges met a disagreeing row.
pub fn merge_states(rows: &Vec<StateRow>) -> (r: (Vec<StateRow>, usize))
    ensures
        state_views(r.0@) == merged_states(state_views(rows@)),
        r.1 == merged_conflicts(state_views(rows@)),
{
    let ghost all = state_views(rows@);
    let mut states: Vec<StateRow> = Vec::new();
    let mut conflicts: usize = 0;
    let mut i: usize = 0;
    while i < rows.len()
        invariant
            all == state_views(rows@),
            i <= rows@.len(),
            state_views(states@) == merged_states(all.take(i as int)),
            conflicts == merged_conflicts(all.take(i as int)),
            conflicts <= i,
        decreases rows@.len() - i,
    {
        assert(all.take(i + 1).drop_last() =~= all.take(i as int));
        let c = merge_state(&mut states, rows[i].duplicate());
        if c {
            conflicts = conflicts + 1;
        }
        i = i + 1;
    }
    assert(all.take(rows@.len() as int) =~= all);
    (states, conflicts)
}

/// An applied command, recorded under its idempotency key.
#[derive(Debug)]
pub struct IdempotencyRow {
    pub idempotency_key: String,
    pub entity: String,
    pub key: String,
    pub version: u64,
    pub operation: Option<String>,
    pub digest: Option<String>,
    pub applied_at: String,
    pub source: String,
}

/// An idempotency row as values.
pub struct IdempotencyView {
    pub idempotency_key: Seq<char>,
    pub entity: Seq<char>,
    pub key: Seq<char>,
    pub version: u64,
    pub operation: Option<Seq<char>>,
    pub digest: Option<Seq<char>>,
    pub applied_at: Seq<char>,
    pub source: Seq<char>,
}

impl View for IdempotencyRow {
    type V = IdempotencyView;

    open spec fn view(&self) -> IdempotencyView {
        IdempotencyView {
            idempotency_key: self.idempotency_key@,
            entity: self.entity@,
            key: self.key@,
            version: self.version,
            operation: text_view(self.operation),
            digest: text_view(self.digest),
            applied_at: self.applied_at@,
            source: self.source@,
        }
    }
}

pub open spec fn idempotency_views(s: Seq<IdempotencyRow>) -> Seq<IdempotencyView> {
    s.map_values(|r: IdempotencyRow| r@)
}

/// Two records of one idempotency key describe the same command.
pub open spec fn same_idempotency(a: IdempotencyView, b: IdempotencyView) -> bool {
    a.entity == b.entity && a.key == b.key && a.version == b.version && a.operation == b.operation
        && a.digest == b.digest
}

/// Where the idempotency key of `c` is held in `s`, or -1.
pub open spec fn idempotency_index(s: Seq<IdempotencyView>, c: IdempotencyView) -> int {
    first_index(s, |x: IdempotencyView| x.idempotency_key == c.idempotency_key)
}

pub open spec fn msg_idempotency_divergence(existing: IdempotencyView, row: IdempotencyView) -> Seq<
    char,
> {
    "idempotency_key "@ + row.idempotency_key + " diverge entre "@ + existing.source + " y "@
        + row.source
}

/// Merging `rows` in order: the first record of each key is kept, later
/// records that agree with it are counted as deduplicated, and the first that
/// disagrees stops the merge with its message.
pub open spec fn merged_idempotency(rows: Seq<IdempotencyView>) -> Result<
    (Seq<IdempotencyView>, nat),
    Seq<char>,
>
    decreases rows.len(),
{
    if rows.len() == 0 {
        Ok((Seq::empty(), 0nat))
    } else {
        match merged_idempotency(rows.drop_last()) {
            Err(m) => Err(m),
            Ok((s, d)) => {
                let c = rows.last();
                let i = idempotency_index(s, c);
                if i < 0 {
                    Ok((s.push(c), d))
                } else if same_idempotency(s[i], c) {
                    Ok((s, d + 1))
                } else {
                    Err(msg_idempotency_divergence(s[i], c))
                }
            },
        }
    }
}

/// Every two records that share an idempotency key describe the same command.
pub open spec fn idempotency_consistent(rows: Seq<IdempotencyView>) -> bool {
    forall|i: int, j: int|
        0 <= i < rows.len() && 0 <= j < rows.len() && (#[trigger] rows[i]).idempotency_key == (
        #[trigger] rows[j]).idempotency_key ==> same_idempotency(rows[i], rows[j])
}

/// The merge succeeds exactly when the records are consistent; then it keeps
/// one record per key, the first one read, every record agrees with the one
/// kept for its key, and kept plus deduplicated records account for all of them.
pub proof fn lemma_merged_idempotency(rows: Seq<IdempotencyView>)
    ensures
        (merged_idempotency(rows) is Ok) == idempotency_consistent(rows),
        merged_idempotency(rows) matches Ok((s, d)) ==> {
            &&& s.len() + d == rows.len()
            &&& forall|i: int, j: int|
                0 <= i < j < s.len() ==> (#[trigger] s[i]).idempotency_key != (
                #[trigger] s[j]).idempotency_key
            &&& forall|i: int| 0 <= i < s.len() ==> rows.contains(#[trigger] s[i])
            &&& forall|j: int|
                0 <= j < rows.len() ==> 0 <= idempotency_index(s, #[trigger] rows[j]) && same_idempotency(
                    s[idempotency_index(s, rows[j])],
                    rows[j],
                )
        },
    decreases rows.len(),
{
    if rows.len() > 0 {
        let d = rows.drop_last();
        let c = rows.last();
        lemma_merged_idempotency(d);
        assert forall|j: int| 0 <= j < d.len() implies d[j] == rows[j] by {}
        if merged_idempotency(d) is Err {
            assert(!idempotency_consistent(d));
            let (i0, j0) = choose|i: int, j: int|
                0 <= i < d.len() && 0 <= j < d.len() && (#[trigger] d[i]).idempotency_key == (
                #[trigger] d[j]).idempotency_key && !same_idempotency(d[i], d[j]);
            assert(rows[i0] == d[i0] && rows[j0] == d[j0]);
        } else {
            let (s, dd) = merged_idempotency(d)->Ok_0;
            let p = |x: IdempotencyView| x.idempotency_key == c.idempotency_key;
            lemma_first_index(s, p);
            let k = idempotency_index(s, c);
            if k < 0 {
                let s2 = s.push(c);
                assert forall|j: int| 0 <= j < rows.len() implies 0 <= idempotency_index(
                    s2,
                    #[trigger] rows[j],
                ) && same_idempotency(s2[idempotency_index(s2, rows[j])], rows[j]) by {
                    let q = |x: IdempotencyView| x.idempotency_key == rows[j].idempotency_key;
                    if j == rows.len() - 1 {
                        lemma_first_index_unique(s2, q, s.len() as int);
                    } else {
                        let t = idempotency_index(s, d[j]);
                        lemma_first_index(s, q);
                        lemma_first_index_unique(s2, q, t);
                    }
                }
                assert forall|i: int| 0 <= i < s2.len() implies rows.contains(#[trigger] s2[i]) by {
                    if i == s.len() {
                        assert(rows[rows.len() - 1] == s2[i]);
                    } else {
                        assert(d.contains(s[i]));
                        let j0 = choose|j: int| 0 <= j < d.len() && d[j] == s[i];
                        assert(rows[j0] == s2[i]);
                    }
                }
                assert forall|i: int, j: int|
                    0 <= i < rows.len() && 0 <= j < rows.len() && (#[trigger] rows[i]).idempotency_key
                        == (#[trigger] rows[j]).idempotency_key implies same_idempotency(
                    rows[i],
                    rows[j],
                ) by {
                    if i == rows.len() - 1 || j == rows.len() - 1 {
                        let o = if i == rows.len() - 1 { j } else { i };
                        if o != rows.len() - 1 {
                            let t = idempotency_index(s, d[o]);
                            assert(p(s[t]));
                        }
                    }
                }
            } else if same_idempotency(s[k], c) {
                assert forall|j: int| 0 <= j < rows.len() implies 0 <= idempotency_index(
                    s,
                    #[trigger] rows[j],
                ) && same_idempotency(s[idempotency_index(s, rows[j])], rows[j]) by {
                    if j == rows.len() - 1 {
                        lemma_first_index_unique(s, p, k);
                    }
                }
                assert forall|i: int| 0 <= i < s.len() implies rows.contains(#[trigger] s[i]) by {
                    assert(d.contains(s[i]));
                    let j0 = choose|j: int| 0 <= j < d.len() && d[j] == s[i];
                    assert(rows[j0] == s[i]);
                }
                assert forall|i: int, j: int|
                    0 <= i < rows.len() && 0 <= j < rows.len() && (#[trigger] rows[i]).idempotency_key
                        == (#[trigger] rows[j]).idempotency_key implies same_idempotency(
                    rows[i],
                    rows[j],
                ) by {
                    if i == rows.len() - 1 || j == rows.len() - 1 {
                        let o = if i == rows.len() - 1 { j } else { i };
                        if o != rows.len() - 1 {
                            let q = |x: IdempotencyView| x.idempotency_key == d[o].idempotency_key;
                            lemma_first_index(s, q);
                            assert(q(s[k]));
                            lemma_first_index_unique(s, q, k);
                        }
                    }
                }
            } else {
                let e = s[k];
                assert(s.contains(e));
                let j0 = choose|j: int| 0 <= j < d.len() && d[j] == e;
                assert(rows[j0] == e);
                assert(rows[rows.len() - 1] == c);
                assert(!same_idempotency(rows[j0], rows[rows.len() - 1]));
            }
        }
    }
}

/// Once merging a prefix has failed, merging more rows fails the same way.
proof fn lemma_idempotency_err_stays(rows: Seq<IdempotencyView>, i: int)
    requires
        0 <= i <= rows.len(),
        merged_idempotency(rows.take(i)) is Err,
    ensures
        merged_idempotency(rows) == merged_idempotency(rows.take(i)),
    decreases rows.len() - i,
{
    if i < rows.len() {
        assert(rows.take(i + 1).drop_last() =~= rows.take(i));
        lemma_idempotency_err_stays(rows, i + 1);
    } else {
        assert(rows.take(i) =~= rows);
    }
}

impl IdempotencyRow {
    /// A copy of the row.
    pub fn duplicate(&self) -> (r: IdempotencyRow)
        ensures
            r@ == self@,
    {
        IdempotencyRow {
            idempotency_key: self.idempotency_key.clone(),
            entity: self.entity.clone(),
            key: self.key.clone(),
            version: self.version,
            operation: match &self.operation {
                Some(o) => Some(o.clone()),
                None => None,
            },
            digest: match &self.digest {
                Some(g) => Some(g.clone()),
                None => None,
            },
            applied_at: self.applied_at.clone(),
            source: self.source.clone(),
        }
    }
}

fn opt_text_eq(a: &Option<String>, b: &Option<String>) -> (r: bool)
    ensures
        r == (text_view(*a) == text_view(*b)),
{
    match (a, b) {
        (Some(x), Some(y)) => str_eq(x.as_str(), y.as_str()),
        (None, None) => true,
        _ => false,
    }
}

/// Whether two records of one key describe the same command.
pub fn same_idempotency_rows(a: &IdempotencyRow, b: &IdempotencyRow) -> (r: bool)
    ensures
        r == same_idempotency(a@, b@),
{
    str_eq(a.entity.as_str(), b.entity.as_str()) && str_eq(a.key.as_str(), b.key.as_str())
        && a.version == b.version && opt_text_eq(&a.operation, &b.operation) && opt_text_eq(
        &a.digest,
        &b.digest,
    )
}

fn find_idempotency(kept: &Vec<IdempotencyRow>, row: &IdempotencyRow) -> (r: Option<usize>)
    ensures
        match r {
            Some(i) => i < kept@.len() && i as int == idempotency_index(
                idempotency_views(kept@),
                row@,
            ),
            None => idempotency_index(idempotency_views(kept@), row@) < 0,
        },
{
    let ghost s = idempotency_views(kept@);
    let ghost p = |x: IdempotencyView| x.idempotency_key == row@.idempotency_key;
    let mut i: usize = 0;
    while i < kept.len()
        invariant
            s == idempotency_views(kept@),
            p == (|x: IdempotencyView| x.idempotency_key == row@.idempotency_key),
            i <= kept@.len(),
            forall|j: int| 0 <= j < i ==> !p(#[trigger] s[j]),
        decreases kept@.len() - i,
    {
        if str_eq(kept[i].idempotency_key.as_str(), row.idempotency_key.as_str()) {
            proof {
                lemma_first_index_unique(s, p, i as int);
            }
            return Some(i);
        }
        i = i + 1;
    }
    proof {
        lemma_first_index_unique(s, p, i as int);
    }
    None
}

/// Merges idempotency records in the order read: returns the records kept and
/// how many duplicates were dropped, or the conflict of the first record that
/// disagrees with the one kept for its key.
pub fn merge_idempotency(rows: &Vec<IdempotencyRow>) -> (r: Result<
    (Vec<IdempotencyRow>, usize),
    MigrationError,
>)
    ensures
        match r {
            Ok((kept, d)) => merged_idempotency(idempotency_views(rows@)) == Ok::<
                (Seq<IdempotencyView>, nat),
                Seq<char>,
            >((idempotency_views(kept@), d as nat)),
            Err(e) => e matches MigrationError::Conflict(m) && merged_idempotency(
                idempotency_views(rows@),
            ) == Err::<(Seq<IdempotencyView>, nat), Seq<char>>(m@),
        },
{
    let ghost all = idempotency_views(rows@);
    let mut kept: Vec<IdempotencyRow> = Vec::new();
    let mut deduplicated: usize = 0;
    assert(all.take(0) =~= Seq::<IdempotencyView>::empty());
    assert(idempotency_views(kept@) =~= Seq::<IdempotencyView>::empty());
    let mut i: usize = 0;
    while i < rows.len()
        invariant
            all == idempotency_views(rows@),
            i <= rows@.len(),
            deduplicated <= i,
            merged_idempotency(all.take(i as int)) == Ok::<
                (Seq<IdempotencyView>, nat),
                Seq<char>,
            >((idempotency_views(kept@), deduplicated as nat)),
        decreases rows@.len() - i,
    {
        assert(all.take(i + 1).drop_last() =~= all.take(i as int));
        let row = &rows[i];
        match find_idempotency(&kept, row) {
            Some(k) => {
                if !same_idempotency_rows(&kept[k], row) {
                    let m = concat(
                        concat(
                            concat(
                                concat(
                                    concat("idempotency_key ", row.idempotency_key.as_str()).as_str(),
                                    " diverge entre ",
                                ).as_str(),
                                kept[k].source.as_str(),
                            ).as_str(),
                            " y ",
                        ).as_str(),
                        row.source.as_str(),
                    );
                    proof {
                        let rest = all.take(i + 1);
                        assert(rest.last() == row@);
                        assert(m@ == msg_idempotency_divergence(kept@[k as int]@, row@));
                        lemma_idempotency_err_stays(all, i + 1);
                    }
                    return Err(MigrationError::Conflict(m));
                }
                deduplicated = deduplicated + 1;
            },
            None => {
                let ghost before = idempotency_views(kept@);
                kept.push(row.duplicate());
                assert(idempotency_views(kept@) =~= before.push(row@));
            },
        }
        i = i + 1;
    }
    assert(all.take(rows@.len() as int) =~= all);
    Ok((kept, deduplicated))
}

/// An event of a store's outbox.
#[derive(Debug)]
pub struct OutboxRow {
    pub event_id: String,
    pub event_type: String,
    pub entity: String,
    pub key: String,
    pub version: u64,
    pub occurred_at: String,
    pub payload: Vec<u8>,
    pub published_at: Option<String>,
}

/// An outbox row as values.
pub struct OutboxView {
    pub event_id: Seq<char>,
    pub event_type: Seq<char>,
    pub entity: Seq<char>,
    pub key: Seq<char>,
    pub version: u64,
    pub occurred_at: Seq<char>,
    pub payload: Seq<u8>,
    pub published_at: Option<Seq<char>>,
}

impl View for OutboxRow {
    type V = OutboxView;

    open spec fn view(&self) -> OutboxView {
        OutboxView {
            event_id: self.event_id@,
            event_type: self.event_type@,
            entity: self.entity@,
            key: self.key@,
            version: self.version,
            occurred_at: self.occurred_at@,
            payload: self.payload@,
            published_at: text_view(self.published_at),
        }
    }
}

pub open spec fn outbox_views(s: Seq<OutboxRow>) -> Seq<OutboxView> {
    s.map_values(|r: OutboxRow| r@)
}

/// Two copies of one event agree on its type and payload.
pub open spec fn same_event(a: OutboxView, b: OutboxView) -> bool {
    a.event_type == b.event_type && a.payload == b.payload
}

/// Where the event of `c` is held in `s`, or -1.
pub open spec fn event_index(s: Seq<OutboxView>, c: OutboxView) -> int {
    first_index(s, |x: OutboxView| x.event_id == c.event_id)
}

pub open spec fn msg_event_divergence(row: OutboxView) -> Seq<char> {
    "event_id "@ + row.event_id + " tiene payload divergente"@
}

/// Merging outbox rows in order: the first copy of each event is kept, and the
/// first later copy that disagrees with it stops the merge.
pub open spec fn merged_outbox(rows: Seq<OutboxView>) -> Result<Seq<OutboxView>, Seq<char>>
    decreases rows.len(),
{
    if rows.len() == 0 {
        Ok(Seq::empty())
    } else {
        match merged_outbox(rows.drop_last()) {
            Err(m) => Err(m),
            Ok(s) => {
                let c = rows.last();
                let i = event_index(s, c);
                if i < 0 {
                    Ok(s.push(c))
                } else if same_event(s[i], c) {
                    Ok(s)
                } else {
                    Err(msg_event_divergence(c))
                }
            },
        }
    }
}

/// Every two copies of one event agree.
pub open spec fn outbox_consistent(rows: Seq<OutboxView>) -> bool {
    forall|i: int, j: int|
        0 <= i < rows.len() && 0 <= j < rows.len() && (#[trigger] rows[i]).event_id == (
        #[trigger] rows[j]).event_id ==> same_event(rows[i], rows[j])
}

/// The merge succeeds exactly when the copies of each event agree; then it
/// keeps one row per event, each one of the rows read, and every row's event
/// is kept with the same type and payload.
pub proof fn lemma_merged_outbox(rows: Seq<OutboxView>)
    ensures
        (merged_outbox(rows) is Ok) == outbox_consistent(rows),
        merged_outbox(rows) matches Ok(s) ==> {
            &&& forall|i: int, j: int|
                0 <= i < j < s.len() ==> (#[trigger] s[i]).event_id != (#[trigger] s[j]).event_id
            &&& forall|i: int| 0 <= i < s.len() ==> rows.contains(#[trigger] s[i])
            &&& forall|j: int|
                0 <= j < rows.len() ==> 0 <= event_index(s, #[trigger] rows[j]) && same_event(
                    s[event_index(s, rows[j])],
                    rows[j],
                )
        },
    decreases rows.len(),
{
    if rows.len() > 0 {
        let d = rows.drop_last();
        let c = rows.last();
        lemma_merged_outbox(d);
        assert forall|j: int| 0 <= j < d.len() implies d[j] == rows[j] by {}
        if merged_outbox(d) is Err {
            let (i0, j0) = choose|i: int, j: int|
                0 <= i < d.len() && 0 <= j < d.len() && (#[trigger] d[i]).event_id == (
                #[trigger] d[j]).event_id && !same_event(d[i], d[j]);
            assert(rows[i0] == d[i0] && rows[j0] == d[j0]);
        } else {
            let s = merged_outbox(d)->Ok_0;
            let p = |x: OutboxView| x.event_id == c.event_id;
            lemma_first_index(s, p);
            let k = event_index(s, c);
            if k < 0 {
                let s2 = s.push(c);
                assert forall|j: int| 0 <= j < rows.len() implies 0 <= event_index(
                    s2,
                    #[trigger] rows[j],
                ) && same_event(s2[event_index(s2, rows[j])], rows[j]) by {
                    let q = |x: OutboxView| x.event_id == rows[j].event_id;
                    if j == rows.len() - 1 {
                        lemma_first_index_unique(s2, q, s.len() as int);
                    } else {
                        let t = event_index(s, d[j]);
                        lemma_first_index(s, q);
                        lemma_first_index_unique(s2, q, t);
                    }
                }
                assert forall|i: int| 0 <= i < s2.len() implies rows.contains(#[trigger] s2[i]) by {
                    if i == s.len() {
                        assert(rows[rows.len() - 1] == s2[i]);
                    } else {
                        assert(d.contains(s[i]));
                        let j0 = choose|j: int| 0 <= j < d.len() && d[j] == s[i];
                        assert(rows[j0] == s2[i]);
                    }
                }
                assert forall|i: int, j: int|
                    0 <= i < rows.len() && 0 <= j < rows.len() && (#[trigger] rows[i]).event_id == (
                    #[trigger] rows[j]).event_id implies same_event(rows[i], rows[j]) by {
                    if i == rows.len() - 1 || j == rows.len() - 1 {
                        let o = if i == rows.len() - 1 { j } else { i };
                        if o != rows.len() - 1 {
                            let t = event_index(s, d[o]);
                            assert(p(s[t]));
                        }
                    }
                }
            } else if same_event(s[k], c) {
                assert forall|j: int| 0 <= j < rows.len() implies 0 <= event_index(
                    s,
                    #[trigger] rows[j],
                ) && same_event(s[event_index(s, rows[j])], rows[j]) by {
                    if j == rows.len() - 1 {
                        lemma_first_index_unique(s, p, k);
                    }
                }
                assert forall|i: int| 0 <= i < s.len() implies rows.contains(#[trigger] s[i]) by {
                    assert(d.contains(s[i]));
                    let j0 = choose|j: int| 0 <= j < d.len() && d[j] == s[i];
                    assert(rows[j0] == s[i]);
                }
                assert forall|i: int, j: int|
                    0 <= i < rows.len() && 0 <= j < rows.len() && (#[trigger] rows[i]).event_id == (
                    #[trigger] rows[j]).event_id implies same_event(rows[i], rows[j]) by {
                    if i == rows.len() - 1 || j == rows.len() - 1 {
                        let o = if i == rows.len() - 1 { j } else { i };
                        if o != rows.len() - 1 {
                            let q = |x: OutboxView| x.event_id == d[o].event_id;
                            lemma_first_index(s, q);
                            assert(q(s[k]));
                            lemma_first_index_unique(s, q, k);
                        }
                    }
                }
            } else {
                let e = s[k];
                assert(s.contains(e));
                let j0 = choose|j: int| 0 <= j < d.len() && d[j] == e;
                assert(rows[j0] == e);
                assert(rows[rows.len() - 1] == c);
                assert(!same_event(rows[j0], rows[rows.len() - 1]));
            }
        }
    }
}

proof fn lemma_outbox_err_stays(rows: Seq<OutboxView>, i: int)
    requires
        0 <= i <= rows.len(),
        merged_outbox(rows.take(i)) is Err,
    ensures
        merged_outbox(rows) == merged_outbox(rows.take(i)),
    decreases rows.len() - i,
{
    if i < rows.len() {
        assert(rows.take(i + 1).drop_last() =~= rows.take(i));
        lemma_outbox_err_stays(rows, i + 1);
    } else {
        assert(rows.take(i) =~= rows);
    }
}

impl OutboxRow {
    /// A copy of the row.
    pub fn duplicate(&self) -> (r: OutboxRow)
        ensures
            r@ == self@,
    {
        OutboxRow {
            event_id: self.event_id.clone(),
            event_type: self.event_type.clone(),
            entity: self.entity.clone(),
            key: self.key.clone(),
            version: self.version,
            occurred_at: self.occurred_at.clone(),
            payload: self.payload.clone(),
            published_at: match &self.published_at {
                Some(t) => Some(t.clone()),
                None => None,
            },
        }
    }
}

fn find_event(kept: &Vec<OutboxRow>, row: &OutboxRow) -> (r: Option<usize>)
    ensures
        match r {
            Some(i) => i < kept@.len() && i as int == event_index(outbox_views(kept@), row@),
            None => event_index(outbox_views(kept@), row@) < 0,
        },
{
    let ghost s = outbox_views(kept@);
    let ghost p = |x: OutboxView| x.event_id == row@.event_id;
    let mut i: usize = 0;
    while i < kept.len()
        invariant
            s == outbox_views(kept@),
            p == (|x: OutboxView| x.event_id == row@.event_id),
            i <= kept@.len(),
            forall|j: int| 0 <= j < i ==> !p(#[trigger] s[j]),
        decreases kept@.len() - i,
    {
        if str_eq(kept[i].event_id.as_str(), row.event_id.as_str()) {
            proof {
                lemma_first_index_unique(s, p, i as int);
            }
            return Some(i);
        }
        i = i + 1;
    }
    proof {
        lemma_first_index_unique(s, p, i as int);
    }
    None
}

/// Merges outbox rows in the order read: returns one row per event, or the
/// conflict of the first copy whose type or payload differs from the kept one.
pub fn merge_outbox(rows: &Vec<OutboxRow>) -> (r: Result<Vec<OutboxRow>, MigrationError>)
    ensures
        match r {
            Ok(kept) => merged_outbox(outbox_views(rows@)) == Ok::<Seq<OutboxView>, Seq<char>>(
                outbox_views(kept@),
            ),
            Err(e) => e matches MigrationError::Conflict(m) && merged_outbox(outbox_views(rows@))
                == Err::<Seq<OutboxView>, Seq<char>>(m@),
        },
{
    let ghost all = outbox_views(rows@);
    let mut kept: Vec<OutboxRow> = Vec::new();
    assert(all.take(0) =~= Seq::<OutboxView>::empty());
    assert(outbox_views(kept@) =~= Seq::<OutboxView>::empty());
    let mut i: usize = 0;
    while i < rows.len()
        invariant
            all == outbox_views(rows@),
            i <= rows@.len(),
            merged_outbox(all.take(i as int)) == Ok::<Seq<OutboxView>, Seq<char>>(
                outbox_views(kept@),
            ),
        decreases rows@.len() - i,
    {
        assert(all.take(i + 1).drop_last() =~= all.take(i as int));
        let row = &rows[i];
        match find_event(&kept, row) {
            Some(k) => {
                if !str_eq(kept[k].event_type.as_str(), row.event_type.as_str()) || !bytes_eq(
                    kept[k].payload.as_slice(),
                    row.payload.as_slice(),
                ) {
                    let m = concat(
                        concat("event_id ", row.event_id.as_str()).as_str(),
                        " tiene payload divergente",
                    );
                    proof {
                        assert(all.take(i + 1).last() == row@);
                        lemma_outbox_err_stays(all, i + 1);
                    }
                    return Err(MigrationError::Conflict(m));
                }
            },
            None => {
                let ghost before = outbox_views(kept@);
                kept.push(row.duplicate());
                assert(outbox_views(kept@) =~= before.push(row@));
            },
        }
        i = i + 1;
    }
    assert(all.take(rows@.len() as int) =~= all);
    Ok(kept)
}

} // verus!
