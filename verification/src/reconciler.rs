//! Rebuilding projections from the stores' tables, and the report of a run.
use vstd::prelude::*;
use crate::api::text_map;
use crate::keyed::{assoc_insert, assoc_map, distinct_keys};
use crate::projection::{ProjectionConfig, ProjectionRegistry};
use crate::projector::{
    MPlan, Payload, event_key_from_value, field_index, field_views, has_field, spec_key_from,
};
use crate::text::{
    concat, concat3, owned, spec_split, spec_split_once, spec_trim, split, split_once, str_eq, trim,
    views,
};

verus! {

/// What a reconciliation run did.
pub struct ReconcilerReport {
    pub total_projections: usize,
    pub reprojected: usize,
    pub entities_scanned: usize,
    pub dry_run_skipped: usize,
    pub errors: Vec<String>,
}

impl Default for ReconcilerReport {
    fn default() -> (r: Self)
        ensures
            r.total_projections == 0,
            r.reprojected == 0,
            r.entities_scanned == 0,
            r.dry_run_skipped == 0,
            r.errors@.len() == 0,
    {
        ReconcilerReport {
            total_projections: 0,
            reprojected: 0,
            entities_scanned: 0,
            dry_run_skipped: 0,
            errors: Vec::new(),
        }
    }
}

/// Which projections to rebuild, whether to only count them, and where each
/// store's database is (store name, path).
pub struct ReconcilerConfig {
    pub projection_filter: Option<String>,
    pub dry_run: bool,
    pub store_paths: Vec<(String, String)>,
}

/// Rebuilds projections from the stores' payload tables.
pub struct Reconciler {
    registry: ProjectionRegistry,
}

/// The projections a run covers: the one named by the filter, or all.
pub open spec fn selected(ps: Seq<ProjectionConfig>, filter: Option<String>) -> Seq<ProjectionConfig> {
    match filter {
        Some(name) => ps.filter(|p: ProjectionConfig| p.name@ == name@),
        None => ps,
    }
}

pub open spec fn count_ok(outcomes: Seq<Result<usize, String>>) -> nat
    decreases outcomes.len(),
{
    if outcomes.len() == 0 {
        0
    } else {
        count_ok(outcomes.drop_last()) + if outcomes.last() is Ok {
            1nat
        } else {
            0nat
        }
    }
}

pub open spec fn sum_ok(outcomes: Seq<Result<usize, String>>) -> nat
    decreases outcomes.len(),
{
    if outcomes.len() == 0 {
        0
    } else {
        sum_ok(outcomes.drop_last()) + match outcomes.last() {
            Ok(n) => n as nat,
            Err(_) => 0nat,
        }
    }
}

/// The error lines of a run: `{projection}: {error}` for each failed rebuild.
pub open spec fn error_lines(ps: Seq<ProjectionConfig>, outcomes: Seq<Result<usize, String>>) -> Seq<
    Seq<char>,
>
    decreases outcomes.len(),
{
    if outcomes.len() == 0 || ps.len() < outcomes.len() {
        Seq::empty()
    } else {
        error_lines(ps, outcomes.drop_last()) + match outcomes.last() {
            Ok(_) => Seq::empty(),
            Err(e) => seq![ps[outcomes.len() - 1].name@ + ": "@ + e@],
        }
    }
}

impl Reconciler {
    pub fn new(registry: ProjectionRegistry) -> (r: Self)
        ensures
            r.spec_registry() == registry,
    {
        Reconciler { registry }
    }

    pub closed spec fn spec_registry(&self) -> ProjectionRegistry {
        self.registry
    }

    /// The projections the reconciler knows.
    pub fn registry(&self) -> (r: &ProjectionRegistry)
        ensures
            *r == self.spec_registry(),
    {
        &self.registry
    }

    /// The projections that a run with `config` covers, in registry order.
    pub fn selected_projections(&self, config: &ReconcilerConfig) -> (r: Vec<&ProjectionConfig>)
        ensures
            r@.map_values(|p: &ProjectionConfig| *p) == selected(
                self.spec_registry().spec_projections(),
                config.projection_filter,
            ),
    {
        let all = self.registry.projections();
        let ghost ps = self.spec_registry().spec_projections();
        let mut out: Vec<&ProjectionConfig> = Vec::new();
        let mut i: usize = 0;
        while i < all.len()
            invariant
                all@ == ps,
                ps == self.spec_registry().spec_projections(),
                i <= ps.len(),
                out@.map_values(|p: &ProjectionConfig| *p) == selected(
                    ps.take(i as int),
                    config.projection_filter,
                ),
            decreases ps.len() - i,
        {
            let p = &all[i];
            let ghost before = out@;
            assert(ps.take(i + 1) =~= ps.take(i as int).push(ps[i as int]));
            reveal(Seq::filter);
            let keep = match &config.projection_filter {
                Some(name) => str_eq(p.name.as_str(), name.as_str()),
                None => true,
            };
            if keep {
                out.push(p);
                assert(out@.map_values(|p: &ProjectionConfig| *p) =~= before.map_values(
                    |p: &ProjectionConfig| *p,
                ).push(*p));
            }
            match &config.projection_filter {
                Some(name) => {
                    assert(ps.take(i + 1).drop_last() =~= ps.take(i as int));
                },
                None => {},
            }
            i = i + 1;
        }
        assert(ps.take(ps.len() as int) =~= ps);
        out
    }

    /// The report of a run, given the outcome of rebuilding each selected
    /// projection in order (the number of rows written, or why it failed). A
    /// dry run rebuilds nothing and counts every selected projection as skipped.
    pub fn report(&self, config: &ReconcilerConfig, outcomes: &Vec<Result<usize, String>>) -> (r:
        ReconcilerReport)
        requires
            config.dry_run || outcomes@.len() == selected(
                self.spec_registry().spec_projections(),
                config.projection_filter,
            ).len(),
            sum_ok(outcomes@) <= usize::MAX,
        ensures
            r.total_projections == selected(
                self.spec_registry().spec_projections(),
                config.projection_filter,
            ).len(),
            config.dry_run ==> r.dry_run_skipped == r.total_projections && r.reprojected == 0
                && r.entities_scanned == 0 && r.errors@.len() == 0,
            !config.dry_run ==> r.dry_run_skipped == 0 && r.reprojected == count_ok(outcomes@)
                && r.entities_scanned == sum_ok(outcomes@) && views(r.errors@) == error_lines(
                selected(self.spec_registry().spec_projections(), config.projection_filter),
                outcomes@,
            ),
    {
        let projections = self.selected_projections(config);
        let ghost ps = projections@.map_values(|p: &ProjectionConfig| *p);
        let mut report = ReconcilerReport::default();
        report.total_projections = projections.len();
        if config.dry_run {
            report.dry_run_skipped = projections.len();
            return report;
        }
        let mut i: usize = 0;
        while i < outcomes.len()
            invariant
                ps == projections@.map_values(|p: &ProjectionConfig| *p),
                outcomes@.len() == ps.len(),
                sum_ok(outcomes@) <= usize::MAX,
                i <= outcomes@.len(),
                report.total_projections == ps.len(),
                report.dry_run_skipped == 0,
                report.reprojected == count_ok(outcomes@.take(i as int)),
                report.entities_scanned == sum_ok(outcomes@.take(i as int)),
                views(report.errors@) == error_lines(ps, outcomes@.take(i as int)),
            decreases outcomes@.len() - i,
        {
            assert(outcomes@.take(i + 1).drop_last() =~= outcomes@.take(i as int));
            proof {
                lemma_count_ok_bound(outcomes@.take(i as int));
                lemma_sum_ok_prefix(outcomes@, i + 1);
            }
            match &outcomes[i] {
                Ok(n) => {
                    report.reprojected = report.reprojected + 1;
                    report.entities_scanned = report.entities_scanned + *n;
                },
                Err(e) => {
                    let ghost before = report.errors@;
                    let line = concat3(projections[i].name.as_str(), ": ", e.as_str());
                    report.errors.push(line);
                    assert(views(report.errors@) =~= views(before).push(line@));
                },
            }
            i = i + 1;
        }
        assert(outcomes@.take(outcomes@.len() as int) =~= outcomes@);
        report
    }
}

proof fn lemma_count_ok_bound(o: Seq<Result<usize, String>>)
    ensures
        count_ok(o) <= o.len(),
    decreases o.len(),
{
    if o.len() > 0 {
        lemma_count_ok_bound(o.drop_last());
    }
}

proof fn lemma_sum_ok_prefix(o: Seq<Result<usize, String>>, k: int)
    requires
        0 <= k <= o.len(),
    ensures
        sum_ok(o.take(k)) <= sum_ok(o),
    decreases o.len() - k,
{
    if k < o.len() {
        assert(o.drop_last().take(k) =~= o.take(k));
        lemma_sum_ok_prefix(o.drop_last(), k);
    } else {
        assert(o.take(k) =~= o);
    }
}

/// The database of `store` in the run's configuration.
pub fn store_path(config: &ReconcilerConfig, store: &str) -> (r: Result<String, String>)
    ensures
        match r {
            Ok(p) => assoc_map(config.store_paths@).contains_key(store@) && assoc_map(
                config.store_paths@,
            )[store@] == p,
            Err(m) => !assoc_map(config.store_paths@).contains_key(store@) && m@
                == "no db_path for store '"@ + store@ + "'"@,
        },
{
    match crate::keyed::last_key(&config.store_paths, store) {
        Some(i) => Ok(config.store_paths[i].1.clone()),
        None => Err(concat3("no db_path for store '", store, "'")),
    }
}

/// A row of a store's payload table: its key and its payload's fields.
pub struct TableRow {
    pub key: String,
    pub payload: Payload,
}

/// The row that a key-indexed view of `rows` keeps for `key`: the last one.
pub open spec fn last_row(rows: Seq<TableRow>, key: Seq<char>) -> int
    decreases rows.len(),
{
    if rows.len() == 0 {
        -1
    } else if rows.last().key@ == key {
        rows.len() - 1
    } else {
        last_row(rows.drop_last(), key)
    }
}

proof fn lemma_last_row(rows: Seq<TableRow>, key: Seq<char>)
    ensures
        -1 <= last_row(rows, key) < rows.len(),
        last_row(rows, key) >= 0 ==> rows[last_row(rows, key)].key@ == key,
        forall|j: int| last_row(rows, key) < j < rows.len() ==> rows[j].key@ != key,
    decreases rows.len(),
{
    if rows.len() > 0 && rows.last().key@ != key {
        let d = rows.drop_last();
        lemma_last_row(d, key);
        assert forall|j: int| last_row(rows, key) < j < rows.len() implies rows[j].key@ != key by {
            if j < d.len() {
                assert(rows[j] == d[j]);
            }
        }
    }
}

/// Where `key` is kept among `rows`: the last row with that key.
pub fn find_row(rows: &Vec<TableRow>, key: &str) -> (r: Option<usize>)
    ensures
        match r {
            Some(i) => i < rows@.len() && i as int == last_row(rows@, key@),
            None => last_row(rows@, key@) < 0,
        },
{
    let mut i: usize = rows.len();
    assert(rows@.take(i as int) =~= rows@);
    while i > 0
        invariant
            i <= rows@.len(),
            last_row(rows@, key@) == last_row(rows@.take(i as int), key@),
        decreases i,
    {
        assert(rows@.take(i as int).drop_last() =~= rows@.take(i - 1));
        if str_eq(rows[i - 1].key.as_str(), key) {
            return Some(i - 1);
        }
        i = i - 1;
    }
    None
}

/// The rows of a table that a key-indexed view keeps: the last row of each key,
/// in table order.
pub open spec fn kept_rows(rows: Seq<TableRow>) -> Seq<int> {
    Seq::new(rows.len(), |i: int| i).filter(|i: int| last_row(rows, rows[i].key@) == i)
}

/// One pattern-R row rebuilt from the tables: its key, the primary-store row it
/// comes from, and, for each other store that has the referenced entity, the
/// store's position among the projection's sources and the row found there.
pub struct RebuiltRow {
    pub key: String,
    pub primary: usize,
    pub others: Vec<(usize, usize)>,
}

/// For a primary row keyed `key`: the other stores (by position) that hold the
/// entity it refers to, and the row of each.
pub open spec fn matches_in(tables: Seq<Seq<TableRow>>, key: Seq<char>, upto: int) -> Seq<(usize, usize)>
    decreases upto,
{
    if upto <= 1 {
        Seq::empty()
    } else {
        let s = upto - 1;
        let j = last_row(tables[s], key);
        matches_in(tables, key, upto - 1) + if j >= 0 {
            seq![(s as usize, j as usize)]
        } else {
            Seq::empty()
        }
    }
}

/// The key that a pattern-R rebuild writes a primary row under.
pub open spec fn rebuilt_key(target_key: Seq<char>, row: TableRow) -> Seq<char> {
    spec_key_from(field_views(row.payload), target_key, row.key@)
}

pub open spec fn table_views(tables: Seq<Vec<TableRow>>) -> Seq<Seq<TableRow>> {
    tables.map_values(|t: Vec<TableRow>| t@)
}

/// `row` is the rebuilt projection row of primary row `p`.
pub open spec fn row_rebuilt(target_key: Seq<char>, tv: Seq<Seq<TableRow>>, p: int, row: RebuiltRow) -> bool {
    &&& row.primary == p
    &&& row.key@ == rebuilt_key(target_key, tv[0][p])
    &&& row.others@ == matches_in(tv, row.key@, tv.len() as int)
}

/// Pattern R rebuild: for every row that the primary store's table keeps, the
/// projection row and the other stores' rows joined into it. `tables` holds
/// the rows of each source store, in the projection's source order.
pub fn rebuild_pattern_r(projection: &ProjectionConfig, tables: &Vec<Vec<TableRow>>) -> (r: Vec<
    RebuiltRow,
>)
    requires
        tables@.len() > 0,
        tables@.len() < usize::MAX,
    ensures
        r@.len() == kept_rows(tables@[0]@).len(),
        forall|i: int|
            0 <= i < r@.len() ==> row_rebuilt(
                projection.target_key@,
                table_views(tables@),
                kept_rows(tables@[0]@)[i],
                #[trigger] r@[i],
            ),
{
    let primary = &tables[0];
    let ghost tv = table_views(tables@);
    let ghost all = Seq::new(primary@.len(), |i: int| i);
    let ghost keep = |i: int| last_row(primary@, primary@[i].key@) == i;
    let mut out: Vec<RebuiltRow> = Vec::new();
    let mut i: usize = 0;
    while i < primary.len()
        invariant
            primary == &tables[0],
            tv == table_views(tables@),
            tv[0] == primary@,
            tables@.len() > 0,
            tables@.len() < usize::MAX,
            all == Seq::new(primary@.len(), |i: int| i),
            keep == (|i: int| last_row(primary@, primary@[i].key@) == i),
            i <= primary@.len(),
            out@.len() == all.take(i as int).filter(keep).len(),
            forall|x: int|
                0 <= x < out@.len() ==> row_rebuilt(
                    projection.target_key@,
                    tv,
                    all.take(i as int).filter(keep)[x],
                    #[trigger] out@[x],
                ),
        decreases primary@.len() - i,
    {
        let row = &primary[i];
        assert(all.take(i + 1) =~= all.take(i as int).push(i as int));
        assert(all.take(i + 1).drop_last() =~= all.take(i as int));
        reveal(Seq::filter);
        let last = find_row(primary, row.key.as_str());
        if last == Some(i) {
            let key = event_key_from_value(&row.payload, projection.target_key.as_str(), row.key.as_str());
            let others = joined_rows(tables, key.as_str());
            let ghost before = out@;
            out.push(RebuiltRow { key, primary: i, others });
            assert forall|x: int| 0 <= x < out@.len() implies row_rebuilt(
                projection.target_key@,
                tv,
                all.take(i + 1).filter(keep)[x],
                #[trigger] out@[x],
            ) by {
                if x < before.len() {
                    assert(out@[x] == before[x]);
                }
            }
        }
        i = i + 1;
    }
    assert(all.take(primary@.len() as int) =~= all);
    assert(all.filter(keep) =~= kept_rows(tables@[0]@));
    out
}

fn joined_rows(tables: &Vec<Vec<TableRow>>, key: &str) -> (r: Vec<(usize, usize)>)
    requires
        tables@.len() > 0,
        tables@.len() < usize::MAX,
    ensures
        r@ == matches_in(table_views(tables@), key@, tables@.len() as int),
{
    let ghost tv = table_views(tables@);
    let mut out: Vec<(usize, usize)> = Vec::new();
    let mut s: usize = 1;
    while s < tables.len()
        invariant
            tv == table_views(tables@),
            tables@.len() < usize::MAX,
            1 <= s <= tables@.len(),
            out@ == matches_in(tv, key@, s as int),
        decreases tables@.len() - s,
    {
        assert(tv[s as int] == tables@[s as int]@);
        match find_row(&tables[s], key) {
            Some(j) => {
                out.push((s, j));
            },
            None => {},
        }
        assert(out@ =~= matches_in(tv, key@, s + 1));
        s = s + 1;
    }
    out
}

/// Pattern M rebuild of one table row: the fields of `fields` that its payload
/// has, under the key that `target_key` names; nothing when it has none of them.
pub fn rebuild_pattern_m_row(target_key: &str, fields: &Vec<String>, row: &TableRow) -> (r: Option<
    MPlan,
>)
    ensures
        ({
            let copied = views(fields@).filter(
                |f: Seq<char>| field_index(field_views(row.payload), f) >= 0,
            );
            if copied.len() == 0 {
                r is None
            } else {
                r matches Some(plan) && views(plan.fields@) == copied && plan.key@ == rebuilt_key(
                    target_key@,
                    *row,
                )
            }
        }),
{
    let ghost fs = views(fields@);
    let ghost keep = |f: Seq<char>| field_index(field_views(row.payload), f) >= 0;
    let mut out: Vec<String> = Vec::new();
    let mut k: usize = 0;
    while k < fields.len()
        invariant
            fs == views(fields@),
            keep == (|f: Seq<char>| field_index(field_views(row.payload), f) >= 0),
            k <= fields@.len(),
            views(out@) == fs.take(k as int).filter(keep),
        decreases fields@.len() - k,
    {
        assert(fs.take(k + 1).drop_last() =~= fs.take(k as int));
        reveal(Seq::filter);
        if has_field(&row.payload, fields[k].as_str()) {
            let ghost before = out@;
            out.push(fields[k].clone());
            assert(views(out@) =~= views(before).push(fields@[k as int]@));
        }
        k = k + 1;
    }
    assert(fs.take(fields@.len() as int) =~= fs);
    if out.len() == 0 {
        return None;
    }
    let key = event_key_from_value(&row.payload, target_key, row.key.as_str());
    Some(MPlan { key, fields: out })
}

/// Pattern M needs `copy_fields`.
pub fn require_copy_fields(projection: &ProjectionConfig) -> (r: Result<(), String>)
    ensures
        r is Ok <==> projection.copy_fields is Some,
        r matches Err(m) ==> m@ == "pattern M requires copy_fields"@,
{
    match &projection.copy_fields {
        Some(_) => Ok(()),
        None => Err(owned("pattern M requires copy_fields")),
    }
}

/// The store paths that `name=path,name=path` entries give: each entry is
/// trimmed, blank entries and entries without `=` are skipped, name and path
/// are trimmed, and a later entry for a name replaces an earlier one.
pub open spec fn store_paths_of(entries: Seq<Seq<char>>) -> Map<Seq<char>, Seq<char>>
    decreases entries.len(),
{
    if entries.len() == 0 {
        Map::empty()
    } else {
        let m = store_paths_of(entries.drop_last());
        let pair = spec_trim(entries.last());
        if pair.len() == 0 {
            m
        } else {
            match spec_split_once(pair, '=') {
                Some((k, v)) => m.insert(spec_trim(k), spec_trim(v)),
                None => m,
            }
        }
    }
}

/// Parses `IXMATI_STORE_PATHS`; see `store_paths_of`.
pub fn parse_store_paths(raw: &str) -> (r: Vec<(String, String)>)
    ensures
        distinct_keys(r@),
        text_map(r@) == store_paths_of(spec_split(raw@, ',')),
{
    let entries = split(raw, ',');
    let mut out: Vec<(String, String)> = Vec::new();
    let n = entries.len();
    let mut i: usize = 0;
    while i < n
        invariant
            n == entries@.len(),
            views(entries@) == spec_split(raw@, ','),
            i <= n,
            distinct_keys(out@),
            text_map(out@) == store_paths_of(views(entries@).take(i as int)),
        decreases n - i,
    {
        let ghost before = out@;
        assert(views(entries@).take(i + 1).drop_last() =~= views(entries@).take(i as int));
        assert(views(entries@)[i as int] == entries@[i as int]@);
        let pair = trim(entries[i].as_str());
        if pair.unicode_len() > 0 {
            match split_once(pair.as_str(), '=') {
                Some((k, v)) => {
                    let name = trim(k.as_str());
                    let path = trim(v.as_str());
                    let ghost kv = name@;
                    let ghost pv = path@;
                    assoc_insert(&mut out, name, path);
                    assert(text_map(out@) =~= text_map(before).insert(kv, pv));
                },
                None => {},
            }
        }
        i = i + 1;
    }
    assert(views(entries@).take(n as int) =~= views(entries@));
    out
}

} // verus!
