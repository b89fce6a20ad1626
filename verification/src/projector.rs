//! Projection maintenance: which keys an event touches, what each projection
//! pattern reads and writes, and the reverse index of pattern R.
use vstd::prelude::*;
use std::sync::Arc;
use crate::cache::{CacheBackend, spec_cache_key, spec_projection_key};
use crate::projection::{CopyField, ProjectionConfig, ProjectionRegistry};
use crate::seqs::{first_index, lemma_first_index, lemma_first_index_unique};
use crate::text::{
    concat, ends_with, is_prefix, is_suffix, join2, owned, str_eq, trim_end_char,
    trim_end_matches_char, views,
};

verus! {

/// One top-level field of an event's JSON payload: its name, its text when the
/// value is a JSON string, and the value's JSON rendering.
#[derive(Debug, Clone)]
pub struct Field {
    pub name: String,
    pub text: Option<String>,
    pub json: String,
}

/// The top-level fields of a JSON payload (none when it is not an object).
#[derive(Debug, Clone)]
pub struct Payload {
    pub fields: Vec<Field>,
}

/// An event from a store's outbox, with its payload's fields.
#[derive(Debug, Clone)]
pub struct Event {
    pub event_id: String,
    pub event_type: String,
    pub store: String,
    pub entity: String,
    pub key: String,
    pub version: u64,
    pub occurred_at: String,
    pub outbox_seq: u64,
    pub payload: Payload,
}

/// A field as values.
pub struct FieldView {
    pub name: Seq<char>,
    pub text: Option<Seq<char>>,
    pub json: Seq<char>,
}

impl View for Field {
    type V = FieldView;

    open spec fn view(&self) -> FieldView {
        FieldView {
            name: self.name@,
            text: match self.text {
                Some(t) => Some(t@),
                None => None,
            },
            json: self.json@,
        }
    }
}

pub open spec fn field_views(p: Payload) -> Seq<FieldView> {
    p.fields@.map_values(|f: Field| f@)
}

/// A field is named `name`.
pub open spec fn has_name(name: Seq<char>) -> spec_fn(FieldView) -> bool {
    |f: FieldView| f.name == name
}

/// Where the field `name` is in `fields`, or -1.
pub open spec fn field_index(fields: Seq<FieldView>, name: Seq<char>) -> int {
    first_index(fields, has_name(name))
}

/// A field's value as a key: its text for a JSON string, its JSON otherwise.
pub open spec fn field_key(f: FieldView) -> Seq<char> {
    match f.text {
        Some(t) => t,
        None => f.json,
    }
}

/// The key that `target` names in the payload, or `fallback` when it has no such field.
pub open spec fn spec_key_from(fields: Seq<FieldView>, target: Seq<char>, fallback: Seq<char>) -> Seq<
    char,
> {
    let i = field_index(fields, target);
    if i >= 0 {
        field_key(fields[i])
    } else {
        fallback
    }
}

fn find_field(payload: &Payload, name: &str) -> (r: Option<usize>)
    ensures
        match r {
            Some(i) => i < payload.fields@.len() && i as int == field_index(field_views(*payload), name@),
            None => field_index(field_views(*payload), name@) < 0,
        },
{
    let ghost s = field_views(*payload);
    let ghost p = has_name(name@);
    let mut i: usize = 0;
    while i < payload.fields.len()
        invariant
            s == field_views(*payload),
            p == has_name(name@),
            i <= payload.fields@.len(),
            forall|j: int| 0 <= j < i ==> !p(#[trigger] s[j]),
        decreases payload.fields@.len() - i,
    {
        if str_eq(payload.fields[i].name.as_str(), name) {
            proof {
                lemma_first_index_unique(s, p, i as int);
            }
            return Some(i);
        }
        i = i + 1;
    }
    proof {
        lemma_first_index_unique(s, p, i as int);
    }
    None
}

/// Whether the payload has a field `name`.
pub fn has_field(payload: &Payload, name: &str) -> (r: bool)
    ensures
        r == (field_index(field_views(*payload), name@) >= 0),
{
    find_field(payload, name).is_some()
}

/// The key that `target_key` names in a payload: the field's text when it is a
/// JSON string, its JSON otherwise, and `fallback` when there is no such field.
pub fn event_key_from_value(payload: &Payload, target_key: &str, fallback: &str) -> (r: String)
    ensures
        r@ == spec_key_from(field_views(*payload), target_key@, fallback@),
{
    match find_field(payload, target_key) {
        Some(i) => {
            let f = &payload.fields[i];
            match &f.text {
                Some(t) => t.clone(),
                None => f.json.clone(),
            }
        },
        None => owned(fallback),
    }
}

/// The projection key of an event for pattern R: its `target_key` field, or the event key.
pub fn event_key_from_payload(event: &Event, target_key: &str) -> (r: String)
    ensures
        r@ == spec_key_from(field_views(event.payload), target_key@, event.key@),
{
    event_key_from_value(&event.payload, target_key, event.key.as_str())
}

/// The projection key of an event for pattern M: its `target_key` field, or the event key.
pub fn extract_target_key(event: &Event, target_key: &str) -> (r: String)
    ensures
        r@ == spec_key_from(field_views(event.payload), target_key@, event.key@),
{
    event_key_from_value(&event.payload, target_key, event.key.as_str())
}

/// The entity kept in a store, named after it: the store's name without trailing `s`.
pub fn infer_entity_from_store(store_name: &str) -> (r: String)
    ensures
        r@ == trim_end_char(store_name@, 's'),
{
    trim_end_matches_char(store_name, 's')
}

/// The field of an event that refers to an entity of `store`: `{entity}_id`.
pub open spec fn lookup_field(store: Seq<char>) -> Seq<char> {
    trim_end_char(store, 's') + "_id"@
}

/// The key of the entity of `store_name` that an event refers to: the
/// `{entity}_id` field of its payload, or the event's own key.
pub fn resolve_lookup_key(event: &Event, store_name: &str) -> (r: String)
    ensures
        r@ == spec_key_from(field_views(event.payload), lookup_field(store_name@), event.key@),
{
    let singular = infer_entity_from_store(store_name);
    let field = concat(singular.as_str(), "_id");
    event_key_from_value(&event.payload, field.as_str(), event.key.as_str())
}

/// The event removes its entity: its type ends in `.deleted`.
pub fn is_deleted(event: &Event) -> (r: bool)
    ensures
        r == is_suffix(".deleted"@, event.event_type@),
{
    ends_with(event.event_type.as_str(), ".deleted")
}

/// The most projection keys one reverse-index entry records.
pub const MAX_DEPENDENTS: usize = 100;

/// `ridx:{projection}:{store}:{entity}:{key}`.
pub open spec fn spec_dependency_index_key(
    projection: Seq<char>,
    store: Seq<char>,
    entity: Seq<char>,
    key: Seq<char>,
) -> Seq<char> {
    "ridx:"@ + projection + ":"@ + store + ":"@ + entity + ":"@ + key
}

/// `ridx:{projection}:`.
pub open spec fn spec_dependency_index_prefix(projection: Seq<char>) -> Seq<char> {
    "ridx:"@ + projection + ":"@
}

/// The cache key of the reverse index that lists the projection keys referring
/// to one entity of a secondary store.
pub fn dependency_index_key(projection: &ProjectionConfig, store: &str, entity: &str, key: &str) -> (r: String)
    ensures
        r@ == spec_dependency_index_key(projection.name@, store@, entity@, key@),
{
    proof {
        reveal_strlit("ridx:");
        reveal_strlit(":");
    }
    let a = concat("ridx:", projection.name.as_str());
    let b = join2(a.as_str(), ':', store);
    let c = join2(b.as_str(), ':', entity);
    let r = join2(c.as_str(), ':', key);
    assert(r@ =~= spec_dependency_index_key(projection.name@, store@, entity@, key@));
    r
}

/// The prefix shared by all reverse-index keys of a projection.
pub fn dependency_index_prefix(projection: &ProjectionConfig) -> (r: String)
    ensures
        r@ == spec_dependency_index_prefix(projection.name@),
{
    proof {
        reveal_strlit("ridx:");
        reveal_strlit(":");
    }
    let r = crate::text::concat3("ridx:", projection.name.as_str(), ":");
    assert(r@ =~= spec_dependency_index_prefix(projection.name@));
    r
}

/// Reverse-index keys sit under their projection's prefix and never coincide
/// with an entity key or a projection key.
pub proof fn lemma_dependency_keys_reserved(
    projection: Seq<char>,
    store: Seq<char>,
    entity: Seq<char>,
    key: Seq<char>,
    other_store: Seq<char>,
    other_entity: Seq<char>,
    other_key: Seq<char>,
    name: Seq<char>,
    pkey: Seq<char>,
)
    ensures
        is_prefix(
            spec_dependency_index_prefix(projection),
            spec_dependency_index_key(projection, store, entity, key),
        ),
        spec_dependency_index_key(projection, store, entity, key) != spec_cache_key(
            other_store,
            other_entity,
            other_key,
        ),
        spec_dependency_index_key(projection, store, entity, key) != spec_projection_key(
            name,
            pkey,
        ),
{
    reveal_strlit("ridx:");
    reveal_strlit("c:");
    reveal_strlit("p:");
    reveal_strlit(":");
    let k = spec_dependency_index_key(projection, store, entity, key);
    let p = spec_dependency_index_prefix(projection);
    assert(k.take(p.len() as int) =~= p);
    assert(k[0] == 'r');
    assert(spec_cache_key(other_store, other_entity, other_key)[0] == 'c');
    assert(spec_projection_key(name, pkey)[0] == 'p');
}

/// `targets` holds `key`.
pub open spec fn lists(targets: Seq<Seq<char>>, key: Seq<char>) -> bool {
    exists|i: int| 0 <= i < targets.len() && targets[i] == key
}

/// No projection key appears twice.
pub open spec fn no_repeats(targets: Seq<Seq<char>>) -> bool {
    forall|i: int, j: int| 0 <= i < j < targets.len() ==> targets[i] != targets[j]
}

/// Records that `projection_key` depends on a reverse-index entry. `None` means
/// the entry stays as it is: the key is already listed, or the entry already
/// lists `MAX_DEPENDENTS` keys. An entry that had no repeats and no more than
/// `MAX_DEPENDENTS` keys keeps both properties.
pub fn add_dependent(targets: &Vec<String>, projection_key: &str) -> (r: Option<Vec<String>>)
    ensures
        lists(views(targets@), projection_key@) ==> r is None,
        !lists(views(targets@), projection_key@) && targets@.len() >= MAX_DEPENDENTS ==> r is None,
        !lists(views(targets@), projection_key@) && targets@.len() < MAX_DEPENDENTS ==> (r matches Some(
            t,
        ) && views(t@) == views(targets@).push(projection_key@)),
        r matches Some(t) ==> t@.len() <= MAX_DEPENDENTS && lists(views(t@), projection_key@),
        r matches Some(t) ==> (no_repeats(views(targets@)) ==> no_repeats(views(t@))),
{
    let ghost tv = views(targets@);
    let mut i: usize = 0;
    while i < targets.len()
        invariant
            tv == views(targets@),
            i <= targets@.len(),
            forall|j: int| 0 <= j < i ==> tv[j] != projection_key@,
        decreases targets@.len() - i,
    {
        if str_eq(targets[i].as_str(), projection_key) {
            assert(tv[i as int] == projection_key@);
            return None;
        }
        i = i + 1;
    }
    if targets.len() >= MAX_DEPENDENTS {
        return None;
    }
    let mut out: Vec<String> = Vec::new();
    let mut j: usize = 0;
    while j < targets.len()
        invariant
            tv == views(targets@),
            j <= targets@.len(),
            views(out@) == tv.take(j as int),
        decreases targets@.len() - j,
    {
        let ghost before = out@;
        out.push(targets[j].clone());
        assert(views(out@) =~= views(before).push(targets@[j as int]@));
        assert(tv.take(j + 1) =~= tv.take(j as int).push(tv[j as int]));
        j = j + 1;
    }
    assert(tv.take(targets@.len() as int) =~= tv);
    let ghost before = out@;
    out.push(owned(projection_key));
    assert(views(out@) =~= views(before).push(projection_key@));
    assert(views(out@)[tv.len() as int] == projection_key@);
    Some(out)
}

/// The payload has a field with the given name.
pub open spec fn in_payload(p: Payload) -> spec_fn(Seq<char>) -> bool {
    |f: Seq<char>| field_index(field_views(p), f) >= 0
}

/// Pattern M: the fields of the event's payload that the projection copies, in
/// copy order: for every `copy_fields` entry of the event's store or entity,
/// each listed field that the payload has.
pub open spec fn copied_fields(defs: Seq<CopyField>, event: Event) -> Seq<Seq<char>>
    decreases defs.len(),
{
    if defs.len() == 0 {
        Seq::empty()
    } else {
        let d = defs.last();
        copied_fields(defs.drop_last(), event) + if d.source_store@ == event.store@
            || d.source_entity@ == event.entity@ {
            views(d.fields@).filter(in_payload(event.payload))
        } else {
            Seq::empty()
        }
    }
}

/// A payload has a field `name` exactly when one of its fields carries that name.
pub proof fn lemma_field_present(p: Payload, name: Seq<char>)
    ensures
        in_payload(p)(name) == exists|j: int|
            0 <= j < p.fields@.len() && (#[trigger] p.fields@[j]).name@ == name,
{
    let s = field_views(p);
    lemma_first_index(s, has_name(name));
    let k = field_index(s, name);
    if k >= 0 {
        assert(s[k] == p.fields@[k]@);
        assert(p.fields@[k].name@ == name);
    } else {
        assert forall|j: int| 0 <= j < p.fields@.len() implies (#[trigger] p.fields@[j]).name@
            != name by {
            assert(s[j] == p.fields@[j]@);
            assert(!has_name(name)(s[j]));
        }
    }
}

/// Pattern M copies exactly the field names that the event's payload has and
/// that some `copy_fields` entry for the event's store or entity lists.
pub proof fn lemma_copied_fields(defs: Seq<CopyField>, event: Event, name: Seq<char>)
    ensures
        copied_fields(defs, event).contains(name) == ((exists|j: int|
            0 <= j < event.payload.fields@.len() && (#[trigger] event.payload.fields@[j]).name@
                == name) && (exists|d: int, k: int|
            0 <= d < defs.len() && (defs[d].source_store@ == event.store@ || defs[d].source_entity@
                == event.entity@) && 0 <= k < defs[d].fields@.len() && (
            #[trigger] defs[d].fields@[k])@ == name)),
    decreases defs.len(),
{
    lemma_field_present(event.payload, name);
    if defs.len() > 0 {
        let init = defs.drop_last();
        let d = defs.last();
        lemma_copied_fields(init, event, name);
        let m = d.source_store@ == event.store@ || d.source_entity@ == event.entity@;
        let fs = views(d.fields@);
        let keep = in_payload(event.payload);
        let a = copied_fields(init, event);
        let extra = if m {
            fs.filter(keep)
        } else {
            Seq::<Seq<char>>::empty()
        };
        assert(copied_fields(defs, event) == a + extra);
        vstd::seq_lib::lemma_seq_concat_contains_all_elements(a, extra, name);
        let listed_init = exists|dd: int, k: int|
            0 <= dd < init.len() && (init[dd].source_store@ == event.store@
                || init[dd].source_entity@ == event.entity@) && 0 <= k < init[dd].fields@.len()
                && (#[trigger] init[dd].fields@[k])@ == name;
        let listed_last = m && fs.contains(name);
        let listed = exists|dd: int, k: int|
            0 <= dd < defs.len() && (defs[dd].source_store@ == event.store@
                || defs[dd].source_entity@ == event.entity@) && 0 <= k < defs[dd].fields@.len()
                && (#[trigger] defs[dd].fields@[k])@ == name;
        assert(listed == (listed_init || listed_last)) by {
            if listed_init {
                let (dd, k) = choose|dd: int, k: int|
                    0 <= dd < init.len() && (init[dd].source_store@ == event.store@
                        || init[dd].source_entity@ == event.entity@) && 0 <= k
                        < init[dd].fields@.len() && (#[trigger] init[dd].fields@[k])@ == name;
                assert(defs[dd] == init[dd]);
                assert(defs[dd].fields@[k]@ == name);
            }
            if listed_last {
                let k = choose|k: int| 0 <= k < fs.len() && fs[k] == name;
                assert(defs[defs.len() - 1] == d);
                assert(d.fields@[k]@ == name);
                assert(defs[defs.len() - 1].fields@[k]@ == name);
            }
            if listed {
                let (dd, k) = choose|dd: int, k: int|
                    0 <= dd < defs.len() && (defs[dd].source_store@ == event.store@
                        || defs[dd].source_entity@ == event.entity@) && 0 <= k
                        < defs[dd].fields@.len() && (#[trigger] defs[dd].fields@[k])@ == name;
                if dd < defs.len() - 1 {
                    assert(init[dd] == defs[dd]);
                    assert(init[dd].fields@[k]@ == name);
                } else {
                    assert(defs[dd] == d);
                    assert(fs[k] == name);
                }
            }
        }
        if m {
            if fs.filter(keep).contains(name) {
                fs.lemma_filter_contains_rev(keep, name);
                let i = choose|i: int| 0 <= i < fs.filter(keep).len() && fs.filter(keep)[i] == name;
                fs.lemma_filter_pred(keep, i);
            }
            if fs.contains(name) && keep(name) {
                let i = choose|i: int| 0 <= i < fs.len() && fs[i] == name;
                fs.lemma_filter_contains(keep, i);
            }
        }
    }
}

/// What pattern M writes for an event: the projection row's key and the
/// payload fields copied into it (the row also gets the key under `target_key`).
pub struct MPlan {
    pub key: String,
    pub fields: Vec<String>,
}

fn copy_from(def: &CopyField, event: &Event, out: &mut Vec<String>)
    ensures
        views(final(out)@) == views(old(out)@) + views(def.fields@).filter(in_payload(event.payload)),
{
    let ghost fs = views(def.fields@);
    let ghost keep = in_payload(event.payload);
    let mut k: usize = 0;
    while k < def.fields.len()
        invariant
            fs == views(def.fields@),
            keep == in_payload(event.payload),
            k <= def.fields@.len(),
            views(out@) == views(old(out)@) + fs.take(k as int).filter(keep),
        decreases def.fields@.len() - k,
    {
        let name = &def.fields[k];
        assert(fs.take(k + 1).drop_last() =~= fs.take(k as int));
        reveal(Seq::filter);
        if has_field(&event.payload, name.as_str()) {
            let ghost before = out@;
            out.push(name.clone());
            assert(views(out@) =~= views(before).push(name@));
        }
        k = k + 1;
    }
    assert(fs.take(def.fields@.len() as int) =~= fs);
}

/// Decides what pattern M writes for an event: nothing when the projection has
/// no `copy_fields` or copies none of the payload's fields.
pub fn plan_pattern_m(projection: &ProjectionConfig, event: &Event) -> (r: Option<MPlan>)
    ensures
        match projection.copy_fields {
            None => r is None,
            Some(defs) => {
                let fields = copied_fields(defs@, *event);
                if fields.len() == 0 {
                    r is None
                } else {
                    r matches Some(plan) && views(plan.fields@) == fields && plan.key@
                        == spec_key_from(
                        field_views(event.payload),
                        projection.target_key@,
                        event.key@,
                    )
                }
            },
        },
{
    let defs = match &projection.copy_fields {
        Some(defs) => defs,
        None => return None,
    };
    let mut fields: Vec<String> = Vec::new();
    let mut i: usize = 0;
    while i < defs.len()
        invariant
            projection.copy_fields == Some(*defs),
            i <= defs@.len(),
            views(fields@) == copied_fields(defs@.take(i as int), *event),
        decreases defs@.len() - i,
    {
        let d = &defs[i];
        assert(defs@.take(i + 1).drop_last() =~= defs@.take(i as int));
        assert(defs@.take(i + 1).last() == *d);
        if str_eq(d.source_store.as_str(), event.store.as_str()) || str_eq(
            d.source_entity.as_str(),
            event.entity.as_str(),
        ) {
            copy_from(d, event, &mut fields);
        }
        i = i + 1;
    }
    assert(defs@.take(defs@.len() as int) =~= defs@);
    if fields.len() == 0 {
        return None;
    }
    let key = extract_target_key(event, projection.target_key.as_str());
    Some(MPlan { key, fields })
}

/// Where pattern R takes the part of one source store from: the event itself,
/// or a cached entity of that store.
pub enum SourceRead {
    Event,
    Lookup { entity: String, key: String },
}

/// One source store of a pattern-R projection and where its part comes from.
pub struct SourceStep {
    pub store: String,
    pub read: SourceRead,
}

/// A step as values: the store, and `None` for the event or `Some((entity, key))`.
pub open spec fn step_view(s: SourceStep) -> (Seq<char>, Option<(Seq<char>, Seq<char>)>) {
    (s.store@, match s.read {
        SourceRead::Event => None,
        SourceRead::Lookup { entity, key } => Some((entity@, key@)),
    })
}

pub open spec fn steps_view(s: Seq<SourceStep>) -> Seq<(Seq<char>, Option<(Seq<char>, Seq<char>)>)> {
    s.map_values(|x: SourceStep| step_view(x))
}

/// For an event of the primary store: the event's own store is taken from the
/// event; each other store is looked up by the key the event refers to.
pub open spec fn primary_step(store: Seq<char>, event: Event) -> (
    Seq<char>,
    Option<(Seq<char>, Seq<char>)>,
) {
    if store == event.store@ {
        (store, None)
    } else {
        (
            store,
            Some(
                (
                    trim_end_char(store, 's'),
                    spec_key_from(field_views(event.payload), lookup_field(store), event.key@),
                ),
            ),
        )
    }
}

/// For a projection row named by `target` that an event of a secondary store
/// refreshes: the event's store comes from the event, each other store is
/// looked up by `target`.
pub open spec fn refresh_step(store: Seq<char>, event: Event, target: Seq<char>) -> (
    Seq<char>,
    Option<(Seq<char>, Seq<char>)>,
) {
    if store == event.store@ {
        (store, None)
    } else {
        (store, Some((trim_end_char(store, 's'), target)))
    }
}

/// The reverse-index entry that an event of the primary store registers for a
/// secondary store.
pub open spec fn index_key_for(projection: ProjectionConfig, store: Seq<char>, event: Event) -> Seq<
    char,
> {
    spec_dependency_index_key(
        projection.name@,
        store,
        trim_end_char(store, 's'),
        spec_key_from(field_views(event.payload), lookup_field(store), event.key@),
    )
}

/// What pattern R does for an event.
pub enum RPlan {
    /// The projection has no source store.
    Skip,
    /// An event of the primary store: build the row from `steps`, then write it
    /// under `projection_key` (or remove it when `delete`), and register it in
    /// the reverse-index entries `index_keys` of the other stores.
    Primary { steps: Vec<SourceStep>, projection_key: String, delete: bool, index_keys: Vec<String> },
    /// An event of another store: refresh (or remove, when `delete`) every row
    /// listed in the reverse-index entry `index_key`.
    Secondary { index_key: String, delete: bool },
}

fn primary_steps(projection: &ProjectionConfig, event: &Event) -> (r: Vec<SourceStep>)
    ensures
        steps_view(r@) == views(projection.source_stores@).map_values(
            |s: Seq<char>| primary_step(s, *event),
        ),
{
    let stores = &projection.source_stores;
    let ghost sv = views(stores@);
    let mut out: Vec<SourceStep> = Vec::new();
    let mut i: usize = 0;
    while i < stores.len()
        invariant
            stores == &projection.source_stores,
            sv == views(stores@),
            i <= stores@.len(),
            steps_view(out@) == sv.take(i as int).map_values(|s: Seq<char>| primary_step(s, *event)),
        decreases stores@.len() - i,
    {
        let store = &stores[i];
        let step = if str_eq(store.as_str(), event.store.as_str()) {
            SourceStep { store: store.clone(), read: SourceRead::Event }
        } else {
            SourceStep {
                store: store.clone(),
                read: SourceRead::Lookup {
                    entity: infer_entity_from_store(store.as_str()),
                    key: resolve_lookup_key(event, store.as_str()),
                },
            }
        };
        let ghost before = out@;
        out.push(step);
        assert(steps_view(out@) =~= steps_view(before).push(step_view(step)));
        assert(sv.take(i + 1) =~= sv.take(i as int).push(sv[i as int]));
        assert(steps_view(out@) =~= sv.take(i + 1).map_values(
            |s: Seq<char>| primary_step(s, *event),
        ));
        i = i + 1;
    }
    assert(sv.take(stores@.len() as int) =~= sv);
    out
}

fn index_keys(projection: &ProjectionConfig, event: &Event) -> (r: Vec<String>)
    requires
        projection.source_stores@.len() > 0,
    ensures
        views(r@) == views(projection.source_stores@).drop_first().map_values(
            |s: Seq<char>| index_key_for(*projection, s, *event),
        ),
{
    let stores = &projection.source_stores;
    let ghost rest = views(stores@).drop_first();
    let mut out: Vec<String> = Vec::new();
    let mut i: usize = 1;
    while i < stores.len()
        invariant
            stores == &projection.source_stores,
            rest == views(stores@).drop_first(),
            1 <= i <= stores@.len(),
            views(out@) == rest.take(i - 1).map_values(
                |s: Seq<char>| index_key_for(*projection, s, *event),
            ),
        decreases stores@.len() - i,
    {
        let store = stores[i].as_str();
        let entity = infer_entity_from_store(store);
        let key = resolve_lookup_key(event, store);
        let k = dependency_index_key(projection, store, entity.as_str(), key.as_str());
        let ghost before = out@;
        out.push(k);
        assert(rest[i - 1] == stores@[i as int]@);
        assert(views(out@) =~= views(before).push(k@));
        assert(rest.take(i as int) =~= rest.take(i - 1).push(rest[i - 1]));
        assert(views(out@) =~= rest.take(i as int).map_values(
            |s: Seq<char>| index_key_for(*projection, s, *event),
        ));
        i = i + 1;
    }
    assert(rest.take(stores@.len() - 1) =~= rest);
    out
}

/// Decides what pattern R does for an event, as the asynchronous projector does.
pub fn plan_pattern_r(projection: &ProjectionConfig, event: &Event) -> (r: RPlan)
    ensures
        projection.source_stores@.len() == 0 ==> r is Skip,
        projection.source_stores@.len() > 0 && event.store@ != projection.source_stores@[0]@
            ==> (r matches RPlan::Secondary { index_key, delete } && index_key@
            == spec_dependency_index_key(
            projection.name@,
            event.store@,
            event.entity@,
            event.key@,
        ) && delete == is_suffix(".deleted"@, event.event_type@)),
        projection.source_stores@.len() > 0 && event.store@ == projection.source_stores@[0]@
            ==> (r matches RPlan::Primary { steps, projection_key, delete, index_keys } && steps_view(
            steps@,
        ) == views(projection.source_stores@).map_values(|s: Seq<char>| primary_step(s, *event))
            && projection_key@ == spec_key_from(
            field_views(event.payload),
            projection.target_key@,
            event.key@,
        ) && delete == is_suffix(".deleted"@, event.event_type@) && views(index_keys@) == views(
            projection.source_stores@,
        ).drop_first().map_values(|s: Seq<char>| index_key_for(*projection, s, *event))),
{
    if projection.source_stores.len() == 0 {
        return RPlan::Skip;
    }
    let delete = is_deleted(event);
    if !str_eq(event.store.as_str(), projection.source_stores[0].as_str()) {
        let index_key = dependency_index_key(
            projection,
            event.store.as_str(),
            event.entity.as_str(),
            event.key.as_str(),
        );
        return RPlan::Secondary { index_key, delete };
    }
    let steps = primary_steps(projection, event);
    let projection_key = event_key_from_payload(event, projection.target_key.as_str());
    let index_keys = index_keys(projection, event);
    RPlan::Primary { steps, projection_key, delete, index_keys }
}

/// Where each store's part of a refreshed pattern-R row comes from.
pub fn refresh_steps(projection: &ProjectionConfig, event: &Event, target_key: &str) -> (r: Vec<
    SourceStep,
>)
    ensures
        steps_view(r@) == views(projection.source_stores@).map_values(
            |s: Seq<char>| refresh_step(s, *event, target_key@),
        ),
{
    let stores = &projection.source_stores;
    let ghost sv = views(stores@);
    let mut out: Vec<SourceStep> = Vec::new();
    let mut i: usize = 0;
    while i < stores.len()
        invariant
            stores == &projection.source_stores,
            sv == views(stores@),
            i <= stores@.len(),
            steps_view(out@) == sv.take(i as int).map_values(
                |s: Seq<char>| refresh_step(s, *event, target_key@),
            ),
        decreases stores@.len() - i,
    {
        let store = &stores[i];
        let step = if str_eq(store.as_str(), event.store.as_str()) {
            SourceStep { store: store.clone(), read: SourceRead::Event }
        } else {
            SourceStep {
                store: store.clone(),
                read: SourceRead::Lookup {
                    entity: infer_entity_from_store(store.as_str()),
                    key: owned(target_key),
                },
            }
        };
        let ghost before = out@;
        out.push(step);
        assert(steps_view(out@) =~= steps_view(before).push(step_view(step)));
        assert(sv.take(i + 1) =~= sv.take(i as int).push(sv[i as int]));
        assert(steps_view(out@) =~= sv.take(i + 1).map_values(
            |s: Seq<char>| refresh_step(s, *event, target_key@),
        ));
        i = i + 1;
    }
    assert(sv.take(stores@.len() as int) =~= sv);
    out
}

/// One source store of pattern R applied directly to a cache: its entity is read
/// at `entity`/`key`, and on a miss the event's own payload stands in when
/// `event_fallback`.
pub struct DirectStep {
    pub store: String,
    pub entity: String,
    pub key: String,
    pub event_fallback: bool,
}

/// What pattern R does for an event when applied directly to a cache: read the
/// source stores as `steps` say, and write the row under `projection_key`.
pub struct DirectRPlan {
    pub steps: Vec<DirectStep>,
    pub projection_key: String,
}

/// A direct step as values: store, entity, key, fallback.
pub open spec fn direct_step_view(s: DirectStep) -> (Seq<char>, Seq<char>, Seq<char>, bool) {
    (s.store@, s.entity@, s.key@, s.event_fallback)
}

/// Every source store is read at the event's own entity and key; only the
/// event's own store falls back to the event's payload.
pub open spec fn direct_step(store: Seq<char>, event: Event) -> (Seq<char>, Seq<char>, Seq<char>, bool) {
    (store, event.entity@, event.key@, store == event.store@)
}

/// Decides what pattern R does for an event when applied directly to a cache.
pub fn plan_pattern_r_direct(projection: &ProjectionConfig, event: &Event) -> (r: DirectRPlan)
    ensures
        r.steps@.map_values(|x: DirectStep| direct_step_view(x)) == views(
            projection.source_stores@,
        ).map_values(|s: Seq<char>| direct_step(s, *event)),
        r.projection_key@ == spec_key_from(
            field_views(event.payload),
            projection.target_key@,
            event.key@,
        ),
{
    let stores = &projection.source_stores;
    let ghost sv = views(stores@);
    let mut steps: Vec<DirectStep> = Vec::new();
    let mut i: usize = 0;
    while i < stores.len()
        invariant
            stores == &projection.source_stores,
            sv == views(stores@),
            i <= stores@.len(),
            steps@.map_values(|x: DirectStep| direct_step_view(x)) == sv.take(i as int).map_values(
                |s: Seq<char>| direct_step(s, *event),
            ),
        decreases stores@.len() - i,
    {
        let store = &stores[i];
        let step = DirectStep {
            store: store.clone(),
            entity: event.entity.clone(),
            key: event.key.clone(),
            event_fallback: str_eq(store.as_str(), event.store.as_str()),
        };
        let ghost before = steps@;
        steps.push(step);
        assert(steps@.map_values(|x: DirectStep| direct_step_view(x)) =~= before.map_values(
            |x: DirectStep| direct_step_view(x),
        ).push(direct_step_view(step)));
        assert(sv.take(i + 1) =~= sv.take(i as int).push(sv[i as int]));
        assert(steps@.map_values(|x: DirectStep| direct_step_view(x)) =~= sv.take(i + 1).map_values(
            |s: Seq<char>| direct_step(s, *event),
        ));
        i = i + 1;
    }
    assert(sv.take(stores@.len() as int) =~= sv);
    let projection_key = event_key_from_payload(event, projection.target_key.as_str());
    DirectRPlan { steps, projection_key }
}

/// Applies projection updates to a cache.
pub struct ProjectorEngine<B: CacheBackend> {
    registry: ProjectionRegistry,
    cache: Arc<B>,
}

impl<B: CacheBackend> ProjectorEngine<B> {
    pub fn new(registry: ProjectionRegistry, cache: Arc<B>) -> (r: Self)
        ensures
            r.spec_registry() == registry,
            r.spec_cache() == cache,
    {
        ProjectorEngine { registry, cache }
    }

    pub closed spec fn spec_registry(&self) -> ProjectionRegistry {
        self.registry
    }

    pub closed spec fn spec_cache(&self) -> Arc<B> {
        self.cache
    }

    /// The projections the engine maintains.
    pub fn registry(&self) -> (r: &ProjectionRegistry)
        ensures
            *r == self.spec_registry(),
    {
        &self.registry
    }

    /// The cache the engine writes to.
    pub fn cache(&self) -> (r: &Arc<B>)
        ensures
            *r == self.spec_cache(),
    {
        &self.cache
    }
}

/// What the projector does with an incoming event.
#[derive(Debug, Clone, Copy, PartialEq, Eq, Structural)]
pub enum Admission {
    /// Older than the latest version already seen for its entity: dropped.
    Stale,
    /// Already processed (same event id): dropped.
    Duplicate,
    /// Processed.
    Process,
}

/// The identity of an entity: store, entity, key.
pub type EntityId = (Seq<char>, Seq<char>, Seq<char>);

pub open spec fn entry_id(e: (String, String, String, u64)) -> EntityId {
    (e.0@, e.1@, e.2@)
}

/// The latest version recorded for `id` among `entries` (the first entry for it).
pub open spec fn latest_of(entries: Seq<(String, String, String, u64)>, id: EntityId) -> Option<u64> {
    let i = first_index(entries, |e: (String, String, String, u64)| entry_id(e) == id);
    if i >= 0 {
        Some(entries[i].3)
    } else {
        None
    }
}

/// Drops events that arrive out of order or twice before the projector sees them.
pub struct EventGate {
    latest: Vec<(String, String, String, u64)>,
    seen: Vec<String>,
    capacity: usize,
}

impl EventGate {
    pub closed spec fn spec_latest(&self, id: EntityId) -> Option<u64> {
        latest_of(self.latest@, id)
    }

    pub closed spec fn spec_seen(&self) -> Seq<Seq<char>> {
        views(self.seen@)
    }

    pub closed spec fn spec_capacity(&self) -> usize {
        self.capacity
    }

    /// The remembered event ids never exceed the capacity (or one, for a zero capacity).
    pub closed spec fn wf(&self) -> bool {
        self.seen@.len() <= if self.capacity == 0 {
            1
        } else {
            self.capacity as int
        }
    }

    /// A gate that remembers up to `capacity` event ids.
    pub fn new(capacity: usize) -> (r: Self)
        ensures
            r.wf(),
            r.spec_capacity() == capacity,
            r.spec_seen().len() == 0,
            forall|id: EntityId| r.spec_latest(id) is None,
    {
        let r = EventGate { latest: Vec::new(), seen: Vec::new(), capacity };
        proof {
            assert forall|id: EntityId| r.spec_latest(id) is None by {
                lemma_first_index(r.latest@, |e: (String, String, String, u64)| entry_id(e) == id);
            }
        }
        r
    }

    /// Decides on an event for `store`/`entity`/`key` at `version` with id
    /// `event_id`. An event older than the latest version seen for its entity
    /// is stale and changes nothing; otherwise its version becomes the latest,
    /// the remembered ids are forgotten if they reached the capacity, and the
    /// event is a duplicate exactly when its id is still remembered.
    pub fn accept(&mut self, store: &str, entity: &str, key: &str, version: u64, event_id: &str) -> (r:
        Admission)
        requires
            old(self).wf(),
        ensures
            final(self).wf(),
            final(self).spec_capacity() == old(self).spec_capacity(),
            (r == Admission::Stale) == (old(self).spec_latest((store@, entity@, key@)) matches Some(
                v,
            ) && version < v),
            r == Admission::Stale ==> final(self).spec_seen() == old(self).spec_seen() && forall|
                id: EntityId,
            | final(self).spec_latest(id) == old(self).spec_latest(id),
            r != Admission::Stale ==> final(self).spec_latest((store@, entity@, key@)) == Some(
                version,
            ) && forall|id: EntityId|
                id != (store@, entity@, key@) ==> final(self).spec_latest(id) == old(
                    self,
                ).spec_latest(id),
            r != Admission::Stale ==> ((r == Admission::Duplicate) == (old(self).spec_seen().len()
                < old(self).spec_capacity() && old(self).spec_seen().contains(event_id@))),
            r != Admission::Stale ==> final(self).spec_seen().contains(event_id@),
            r == Admission::Duplicate ==> final(self).spec_seen() == old(self).spec_seen(),
            r == Admission::Process ==> final(self).spec_seen() == if old(self).spec_seen().len()
                >= old(self).spec_capacity() {
                seq![event_id@]
            } else {
                old(self).spec_seen().push(event_id@)
            },
    {
        let ghost id = (store@, entity@, key@);
        let ghost p = |e: (String, String, String, u64)| entry_id(e) == id;
        let ghost old_entries = self.latest@;
        proof {
            lemma_first_index(old_entries, p);
        }
        let mut i: usize = 0;
        let mut found: Option<usize> = None;
        while i < self.latest.len()
            invariant
                self.latest@ == old_entries,
                p == (|e: (String, String, String, u64)| entry_id(e) == id),
                id == (store@, entity@, key@),
                i <= old_entries.len(),
                found is None ==> forall|j: int| 0 <= j < i ==> !p(#[trigger] old_entries[j]),
                found matches Some(f) ==> f < old_entries.len() && p(old_entries[f as int])
                    && forall|j: int| 0 <= j < f ==> !p(#[trigger] old_entries[j]),
            decreases old_entries.len() - i,
        {
            if found.is_none() {
                let e = &self.latest[i];
                if str_eq(e.0.as_str(), store) && str_eq(e.1.as_str(), entity) && str_eq(
                    e.2.as_str(),
                    key,
                ) {
                    found = Some(i);
                }
            }
            i = i + 1;
        }
        match found {
            Some(f) => {
                proof {
                    lemma_first_index_unique(old_entries, p, f as int);
                }
                if version < self.latest[f].3 {
                    return Admission::Stale;
                }
                let entry = (owned(store), owned(entity), owned(key), version);
                self.latest.set(f, entry);
                proof {
                    let n = self.latest@;
                    lemma_first_index_unique(n, p, f as int);
                    assert forall|other: EntityId| other != id implies latest_of(n, other)
                        == latest_of(old_entries, other) by {
                        let q = |e: (String, String, String, u64)| entry_id(e) == other;
                        lemma_first_index(old_entries, q);
                        lemma_first_index(n, q);
                        let a = first_index(old_entries, q);
                        assert(!q(n[f as int]));
                        assert(!q(old_entries[f as int]));
                        if a >= 0 {
                            assert(n[a] == old_entries[a]);
                            assert forall|j: int| 0 <= j < a implies !q(#[trigger] n[j]) by {
                                if j != f {
                                    assert(n[j] == old_entries[j]);
                                }
                            }
                            lemma_first_index_unique(n, q, a);
                        } else {
                            assert forall|j: int| 0 <= j < n.len() implies !q(#[trigger] n[j]) by {
                                if j != f {
                                    assert(n[j] == old_entries[j]);
                                }
                            }
                            lemma_first_index_unique(n, q, n.len() as int);
                        }
                    }
                }
            },
            None => {
                proof {
                    lemma_first_index_unique(old_entries, p, old_entries.len() as int);
                }
                let entry = (owned(store), owned(entity), owned(key), version);
                self.latest.push(entry);
                proof {
                    let n = self.latest@;
                    assert(n[old_entries.len() as int] == entry);
                    assert forall|j: int| 0 <= j < old_entries.len() implies !p(#[trigger] n[j]) by {
                        assert(n[j] == old_entries[j]);
                    }
                    lemma_first_index_unique(n, p, old_entries.len() as int);
                    assert forall|other: EntityId| other != id implies latest_of(n, other)
                        == latest_of(old_entries, other) by {
                        let q = |e: (String, String, String, u64)| entry_id(e) == other;
                        lemma_first_index(old_entries, q);
                        let a = first_index(old_entries, q);
                        assert(!q(n[old_entries.len() as int]));
                        if a >= 0 {
                            assert(n[a] == old_entries[a]);
                            assert forall|j: int| 0 <= j < a implies !q(#[trigger] n[j]) by {
                                assert(n[j] == old_entries[j]);
                            }
                            lemma_first_index_unique(n, q, a);
                        } else {
                            assert forall|j: int| 0 <= j < n.len() implies !q(#[trigger] n[j]) by {
                                if j < old_entries.len() {
                                    assert(n[j] == old_entries[j]);
                                }
                            }
                            lemma_first_index_unique(n, q, n.len() as int);
                        }
                    }
                }
            },
        }
        let ghost seen0 = views(self.seen@);
        if self.seen.len() >= self.capacity {
            self.seen = Vec::new();
        }
        let ghost seen1 = views(self.seen@);
        assert(seen1 =~= if seen0.len() >= self.capacity { Seq::<Seq<char>>::empty() } else { seen0 });
        let mut k: usize = 0;
        let mut known = false;
        while k < self.seen.len()
            invariant
                seen1 == views(self.seen@),
                k <= seen1.len(),
                known == exists|j: int| 0 <= j < k && seen1[j] == event_id@,
            decreases seen1.len() - k,
        {
            assert(seen1[k as int] == self.seen@[k as int]@);
            if str_eq(self.seen[k].as_str(), event_id) {
                known = true;
            }
            k = k + 1;
        }
        assert(known == seen1.contains(event_id@));
        if known {
            return Admission::Duplicate;
        }
        let ghost before = self.seen@;
        self.seen.push(owned(event_id));
        assert(views(self.seen@) =~= seen1.push(event_id@));
        assert(views(self.seen@)[seen1.len() as int] == event_id@);
        assert(seen0.len() >= self.capacity ==> seen1.push(event_id@) =~= seq![event_id@]);
        Admission::Process
    }
}

} // verus!
