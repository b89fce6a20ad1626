//! Projection definitions and their registry.
use vstd::prelude::*;
use crate::seqs::{first_index, lemma_first_index_unique};
use crate::text::{concat3, owned, str_eq, views};

verus! {

broadcast use vstd::seq_lib::group_seq_properties;

/// A projection: a cached view built from the events of one or two stores.
#[derive(Debug, Clone)]
pub struct ProjectionConfig {
    pub name: String,
    pub pattern: ProjectionPattern,
    pub source_stores: Vec<String>,
    pub target_key: String,
    pub ttl_seconds: u64,
    pub copy_fields: Option<Vec<CopyField>>,
}

/// Fields that a pattern-M projection copies from one source entity.
#[derive(Debug, Clone)]
pub struct CopyField {
    pub source_store: String,
    pub source_entity: String,
    pub fields: Vec<String>,
}

/// R: reference and lookup across stores; M: materialized copies of fields.
#[derive(Debug, Clone, Copy, PartialEq, Eq, Structural)]
pub enum ProjectionPattern {
    R,
    M,
}

/// The configured projections, in configuration order.
#[derive(Debug, Clone)]
pub struct ProjectionRegistry {
    projections: Vec<ProjectionConfig>,
}

impl ProjectionPattern {
    /// `"R"` or `"M"`.
    pub fn as_str(&self) -> (r: &str)
        ensures
            r@ == (match *self {
                ProjectionPattern::R => "R"@,
                ProjectionPattern::M => "M"@,
            }),
    {
        match self {
            ProjectionPattern::R => "R",
            ProjectionPattern::M => "M",
        }
    }
}

/// The projection reads from `store`.
pub open spec fn reads_store(p: ProjectionConfig, store: Seq<char>) -> bool {
    exists|i: int| 0 <= i < p.source_stores@.len() && p.source_stores@[i]@ == store
}

pub open spec fn deref_all(s: Seq<&ProjectionConfig>) -> Seq<ProjectionConfig> {
    s.map_values(|p: &ProjectionConfig| *p)
}

pub open spec fn in_store(store: Seq<char>) -> spec_fn(ProjectionConfig) -> bool {
    |p: ProjectionConfig| reads_store(p, store)
}

pub open spec fn has_pattern(pat: ProjectionPattern) -> spec_fn(ProjectionConfig) -> bool {
    |p: ProjectionConfig| p.pattern == pat
}

pub open spec fn named(name: Seq<char>) -> spec_fn(ProjectionConfig) -> bool {
    |p: ProjectionConfig| p.name@ == name
}

pub open spec fn prefixed(name: Seq<char>, msg: Seq<char>) -> Seq<char> {
    "projection '"@ + name + msg
}

pub open spec fn one_if(cond: bool, msg: Seq<char>) -> Seq<Seq<char>> {
    if cond {
        seq![msg]
    } else {
        Seq::empty()
    }
}

/// The problems of one `copy_fields` entry.
pub open spec fn copy_field_errors(name: Seq<char>, f: CopyField) -> Seq<Seq<char>> {
    one_if(
        f.source_store@.len() == 0,
        prefixed(name, "': copy_field source_store must not be empty"@),
    ) + one_if(
        f.fields@.len() == 0,
        prefixed(name, "': copy_field must specify at least one field"@),
    )
}

pub open spec fn copy_fields_errors(name: Seq<char>, fs: Seq<CopyField>) -> Seq<Seq<char>>
    decreases fs.len(),
{
    if fs.len() == 0 {
        Seq::empty()
    } else {
        copy_fields_errors(name, fs.drop_last()) + copy_field_errors(name, fs.last())
    }
}

/// The problems of one projection, in the order they are reported.
pub open spec fn projection_errors(p: ProjectionConfig) -> Seq<Seq<char>> {
    projection_field_errors(p) + match p.copy_fields {
        Some(fs) => copy_fields_errors(p.name@, fs@),
        None => Seq::empty(),
    }
}

/// The problems of all projections, projection by projection.
pub open spec fn registry_errors(ps: Seq<ProjectionConfig>) -> Seq<Seq<char>>
    decreases ps.len(),
{
    if ps.len() == 0 {
        Seq::empty()
    } else {
        registry_errors(ps.drop_last()) + projection_errors(ps.last())
    }
}

fn push_prefixed(errors: &mut Vec<String>, name: &str, msg: &str)
    ensures
        views(final(errors)@) == views(old(errors)@).push(prefixed(name@, msg@)),
{
    let ghost before = errors@;
    errors.push(concat3("projection '", name, msg));
    assert(views(errors@) =~= views(before).push(prefixed(name@, msg@)));
}

/// Whether `list` holds a string equal to `s`.
pub fn contains_str(list: &[String], s: &str) -> (r: bool)
    ensures
        r == exists|i: int| 0 <= i < list@.len() && list@[i]@ == s@,
{
    let n = list.len();
    let mut i: usize = 0;
    while i < n
        invariant
            n == list@.len(),
            i <= n,
            forall|j: int| 0 <= j < i ==> list@[j]@ != s@,
        decreases n - i,
    {
        if str_eq(list[i].as_str(), s) {
            return true;
        }
        i = i + 1;
    }
    false
}

fn push_copy_field_errors(errors: &mut Vec<String>, name: &str, fields: &Vec<CopyField>)
    ensures
        views(final(errors)@) == views(old(errors)@) + copy_fields_errors(name@, fields@),
{
    let ghost mid = views(errors@);
    let m = fields.len();
    let mut k: usize = 0;
    while k < m
        invariant
            m == fields@.len(),
            k <= m,
            views(errors@) == mid + copy_fields_errors(name@, fields@.take(k as int)),
        decreases m - k,
    {
        let field = &fields[k];
        let ghost b = views(errors@);
        if field.source_store.as_str().is_empty() {
            push_prefixed(errors, name, "': copy_field source_store must not be empty");
        }
        if field.fields.len() == 0 {
            push_prefixed(errors, name, "': copy_field must specify at least one field");
        }
        proof {
            assert(views(errors@) =~= b + copy_field_errors(name@, *field));
            assert(fields@.take(k + 1).drop_last() =~= fields@.take(k as int));
        }
        k = k + 1;
    }
    assert(fields@.take(m as int) =~= fields@);
}

pub open spec fn projection_field_errors(p: ProjectionConfig) -> Seq<Seq<char>> {
    one_if(p.name@.len() == 0, "projection name must not be empty"@) + one_if(
        p.source_stores@.len() == 0,
        prefixed(p.name@, "': at least one source_store required"@),
    ) + one_if(
        p.source_stores@.len() > 2,
        prefixed(p.name@, "': max 2 source_stores allowed"@),
    ) + one_if(p.target_key@.len() == 0, prefixed(p.name@, "': target_key must not be empty"@))
        + one_if(p.ttl_seconds == 0, prefixed(p.name@, "': ttl_seconds must be positive"@))
        + one_if(
        p.pattern == ProjectionPattern::M && p.copy_fields is None,
        prefixed(p.name@, "': pattern M requires copy_fields"@),
    )
}

fn push_projection_field_errors(errors: &mut Vec<String>, proj: &ProjectionConfig)
    ensures
        views(final(errors)@) == views(old(errors)@) + projection_field_errors(*proj),
{
    let ghost before = views(errors@);
    if proj.name.as_str().is_empty() {
        errors.push(owned("projection name must not be empty"));
    }
    let ghost s1 = views(errors@);
    if proj.source_stores.len() == 0 {
        push_prefixed(errors, proj.name.as_str(), "': at least one source_store required");
    }
    if proj.source_stores.len() > 2 {
        push_prefixed(errors, proj.name.as_str(), "': max 2 source_stores allowed");
    }
    let ghost s2 = views(errors@);
    if proj.target_key.as_str().is_empty() {
        push_prefixed(errors, proj.name.as_str(), "': target_key must not be empty");
    }
    if proj.ttl_seconds == 0 {
        push_prefixed(errors, proj.name.as_str(), "': ttl_seconds must be positive");
    }
    let ghost s3 = views(errors@);
    if proj.pattern == ProjectionPattern::M && proj.copy_fields.is_none() {
        push_prefixed(errors, proj.name.as_str(), "': pattern M requires copy_fields");
    }
    assert(s1 =~= before + one_if(proj.name@.len() == 0, "projection name must not be empty"@));
    assert(views(errors@) =~= before + projection_field_errors(*proj));
}

fn push_projection_errors(errors: &mut Vec<String>, proj: &ProjectionConfig)
    ensures
        views(final(errors)@) == views(old(errors)@) + projection_errors(*proj),
{
    let ghost before = views(errors@);
    push_projection_field_errors(errors, proj);
    match &proj.copy_fields {
        Some(fields) => push_copy_field_errors(errors, proj.name.as_str(), fields),
        None => {},
    }
    assert(views(errors@) =~= before + projection_errors(*proj));
}

impl ProjectionRegistry {
    pub closed spec fn spec_projections(&self) -> Seq<ProjectionConfig> {
        self.projections@
    }

    /// A registry of the given projections.
    pub fn new(projections: Vec<ProjectionConfig>) -> (r: Self)
        ensures
            r.spec_projections() == projections@,
    {
        ProjectionRegistry { projections }
    }

    /// How many projections there are.
    pub fn len(&self) -> (r: usize)
        ensures
            r == self.spec_projections().len(),
    {
        self.projections.len()
    }

    /// Whether there are no projections.
    pub fn is_empty(&self) -> (r: bool)
        ensures
            r == (self.spec_projections().len() == 0),
    {
        self.projections.len() == 0
    }

    /// All projections, in order.
    pub fn projections(&self) -> (r: &[ProjectionConfig])
        ensures
            r@ == self.spec_projections(),
    {
        self.projections.as_slice()
    }

    /// The first projection called `name`.
    pub fn get(&self, name: &str) -> (r: Option<&ProjectionConfig>)
        ensures
            ({
                let k = first_index(self.spec_projections(), named(name@));
                match r {
                    Some(p) => k >= 0 && *p == self.spec_projections()[k],
                    None => k < 0,
                }
            }),
    {
        let n = self.projections.len();
        let mut i: usize = 0;
        while i < n
            invariant
                n == self.projections@.len(),
                i <= n,
                forall|j: int| 0 <= j < i ==> !named(name@)(#[trigger] self.projections@[j]),
            decreases n - i,
        {
            if str_eq(self.projections[i].name.as_str(), name) {
                proof {
                    lemma_first_index_unique(self.projections@, named(name@), i as int);
                }
                return Some(&self.projections[i]);
            }
            i = i + 1;
        }
        proof {
            lemma_first_index_unique(self.projections@, named(name@), n as int);
        }
        None
    }

    /// The projections that read from `store`, in order.
    pub fn for_store(&self, store: &str) -> (r: Vec<&ProjectionConfig>)
        ensures
            deref_all(r@) == self.spec_projections().filter(in_store(store@)),
    {
        let mut out: Vec<&ProjectionConfig> = Vec::new();
        let n = self.projections.len();
        let mut i: usize = 0;
        while i < n
            invariant
                n == self.projections@.len(),
                i <= n,
                deref_all(out@) == self.projections@.take(i as int).filter(in_store(store@)),
            decreases n - i,
        {
            let p = &self.projections[i];
            let ghost before = out@;
            if contains_str(p.source_stores.as_slice(), store) {
                out.push(p);
            }
            proof {
                assert(self.projections@.take(i + 1) =~= self.projections@.take(i as int).push(*p));
                self.projections@.take(i as int).lemma_filter_push(*p, in_store(store@));
                assert(deref_all(out@) =~= (if in_store(store@)(*p) {
                    deref_all(before).push(*p)
                } else {
                    deref_all(before)
                }));
            }
            i = i + 1;
        }
        assert(self.projections@.take(n as int) =~= self.projections@);
        out
    }

    fn with_pattern(&self, pat: ProjectionPattern) -> (r: Vec<&ProjectionConfig>)
        ensures
            deref_all(r@) == self.spec_projections().filter(has_pattern(pat)),
    {
        let mut out: Vec<&ProjectionConfig> = Vec::new();
        let n = self.projections.len();
        let mut i: usize = 0;
        while i < n
            invariant
                n == self.projections@.len(),
                i <= n,
                deref_all(out@) == self.projections@.take(i as int).filter(has_pattern(pat)),
            decreases n - i,
        {
            let p = &self.projections[i];
            let ghost before = out@;
            if p.pattern == pat {
                out.push(p);
            }
            proof {
                assert(self.projections@.take(i + 1) =~= self.projections@.take(i as int).push(*p));
                self.projections@.take(i as int).lemma_filter_push(*p, has_pattern(pat));
                assert(deref_all(out@) =~= (if has_pattern(pat)(*p) {
                    deref_all(before).push(*p)
                } else {
                    deref_all(before)
                }));
            }
            i = i + 1;
        }
        assert(self.projections@.take(n as int) =~= self.projections@);
        out
    }

    /// The pattern-R projections, in order.
    pub fn pattern_r_projections(&self) -> (r: Vec<&ProjectionConfig>)
        ensures
            deref_all(r@) == self.spec_projections().filter(has_pattern(ProjectionPattern::R)),
    {
        self.with_pattern(ProjectionPattern::R)
    }

    /// The pattern-M projections, in order.
    pub fn pattern_m_projections(&self) -> (r: Vec<&ProjectionConfig>)
        ensures
            deref_all(r@) == self.spec_projections().filter(has_pattern(ProjectionPattern::M)),
    {
        self.with_pattern(ProjectionPattern::M)
    }

    /// Checks every projection; `Ok` exactly when none has a problem, else every problem.
    pub fn validate(&self) -> (r: Result<(), Vec<String>>)
        ensures
            match r {
                Ok(()) => registry_errors(self.spec_projections()).len() == 0,
                Err(e) => views(e@) == registry_errors(self.spec_projections()) && e@.len() > 0,
            },
    {
        let mut errors: Vec<String> = Vec::new();
        let n = self.projections.len();
        let mut i: usize = 0;
        while i < n
            invariant
                n == self.projections@.len(),
                i <= n,
                views(errors@) == registry_errors(self.projections@.take(i as int)),
            decreases n - i,
        {
            let proj = &self.projections[i];
            let ghost before = views(errors@);
            push_projection_errors(&mut errors, proj);
            proof {
                assert(views(errors@) =~= before + projection_errors(*proj));
                assert(self.projections@.take(i + 1).drop_last() =~= self.projections@.take(
                    i as int,
                ));
            }
            i = i + 1;
        }
        assert(self.projections@.take(n as int) =~= self.projections@);
        if errors.len() == 0 {
            Ok(())
        } else {
            Err(errors)
        }
    }
}

} // verus!
