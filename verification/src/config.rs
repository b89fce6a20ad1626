//! Store configuration and its validation.
use vstd::prelude::*;
use crate::seqs::{first_index, lemma_first_index, lemma_first_index_unique};
use crate::text::{
    concat, concat3, contains_char, contains_whitespace, has_char, has_ws, owned, str_eq, views,
};

verus! {

/// The configuration of one store: its database, topics and writer settings.
#[derive(Debug, Clone)]
pub struct StoreConfig {
    pub name: String,
    pub label: Option<String>,
    pub db_path: String,
    pub topic_cmd: String,
    pub topic_evt: String,
    pub mqtt_broker: String,
    pub mqtt_client_id: String,
    pub batch_size: usize,
    pub batch_interval_ms: u64,
    pub litestream_config: Option<String>,
}

/// The set of configured stores.
#[derive(Debug, Clone)]
pub struct Config {
    pub stores: Vec<StoreConfig>,
}

/// The command topic of a store: the configured one, or `ixmati/cmd/<name>` when empty.
pub open spec fn spec_topic_cmd(c: StoreConfig) -> Seq<char> {
    if c.topic_cmd@.len() == 0 {
        "ixmati/cmd/"@ + c.name@
    } else {
        c.topic_cmd@
    }
}

/// The event topic of a store: the configured one, or `ixmati/evt/<name>` when empty.
pub open spec fn spec_topic_evt(c: StoreConfig) -> Seq<char> {
    if c.topic_evt@.len() == 0 {
        "ixmati/evt/"@ + c.name@
    } else {
        c.topic_evt@
    }
}

pub open spec fn msg_name_slash(name: Seq<char>) -> Seq<char> {
    "store '"@ + name + "': name must not contain '/'"@
}

pub open spec fn msg_name_whitespace(name: Seq<char>) -> Seq<char> {
    "store '"@ + name + "': name must not contain whitespace"@
}

/// The problems of a store name, in the order they are reported.
pub open spec fn name_errors(name: Seq<char>) -> Seq<Seq<char>> {
    (if has_char(name, '/') {
        seq![msg_name_slash(name)]
    } else {
        Seq::<Seq<char>>::empty()
    }) + (if has_ws(name) {
        seq![msg_name_whitespace(name)]
    } else {
        Seq::<Seq<char>>::empty()
    })
}

pub open spec fn msg_empty_name() -> Seq<char> {
    "store name must not be empty"@
}

pub open spec fn msg_empty_db_path(name: Seq<char>) -> Seq<char> {
    "store '"@ + name + "': db_path must not be empty"@
}

pub open spec fn msg_batch_size(name: Seq<char>) -> Seq<char> {
    "store '"@ + name + "': batch_size must be positive"@
}

/// The problems of one store's fields other than its name's characters.
pub open spec fn store_field_errors(c: StoreConfig) -> Seq<Seq<char>> {
    (if c.name@.len() == 0 {
        seq![msg_empty_name()]
    } else {
        Seq::<Seq<char>>::empty()
    }) + (if c.db_path@.len() == 0 {
        seq![msg_empty_db_path(c.name@)]
    } else {
        Seq::<Seq<char>>::empty()
    }) + (if c.batch_size == 0 {
        seq![msg_batch_size(c.name@)]
    } else {
        Seq::<Seq<char>>::empty()
    })
}

/// The field problems of all stores, store by store.
pub open spec fn all_field_errors(s: Seq<StoreConfig>) -> Seq<Seq<char>>
    decreases s.len(),
{
    if s.len() == 0 {
        Seq::empty()
    } else {
        all_field_errors(s.drop_last()) + store_field_errors(s.last())
    }
}

/// Two stores share a name.
pub open spec fn has_duplicate_names(s: Seq<StoreConfig>) -> bool {
    exists|i: int, j: int| 0 <= i < j < s.len() && s[i].name@ == s[j].name@
}

/// Every problem of a configuration, in the order they are reported.
pub open spec fn config_errors(s: Seq<StoreConfig>) -> Seq<Seq<char>> {
    (if s.len() == 0 {
        seq!["at least one store required"@]
    } else {
        Seq::<Seq<char>>::empty()
    }) + (if has_duplicate_names(s) {
        seq!["duplicate store names"@]
    } else {
        Seq::<Seq<char>>::empty()
    }) + all_field_errors(s)
}

pub open spec fn bad_name(c: StoreConfig) -> bool {
    name_errors(c.name@).len() > 0
}

/// The outcome of validating a configuration: the name problems of the first
/// store whose name is malformed end validation at once; otherwise every problem.
pub open spec fn spec_validate(s: Seq<StoreConfig>) -> Result<(), Seq<Seq<char>>> {
    let k = first_index(s, |c: StoreConfig| bad_name(c));
    if k >= 0 {
        Err(name_errors(s[k].name@))
    } else if config_errors(s).len() == 0 {
        Ok(())
    } else {
        Err(config_errors(s))
    }
}

/// Whether two names in `names` are equal.
fn has_duplicate(s: &Vec<StoreConfig>) -> (r: bool)
    ensures
        r == has_duplicate_names(s@),
{
    let n = s.len();
    let mut j: usize = 0;
    while j < n
        invariant
            n == s@.len(),
            j <= n,
            forall|a: int, b: int| 0 <= a < b < j ==> s@[a].name@ != s@[b].name@,
        decreases n - j,
    {
        let mut i: usize = 0;
        while i < j
            invariant
                n == s@.len(),
                j < n,
                i <= j,
                forall|a: int, b: int| 0 <= a < b < j ==> s@[a].name@ != s@[b].name@,
                forall|a: int| 0 <= a < i ==> s@[a].name@ != s@[j as int].name@,
            decreases j - i,
        {
            if str_eq(s[i].name.as_str(), s[j].name.as_str()) {
                return true;
            }
            i = i + 1;
        }
        j = j + 1;
    }
    false
}

impl Config {
    /// Checks the configuration; see `spec_validate` for what is reported.
    pub fn validate(&self) -> (r: Result<(), Vec<String>>)
        ensures
            match r {
                Ok(()) => spec_validate(self.stores@) == Ok::<(), Seq<Seq<char>>>(()),
                Err(e) => spec_validate(self.stores@) == Err::<(), Seq<Seq<char>>>(views(e@)),
            },
    {
        let mut errors: Vec<String> = Vec::new();
        if self.stores.len() == 0 {
            errors.push(owned("at least one store required"));
        }
        if has_duplicate(&self.stores) {
            errors.push(owned("duplicate store names"));
        }
        let ghost head = views(errors@);
        let n = self.stores.len();
        let mut i: usize = 0;
        while i < n
            invariant
                n == self.stores@.len(),
                i <= n,
                views(errors@) == head + all_field_errors(self.stores@.take(i as int)),
                forall|j: int| 0 <= j < i ==> !bad_name(#[trigger] self.stores@[j]),
            decreases n - i,
        {
            let store = &self.stores[i];
            let ghost before = views(errors@);
            if store.name.as_str().is_empty() {
                errors.push(owned("store name must not be empty"));
            }
            if store.db_path.as_str().is_empty() {
                errors.push(concat3("store '", store.name.as_str(), "': db_path must not be empty"));
            }
            if store.batch_size == 0 {
                errors.push(concat3("store '", store.name.as_str(), "': batch_size must be positive"));
            }
            proof {
                assert(views(errors@) =~= before + store_field_errors(*store));
                assert(self.stores@.take(i + 1).drop_last() =~= self.stores@.take(i as int));
                assert(all_field_errors(self.stores@.take(i + 1)) == all_field_errors(
                    self.stores@.take(i as int),
                ) + store_field_errors(*store));
            }
            match store.validate_name() {
                Err(name_errs) => {
                    proof {
                        lemma_first_index_unique(
                            self.stores@,
                            |c: StoreConfig| bad_name(c),
                            i as int,
                        );
                    }
                    return Err(name_errs);
                },
                Ok(()) => {},
            }
            i = i + 1;
        }
        proof {
            lemma_first_index_unique(self.stores@, |c: StoreConfig| bad_name(c), n as int);
            assert(self.stores@.take(n as int) =~= self.stores@);
            assert(views(errors@) =~= config_errors(self.stores@));
        }
        if errors.len() == 0 {
            Ok(())
        } else {
            Err(errors)
        }
    }

    /// Whether exactly one store is configured.
    pub fn is_single_store(&self) -> (r: bool)
        ensures
            r == (self.stores@.len() == 1),
    {
        self.stores.len() == 1
    }
}

impl StoreConfig {
    /// The command topic; see `spec_topic_cmd`.
    pub fn topic_cmd(&self) -> (r: String)
        ensures
            r@ == spec_topic_cmd(*self),
    {
        if self.topic_cmd.as_str().is_empty() {
            concat("ixmati/cmd/", self.name.as_str())
        } else {
            self.topic_cmd.clone()
        }
    }

    /// The event topic; see `spec_topic_evt`.
    pub fn topic_evt(&self) -> (r: String)
        ensures
            r@ == spec_topic_evt(*self),
    {
        if self.topic_evt.as_str().is_empty() {
            concat("ixmati/evt/", self.name.as_str())
        } else {
            self.topic_evt.clone()
        }
    }

    /// The problems of the store's name: a `/` or white space in it.
    pub fn validate_name(&self) -> (r: Result<(), Vec<String>>)
        ensures
            match r {
                Ok(()) => name_errors(self.name@).len() == 0,
                Err(e) => views(e@) == name_errors(self.name@) && e@.len() > 0,
            },
    {
        let mut errors: Vec<String> = Vec::new();
        if contains_char(self.name.as_str(), '/') {
            errors.push(concat3("store '", self.name.as_str(), "': name must not contain '/'"));
        }
        if contains_whitespace(self.name.as_str()) {
            errors.push(
                concat3("store '", self.name.as_str(), "': name must not contain whitespace"),
            );
        }
        assert(views(errors@) =~= name_errors(self.name@));
        if errors.len() == 0 {
            Ok(())
        } else {
            Err(errors)
        }
    }
}

/// The field problems of the stores are none exactly when every store has a
/// name, a database path and a positive batch size.
proof fn lemma_no_field_errors(s: Seq<StoreConfig>)
    ensures
        (all_field_errors(s).len() == 0) == forall|k: int|
            0 <= k < s.len() ==> (#[trigger] s[k]).name@.len() > 0 && s[k].db_path@.len() > 0
                && s[k].batch_size > 0,
    decreases s.len(),
{
    if s.len() > 0 {
        let d = s.drop_last();
        let c = s.last();
        lemma_no_field_errors(d);
        assert(all_field_errors(s) == all_field_errors(d) + store_field_errors(c));
        assert((store_field_errors(c).len() == 0) == (c.name@.len() > 0 && c.db_path@.len() > 0
            && c.batch_size > 0));
        let all_s = forall|k: int|
            0 <= k < s.len() ==> (#[trigger] s[k]).name@.len() > 0 && s[k].db_path@.len() > 0
                && s[k].batch_size > 0;
        let all_d = forall|k: int|
            0 <= k < d.len() ==> (#[trigger] d[k]).name@.len() > 0 && d[k].db_path@.len() > 0
                && d[k].batch_size > 0;
        if all_s {
            assert forall|k: int| 0 <= k < d.len() implies (#[trigger] d[k]).name@.len() > 0
                && d[k].db_path@.len() > 0 && d[k].batch_size > 0 by {
                assert(d[k] == s[k]);
            }
            assert(s[s.len() - 1] == c);
        }
        if all_d && c.name@.len() > 0 && c.db_path@.len() > 0 && c.batch_size > 0 {
            assert forall|k: int| 0 <= k < s.len() implies (#[trigger] s[k]).name@.len() > 0
                && s[k].db_path@.len() > 0 && s[k].batch_size > 0 by {
                if k < s.len() - 1 {
                    assert(d[k] == s[k]);
                }
            }
        }
    }
}

/// A store name is malformed exactly when it holds '/' or white space.
proof fn lemma_bad_name(c: StoreConfig)
    ensures
        bad_name(c) == (has_char(c.name@, '/') || has_ws(c.name@)),
{
}

/// A configuration in which two stores share a name never validates; when no
/// store name holds '/' or white space (which ends validation first), the
/// errors include "duplicate store names".
pub proof fn lemma_duplicate_names_refused(s: Seq<StoreConfig>, i: int, j: int)
    requires
        0 <= i < j < s.len(),
        s[i].name@ == s[j].name@,
    ensures
        spec_validate(s) is Err,
        (forall|k: int|
            0 <= k < s.len() ==> !has_char((#[trigger] s[k]).name@, '/') && !has_ws(s[k].name@))
            ==> (spec_validate(s) matches Err(e) && e.contains("duplicate store names"@)),
{
    assert(has_duplicate_names(s));
    let p = |c: StoreConfig| bad_name(c);
    lemma_first_index(s, p);
    let k = first_index(s, p);
    if k >= 0 {
        assert(bad_name(s[k]));
    } else {
        let e = config_errors(s);
        let head = if s.len() == 0 {
            seq!["at least one store required"@]
        } else {
            Seq::<Seq<char>>::empty()
        };
        assert(e == head + seq!["duplicate store names"@] + all_field_errors(s));
        assert(e[head.len() as int] == "duplicate store names"@);
    }
    if forall|k: int|
        0 <= k < s.len() ==> !has_char((#[trigger] s[k]).name@, '/') && !has_ws(s[k].name@) {
        assert forall|m: int| 0 <= m < s.len() implies !p(#[trigger] s[m]) by {
            lemma_bad_name(s[m]);
        }
        assert(k < 0);
    }
}

/// A configuration validates exactly when it has a store, no two stores share
/// a name, and every store has a non-empty name without '/' or white space, a
/// non-empty database path and a positive batch size.
pub proof fn lemma_validate_ok(s: Seq<StoreConfig>)
    ensures
        (spec_validate(s) is Ok) == (s.len() > 0 && (forall|i: int, j: int|
            0 <= i < j < s.len() ==> (#[trigger] s[i]).name@ != (#[trigger] s[j]).name@) && (forall|k: int|
            0 <= k < s.len() ==> (#[trigger] s[k]).name@.len() > 0 && !has_char(s[k].name@, '/')
                && !has_ws(s[k].name@) && s[k].db_path@.len() > 0 && s[k].batch_size > 0)),
{
    let p = |c: StoreConfig| bad_name(c);
    lemma_first_index(s, p);
    lemma_no_field_errors(s);
    let k = first_index(s, p);
    if k >= 0 {
        lemma_bad_name(s[k]);
        assert(!(!has_char(s[k].name@, '/') && !has_ws(s[k].name@)));
    } else {
        assert forall|m: int| 0 <= m < s.len() implies !has_char((#[trigger] s[m]).name@, '/')
            && !has_ws(s[m].name@) by {
            assert(!p(s[m]));
            lemma_bad_name(s[m]);
        }
        let head = if s.len() == 0 {
            seq!["at least one store required"@]
        } else {
            Seq::<Seq<char>>::empty()
        };
        let dup = if has_duplicate_names(s) {
            seq!["duplicate store names"@]
        } else {
            Seq::<Seq<char>>::empty()
        };
        assert(config_errors(s) == head + dup + all_field_errors(s));
        assert((config_errors(s).len() == 0) == (head.len() == 0 && dup.len() == 0
            && all_field_errors(s).len() == 0));
        if has_duplicate_names(s) {
            let (a, b) = choose|a: int, b: int| 0 <= a < b < s.len() && s[a].name@ == s[b].name@;
            assert(s[a].name@ == s[b].name@);
        }
    }
}

} // verus!
