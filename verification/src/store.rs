//! The registry of stores that a process serves.
use vstd::prelude::*;
use crate::config::{spec_topic_cmd, spec_topic_evt, StoreConfig};
use crate::seqs::{first_index, lemma_first_index_unique};
use crate::text::{concat, concat3, join2, str_eq, views};

verus! {

/// How stores are laid out over processes.
#[derive(Debug, Clone, Copy, PartialEq, Eq, Structural)]
pub enum Topology {
    SingleProcess,
    PodPerStore,
}

/// One store and its configuration.
#[derive(Debug)]
pub struct Store {
    pub config: StoreConfig,
}

/// The stores of a deployment, in configuration order.
#[derive(Debug)]
pub struct StoreRegistry {
    stores: Vec<Store>,
    topology: Topology,
}

/// Index of the first store named `name`, or -1.
pub open spec fn store_index(s: Seq<Store>, name: Seq<char>) -> int {
    first_index(s, |st: Store| st.config.name@ == name)
}

/// `ixmati/<kind>/<store>/<entity>/<id>`.
pub open spec fn entity_topic_spec(kind: Seq<char>, store: Seq<char>, entity: Seq<char>, id: Seq<char>) -> Seq<char> {
    "ixmati/"@ + kind + "/"@ + store + "/"@ + entity + "/"@ + id
}

impl StoreRegistry {
    pub closed spec fn spec_stores(&self) -> Seq<Store> {
        self.stores@
    }

    pub closed spec fn spec_topology(&self) -> Topology {
        self.topology
    }

    /// A registry of the given stores, in the given order.
    pub fn new(configs: Vec<StoreConfig>, topology: Topology) -> (r: Self)
        ensures
            r.spec_stores().len() == configs@.len(),
            forall|i: int|
                0 <= i < configs@.len() ==> (#[trigger] r.spec_stores()[i]).config == configs@[i],
            r.spec_topology() == topology,
    {
        let mut stores: Vec<Store> = Vec::new();
        let mut configs = configs;
        let ghost original = configs@;
        while configs.len() > 0
            invariant
                stores@.len() + configs@.len() == original.len(),
                configs@ == original.skip(stores@.len() as int),
                forall|i: int| 0 <= i < stores@.len() ==> (#[trigger] stores@[i]).config == original[i],
            decreases configs@.len(),
        {
            let c = configs.remove(0);
            stores.push(Store::new(c));
            assert(configs@ =~= original.skip(stores@.len() as int));
        }
        StoreRegistry { stores, topology }
    }

    /// How many stores there are.
    pub fn len(&self) -> (r: usize)
        ensures
            r == self.spec_stores().len(),
    {
        self.stores.len()
    }

    /// Whether there are no stores.
    pub fn is_empty(&self) -> (r: bool)
        ensures
            r == (self.spec_stores().len() == 0),
    {
        self.stores.len() == 0
    }

    /// Whether there is exactly one store.
    pub fn is_single_store(&self) -> (r: bool)
        ensures
            r == (self.spec_stores().len() == 1),
    {
        self.stores.len() == 1
    }

    /// The deployment topology.
    pub fn topology(&self) -> (r: Topology)
        ensures
            r == self.spec_topology(),
    {
        self.topology
    }

    /// The stores, in configuration order.
    pub fn stores(&self) -> (r: &[Store])
        ensures
            r@ == self.spec_stores(),
    {
        self.stores.as_slice()
    }

    /// The first store named `name`.
    pub fn get(&self, name: &str) -> (r: Option<&Store>)
        ensures
            match r {
                Some(st) => store_index(self.spec_stores(), name@) >= 0 && *st
                    == self.spec_stores()[store_index(self.spec_stores(), name@)],
                None => store_index(self.spec_stores(), name@) < 0,
            },
    {
        let n = self.stores.len();
        let mut i: usize = 0;
        while i < n
            invariant
                n == self.stores@.len(),
                i <= n,
                forall|j: int| 0 <= j < i ==> (#[trigger] self.stores@[j]).config.name@ != name@,
            decreases n - i,
        {
            if str_eq(self.stores[i].config.name.as_str(), name) {
                proof {
                    lemma_first_index_unique(
                        self.stores@,
                        |st: Store| st.config.name@ == name@,
                        i as int,
                    );
                }
                return Some(&self.stores[i]);
            }
            i = i + 1;
        }
        proof {
            lemma_first_index_unique(self.stores@, |st: Store| st.config.name@ == name@, n as int);
        }
        None
    }

    /// Whether a store named `name` is registered.
    pub fn owns(&self, name: &str) -> (r: bool)
        ensures
            r == (store_index(self.spec_stores(), name@) >= 0),
    {
        self.get(name).is_some()
    }

    /// Events flow between stores only when there is more than one.
    pub fn should_activate_events(&self) -> (r: bool)
        ensures
            r == (self.spec_stores().len() > 1),
    {
        self.stores.len() > 1
    }

    /// The outbox runs exactly when events do.
    pub fn should_activate_outbox(&self) -> (r: bool)
        ensures
            r == (self.spec_stores().len() > 1),
    {
        self.should_activate_events()
    }

    /// Projectors run exactly when events do.
    pub fn should_activate_projectors(&self) -> (r: bool)
        ensures
            r == (self.spec_stores().len() > 1),
    {
        self.should_activate_events()
    }

    /// The store whose writer handles `store_name`.
    pub fn writer_for(&self, store_name: &str) -> (r: Option<&Store>)
        ensures
            match r {
                Some(st) => store_index(self.spec_stores(), store_name@) >= 0 && *st
                    == self.spec_stores()[store_index(self.spec_stores(), store_name@)],
                None => store_index(self.spec_stores(), store_name@) < 0,
            },
    {
        self.get(store_name)
    }

    /// The command topic of every store, in order.
    pub fn topics_cmd(&self) -> (r: Vec<String>)
        ensures
            r@.len() == self.spec_stores().len(),
            forall|i: int|
                0 <= i < r@.len() ==> (#[trigger] r@[i])@ == spec_topic_cmd(
                    self.spec_stores()[i].config,
                ),
    {
        let mut out: Vec<String> = Vec::new();
        let n = self.stores.len();
        let mut i: usize = 0;
        while i < n
            invariant
                n == self.stores@.len(),
                i <= n,
                out@.len() == i,
                forall|j: int|
                    0 <= j < i ==> (#[trigger] out@[j])@ == spec_topic_cmd(self.stores@[j].config),
            decreases n - i,
        {
            out.push(self.stores[i].config.topic_cmd());
            i = i + 1;
        }
        out
    }

    /// The event topic of every store, in order.
    pub fn topics_evt(&self) -> (r: Vec<String>)
        ensures
            r@.len() == self.spec_stores().len(),
            forall|i: int|
                0 <= i < r@.len() ==> (#[trigger] r@[i])@ == spec_topic_evt(
                    self.spec_stores()[i].config,
                ),
    {
        let mut out: Vec<String> = Vec::new();
        let n = self.stores.len();
        let mut i: usize = 0;
        while i < n
            invariant
                n == self.stores@.len(),
                i <= n,
                out@.len() == i,
                forall|j: int|
                    0 <= j < i ==> (#[trigger] out@[j])@ == spec_topic_evt(self.stores@[j].config),
            decreases n - i,
        {
            out.push(self.stores[i].config.topic_evt());
            i = i + 1;
        }
        out
    }
}

impl Store {
    /// A store with the given configuration.
    pub fn new(config: StoreConfig) -> (r: Self)
        ensures
            r.config == config,
    {
        Store { config }
    }

    /// The store's name.
    pub fn name(&self) -> (r: &str)
        ensures
            r@ == self.config.name@,
    {
        self.config.name.as_str()
    }

    /// The store's database path.
    pub fn db_path(&self) -> (r: &str)
        ensures
            r@ == self.config.db_path@,
    {
        self.config.db_path.as_str()
    }

    /// `ixmati/cmd/<store>/<entity>/<id>`.
    pub fn entity_topic(&self, entity: &str, id: &str) -> (r: String)
        ensures
            r@ == entity_topic_spec("cmd"@, self.config.name@, entity@, id@),
    {
        let a = concat3("ixmati/cmd/", self.config.name.as_str(), "/");
        let b = concat3(a.as_str(), entity, "/");
        let r = concat(b.as_str(), id);
        proof {
            assert(r@ =~= entity_topic_spec("cmd"@, self.config.name@, entity@, id@)) by {
                assert("ixmati/cmd/"@ =~= "ixmati/"@ + "cmd"@ + "/"@) by {
                    reveal_strlit("ixmati/cmd/");
                    reveal_strlit("ixmati/");
                    reveal_strlit("cmd");
                    reveal_strlit("/");
                }
            }
        }
        r
    }

    /// `ixmati/evt/<store>/<entity>/<id>`.
    pub fn event_topic(&self, entity: &str, id: &str) -> (r: String)
        ensures
            r@ == entity_topic_spec("evt"@, self.config.name@, entity@, id@),
    {
        let a = concat3("ixmati/evt/", self.config.name.as_str(), "/");
        let b = concat3(a.as_str(), entity, "/");
        let r = concat(b.as_str(), id);
        proof {
            assert(r@ =~= entity_topic_spec("evt"@, self.config.name@, entity@, id@)) by {
                assert("ixmati/evt/"@ =~= "ixmati/"@ + "evt"@ + "/"@) by {
                    reveal_strlit("ixmati/evt/");
                    reveal_strlit("ixmati/");
                    reveal_strlit("evt");
                    reveal_strlit("/");
                }
            }
        }
        r
    }
}

} // verus!
