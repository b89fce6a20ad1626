//! One writer per store, and the lifecycle of each writer.
use vstd::prelude::*;
use crate::config::{spec_topic_cmd, spec_topic_evt};
use crate::store::{Store, StoreRegistry, Topology};
use crate::text::{owned, str_eq};

verus! {

/// The lifecycle state of a store's writer.
#[derive(Debug, Clone, PartialEq)]
pub enum WriterStatus {
    Initialized,
    Running,
    Stopped,
    Failed(String),
}

/// The writer of one store: where it writes and which topics it serves.
#[derive(Debug)]
pub struct WriterHandle {
    pub store_name: String,
    pub db_path: String,
    pub topic_cmd: String,
    pub topic_evt: String,
    pub status: WriterStatus,
}

/// A writer status with its message as characters.
pub enum StatusView {
    Initialized,
    Running,
    Stopped,
    Failed(Seq<char>),
}

/// A writer handle with its strings as characters.
pub struct WriterView {
    pub store_name: Seq<char>,
    pub db_path: Seq<char>,
    pub topic_cmd: Seq<char>,
    pub topic_evt: Seq<char>,
    pub status: StatusView,
}

impl WriterStatus {
    pub open spec fn view(&self) -> StatusView {
        match self {
            WriterStatus::Initialized => StatusView::Initialized,
            WriterStatus::Running => StatusView::Running,
            WriterStatus::Stopped => StatusView::Stopped,
            WriterStatus::Failed(m) => StatusView::Failed(m@),
        }
    }
}

impl WriterHandle {
    pub open spec fn view(&self) -> WriterView {
        WriterView {
            store_name: self.store_name@,
            db_path: self.db_path@,
            topic_cmd: self.topic_cmd@,
            topic_evt: self.topic_evt@,
            status: self.status.view(),
        }
    }
}

/// The writer that a store starts with.
pub open spec fn initial_writer(st: Store) -> WriterView {
    WriterView {
        store_name: st.config.name@,
        db_path: st.config.db_path@,
        topic_cmd: spec_topic_cmd(st.config),
        topic_evt: spec_topic_evt(st.config),
        status: StatusView::Initialized,
    }
}

/// The writers of a list of stores, keyed by store name; a later store with
/// the same name replaces an earlier one.
pub open spec fn writers_of(stores: Seq<Store>) -> Map<Seq<char>, WriterView>
    decreases stores.len(),
{
    if stores.len() == 0 {
        Map::empty()
    } else {
        writers_of(stores.drop_last()).insert(
            stores.last().config.name@,
            initial_writer(stores.last()),
        )
    }
}

/// The handles of `ws`, keyed by store name.
pub open spec fn handles_map(ws: Seq<WriterHandle>) -> Map<Seq<char>, WriterView>
    decreases ws.len(),
{
    if ws.len() == 0 {
        Map::empty()
    } else {
        handles_map(ws.drop_last()).insert(ws.last().store_name@, ws.last().view())
    }
}

pub open spec fn distinct_names(ws: Seq<WriterHandle>) -> bool {
    forall|i: int, j: int|
        0 <= i < j < ws.len() ==> (#[trigger] ws[i]).store_name@ != (#[trigger] ws[j]).store_name@
}

proof fn lemma_handles_map(ws: Seq<WriterHandle>)
    requires
        distinct_names(ws),
    ensures
        forall|i: int|
            0 <= i < ws.len() ==> handles_map(ws).contains_key((#[trigger] ws[i]).store_name@)
                && handles_map(ws)[ws[i].store_name@] == ws[i].view(),
        forall|n: Seq<char>|
            handles_map(ws).contains_key(n) ==> exists|i: int|
                0 <= i < ws.len() && (#[trigger] ws[i]).store_name@ == n,
    decreases ws.len(),
{
    if ws.len() > 0 {
        let d = ws.drop_last();
        assert(distinct_names(d)) by {
            assert forall|i: int, j: int| 0 <= i < j < d.len() implies (#[trigger] d[i]).store_name@
                != (#[trigger] d[j]).store_name@ by {
                assert(d[i] == ws[i] && d[j] == ws[j]);
            }
        }
        lemma_handles_map(d);
        assert forall|i: int|
            0 <= i < ws.len() implies handles_map(ws).contains_key((#[trigger] ws[i]).store_name@)
            && handles_map(ws)[ws[i].store_name@] == ws[i].view() by {
            if i < ws.len() - 1 {
                assert(d[i] == ws[i]);
                assert(ws[i].store_name@ != ws[ws.len() - 1].store_name@);
            }
        }
        assert forall|n: Seq<char>| handles_map(ws).contains_key(n) implies exists|i: int|
            0 <= i < ws.len() && (#[trigger] ws[i]).store_name@ == n by {
            if n == ws.last().store_name@ {
                assert(ws[ws.len() - 1].store_name@ == n);
            } else {
                let i = choose|i: int| 0 <= i < d.len() && (#[trigger] d[i]).store_name@ == n;
                assert(ws[i] == d[i]);
            }
        }
    }
}

proof fn lemma_handles_map_update(ws: Seq<WriterHandle>, k: int, h: WriterHandle)
    requires
        distinct_names(ws),
        0 <= k < ws.len(),
        h.store_name@ == ws[k].store_name@,
    ensures
        handles_map(ws.update(k, h)) == handles_map(ws).insert(h.store_name@, h.view()),
        distinct_names(ws.update(k, h)),
    decreases ws.len(),
{
    let u = ws.update(k, h);
    assert(distinct_names(u)) by {
        assert forall|i: int, j: int| 0 <= i < j < u.len() implies (#[trigger] u[i]).store_name@
            != (#[trigger] u[j]).store_name@ by {
            assert(u[i].store_name@ == ws[i].store_name@);
            assert(u[j].store_name@ == ws[j].store_name@);
        }
    }
    let d = ws.drop_last();
    assert(distinct_names(d)) by {
        assert forall|i: int, j: int| 0 <= i < j < d.len() implies (#[trigger] d[i]).store_name@
            != (#[trigger] d[j]).store_name@ by {
            assert(d[i] == ws[i] && d[j] == ws[j]);
        }
    }
    if k == ws.len() - 1 {
        assert(u.drop_last() =~= d);
        assert(handles_map(u) =~= handles_map(ws).insert(h.store_name@, h.view()));
    } else {
        lemma_handles_map_update(d, k, h);
        assert(u.drop_last() =~= d.update(k, h));
        assert(ws.last().store_name@ != h.store_name@) by {
            assert(ws[k].store_name@ != ws[ws.len() - 1].store_name@);
        }
        assert(handles_map(u) =~= handles_map(ws).insert(h.store_name@, h.view()));
    }
}

proof fn lemma_handles_map_push(ws: Seq<WriterHandle>, h: WriterHandle)
    requires
        distinct_names(ws),
        forall|i: int| 0 <= i < ws.len() ==> (#[trigger] ws[i]).store_name@ != h.store_name@,
    ensures
        handles_map(ws.push(h)) == handles_map(ws).insert(h.store_name@, h.view()),
        distinct_names(ws.push(h)),
{
    let p = ws.push(h);
    assert(p.drop_last() =~= ws);
    assert(distinct_names(p)) by {
        assert forall|i: int, j: int| 0 <= i < j < p.len() implies (#[trigger] p[i]).store_name@
            != (#[trigger] p[j]).store_name@ by {
            if j < ws.len() {
                assert(p[i] == ws[i] && p[j] == ws[j]);
            } else {
                assert(p[i] == ws[i]);
            }
        }
    }
}

fn find_writer(writers: &Vec<WriterHandle>, store: &str) -> (r: Option<usize>)
    ensures
        match r {
            Some(i) => i < writers@.len() && writers@[i as int].store_name@ == store@,
            None => forall|i: int|
                0 <= i < writers@.len() ==> (#[trigger] writers@[i]).store_name@ != store@,
        },
{
    let n = writers.len();
    let mut i: usize = 0;
    while i < n
        invariant
            n == writers@.len(),
            i <= n,
            forall|j: int| 0 <= j < i ==> (#[trigger] writers@[j]).store_name@ != store@,
        decreases n - i,
    {
        if str_eq(writers[i].store_name.as_str(), store) {
            return Some(i);
        }
        i = i + 1;
    }
    None
}

/// The writers of a deployment and the registry they were made from.
pub struct Supervisor {
    registry: StoreRegistry,
    writers: Vec<WriterHandle>,
}

impl Supervisor {
    /// The writers, keyed by store name.
    pub closed spec fn spec_writers(&self) -> Map<Seq<char>, WriterView> {
        handles_map(self.writers@)
    }

    pub closed spec fn spec_registry(&self) -> StoreRegistry {
        self.registry
    }

    /// The writer handles are one per store name.
    pub closed spec fn wf(&self) -> bool {
        distinct_names(self.writers@)
    }

    fn initial_handle(store: &Store) -> (h: WriterHandle)
        ensures
            h.view() == initial_writer(*store),
    {
        WriterHandle {
            store_name: owned(store.name()),
            db_path: owned(store.db_path()),
            topic_cmd: store.config.topic_cmd(),
            topic_evt: store.config.topic_evt(),
            status: WriterStatus::Initialized,
        }
    }

    /// One writer per store name, each `Initialized`; a later store with the
    /// same name replaces an earlier one.
    pub fn new(registry: StoreRegistry) -> (r: Self)
        ensures
            r.wf(),
            r.spec_writers() == writers_of(registry.spec_stores()),
            r.spec_registry() == registry,
    {
        let mut writers: Vec<WriterHandle> = Vec::new();
        let stores = registry.stores();
        let n = stores.len();
        let mut k: usize = 0;
        while k < n
            invariant
                n == stores@.len(),
                stores@ == registry.spec_stores(),
                k <= n,
                distinct_names(writers@),
                handles_map(writers@) == writers_of(stores@.take(k as int)),
            decreases n - k,
        {
            let store = &stores[k];
            let h = Self::initial_handle(store);
            let found = find_writer(&writers, h.store_name.as_str());
            proof {
                assert(stores@.take(k + 1).drop_last() =~= stores@.take(k as int));
            }
            match found {
                Some(i) => {
                    proof {
                        lemma_handles_map_update(writers@, i as int, h);
                    }
                    writers.set(i, h);
                },
                None => {
                    proof {
                        lemma_handles_map_push(writers@, h);
                    }
                    writers.push(h);
                },
            }
            k = k + 1;
        }
        assert(stores@.take(n as int) =~= stores@);
        Supervisor { registry, writers }
    }

    /// How many writers there are (one per distinct store name).
    pub fn store_count(&self) -> (r: usize)
        requires
            self.wf(),
        ensures
            r == self.spec_writers().dom().len(),
    {
        proof {
            self.lemma_count();
        }
        self.writers.len()
    }

    proof fn lemma_count(&self)
        requires
            self.wf(),
        ensures
            self.spec_writers().dom().len() == self.writers@.len(),
            self.spec_writers().dom().finite(),
    {
        lemma_handles_len(self.writers@);
    }

    /// The topology of the registry.
    pub fn topology(&self) -> (r: Topology)
        ensures
            r == self.spec_registry().spec_topology(),
    {
        self.registry.topology()
    }

    /// All writer handles.
    pub fn writers(&self) -> (r: &[WriterHandle])
        requires
            self.wf(),
        ensures
            r@.len() == self.spec_writers().dom().len(),
            forall|i: int|
                0 <= i < r@.len() ==> self.spec_writers().contains_key((#[trigger] r@[i]).store_name@)
                    && self.spec_writers()[r@[i].store_name@] == r@[i].view(),
    {
        proof {
            self.lemma_count();
            lemma_handles_map(self.writers@);
        }
        self.writers.as_slice()
    }

    /// The writer of `store`.
    pub fn writer_for(&self, store: &str) -> (r: Option<&WriterHandle>)
        requires
            self.wf(),
        ensures
            match r {
                Some(h) => self.spec_writers().contains_key(store@) && h.view()
                    == self.spec_writers()[store@],
                None => !self.spec_writers().contains_key(store@),
            },
    {
        proof {
            lemma_handles_map(self.writers@);
        }
        match find_writer(&self.writers, store) {
            Some(i) => Some(&self.writers[i]),
            None => None,
        }
    }

    fn set_status(&mut self, store: &str, status: WriterStatus)
        requires
            old(self).wf(),
        ensures
            final(self).wf(),
            final(self).spec_registry() == old(self).spec_registry(),
            final(self).spec_writers() == if old(self).spec_writers().contains_key(store@) {
                old(self).spec_writers().insert(
                    store@,
                    WriterView { status: status.view(), ..old(self).spec_writers()[store@] },
                )
            } else {
                old(self).spec_writers()
            },
    {
        proof {
            lemma_handles_map(self.writers@);
        }
        match find_writer(&self.writers, store) {
            Some(i) => {
                let old_h = &self.writers[i];
                let h = WriterHandle {
                    store_name: old_h.store_name.clone(),
                    db_path: old_h.db_path.clone(),
                    topic_cmd: old_h.topic_cmd.clone(),
                    topic_evt: old_h.topic_evt.clone(),
                    status,
                };
                proof {
                    lemma_handles_map_update(self.writers@, i as int, h);
                    assert(h.view() == WriterView {
                        status: status.view(),
                        ..handles_map(self.writers@)[store@]
                    });
                }
                self.writers.set(i, h);
            },
            None => {
                proof {
                    if handles_map(self.writers@).contains_key(store@) {
                        let i = choose|i: int|
                            0 <= i < self.writers@.len() && (#[trigger] self.writers@[i]).store_name@
                                == store@;
                    }
                }
            },
        }
    }

    /// Marks the writer of `store` running; other writers are unchanged.
    pub fn mark_running(&mut self, store: &str)
        requires
            old(self).wf(),
        ensures
            final(self).wf(),
            final(self).spec_registry() == old(self).spec_registry(),
            final(self).spec_writers() == if old(self).spec_writers().contains_key(store@) {
                old(self).spec_writers().insert(
                    store@,
                    WriterView { status: StatusView::Running, ..old(self).spec_writers()[store@] },
                )
            } else {
                old(self).spec_writers()
            },
    {
        self.set_status(store, WriterStatus::Running);
    }

    /// Marks the writer of `store` stopped; other writers are unchanged.
    pub fn mark_stopped(&mut self, store: &str)
        requires
            old(self).wf(),
        ensures
            final(self).wf(),
            final(self).spec_registry() == old(self).spec_registry(),
            final(self).spec_writers() == if old(self).spec_writers().contains_key(store@) {
                old(self).spec_writers().insert(
                    store@,
                    WriterView { status: StatusView::Stopped, ..old(self).spec_writers()[store@] },
                )
            } else {
                old(self).spec_writers()
            },
    {
        self.set_status(store, WriterStatus::Stopped);
    }

    /// Marks the writer of `store` failed with `error`; other writers are unchanged.
    pub fn mark_failed(&mut self, store: &str, error: String)
        requires
            old(self).wf(),
        ensures
            final(self).wf(),
            final(self).spec_registry() == old(self).spec_registry(),
            final(self).spec_writers() == if old(self).spec_writers().contains_key(store@) {
                old(self).spec_writers().insert(
                    store@,
                    WriterView {
                        status: StatusView::Failed(error@),
                        ..old(self).spec_writers()[store@]
                    },
                )
            } else {
                old(self).spec_writers()
            },
    {
        self.set_status(store, WriterStatus::Failed(error));
    }

    /// Whether events flow between stores (more than one store).
    pub fn should_activate_events(&self) -> (r: bool)
        ensures
            r == (self.spec_registry().spec_stores().len() > 1),
    {
        self.registry.should_activate_events()
    }

    /// The command topic of every store, in order.
    pub fn topics_cmd(&self) -> (r: Vec<String>)
        ensures
            r@.len() == self.spec_registry().spec_stores().len(),
            forall|i: int|
                0 <= i < r@.len() ==> (#[trigger] r@[i])@ == spec_topic_cmd(
                    self.spec_registry().spec_stores()[i].config,
                ),
    {
        self.registry.topics_cmd()
    }

    /// The event topic of every store, in order.
    pub fn topics_evt(&self) -> (r: Vec<String>)
        ensures
            r@.len() == self.spec_registry().spec_stores().len(),
            forall|i: int|
                0 <= i < r@.len() ==> (#[trigger] r@[i])@ == spec_topic_evt(
                    self.spec_registry().spec_stores()[i].config,
                ),
    {
        self.registry.topics_evt()
    }
}

proof fn lemma_handles_len(ws: Seq<WriterHandle>)
    requires
        distinct_names(ws),
    ensures
        handles_map(ws).dom().finite(),
        handles_map(ws).dom().len() == ws.len(),
    decreases ws.len(),
{
    if ws.len() > 0 {
        let d = ws.drop_last();
        assert(distinct_names(d)) by {
            assert forall|i: int, j: int| 0 <= i < j < d.len() implies (#[trigger] d[i]).store_name@
                != (#[trigger] d[j]).store_name@ by {
                assert(d[i] == ws[i] && d[j] == ws[j]);
            }
        }
        lemma_handles_len(d);
        lemma_handles_map(d);
        assert(!handles_map(d).contains_key(ws.last().store_name@)) by {
            if handles_map(d).contains_key(ws.last().store_name@) {
                let i = choose|i: int|
                    0 <= i < d.len() && (#[trigger] d[i]).store_name@ == ws.last().store_name@;
                assert(ws[i] == d[i]);
                assert(ws[i].store_name@ != ws[ws.len() - 1].store_name@);
            }
        }
        assert(handles_map(ws).dom() =~= handles_map(d).dom().insert(ws.last().store_name@));
    }
}

} // verus!
