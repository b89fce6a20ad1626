//! Health of the API and of what it depends on.
use vstd::prelude::*;
use crate::text::{concat, owned, trim_start_matches, trim_start_matches_str};

verus! {

/// The health of a component, from best to worst.
#[derive(Debug, Clone, Copy, PartialEq, Eq, Structural)]
pub enum Health {
    Healthy,
    Degraded,
    Unavailable,
}

/// The health of one component, with a detail.
#[derive(Debug, Clone)]
pub struct ComponentHealth {
    pub name: String,
    pub status: Health,
    pub detail: Option<String>,
}

/// The health of every component, and the worst of them.
#[derive(Debug, Clone)]
pub struct HealthStatus {
    pub overall: Health,
    pub components: Vec<ComponentHealth>,
    pub store: Option<String>,
}

/// What to check.
#[derive(Debug, Clone)]
pub struct HealthChecker {
    db_path: Option<String>,
    store_db_paths: Vec<(String, String)>,
    mqtt_broker: Option<String>,
    store_name: Option<String>,
}

/// What opening a SQLite database and querying it gave.
#[derive(Debug, Clone)]
pub enum SqliteProbe {
    /// Opened, and `SELECT 1` answered.
    Connected,
    /// Opened, but the query failed with this error.
    QueryFailed(String),
    /// Could not open, with this error.
    OpenFailed(String),
}

pub open spec fn rank(h: Health) -> int {
    match h {
        Health::Healthy => 0,
        Health::Degraded => 1,
        Health::Unavailable => 2,
    }
}

/// The worse of two states.
pub open spec fn spec_worst(a: Health, b: Health) -> Health {
    if a == Health::Unavailable || b == Health::Unavailable {
        Health::Unavailable
    } else if a == Health::Degraded || b == Health::Degraded {
        Health::Degraded
    } else {
        Health::Healthy
    }
}

/// The worst of a list of states, starting from `Ok`.
pub open spec fn fold_worst(s: Seq<Health>) -> Health
    decreases s.len(),
{
    if s.len() == 0 {
        Health::Healthy
    } else {
        spec_worst(fold_worst(s.drop_last()), s.last())
    }
}

/// The worse of two states.
pub fn worst(a: Health, b: Health) -> (r: Health)
    ensures
        r == spec_worst(a, b),
        rank(r) == if rank(a) >= rank(b) {
            rank(a)
        } else {
            rank(b)
        },
{
    match (a, b) {
        (Health::Unavailable, _) | (_, Health::Unavailable) => Health::Unavailable,
        (Health::Degraded, _) | (_, Health::Degraded) => Health::Degraded,
        _ => Health::Healthy,
    }
}

/// The aggregate is unavailable exactly when some component is, and ok exactly when all are.
pub proof fn lemma_fold_worst(s: Seq<Health>)
    ensures
        (fold_worst(s) == Health::Unavailable) == (exists|i: int|
            0 <= i < s.len() && s[i] == Health::Unavailable),
        (fold_worst(s) == Health::Healthy) == (forall|i: int| 0 <= i < s.len() ==> s[i] == Health::Healthy),
    decreases s.len(),
{
    if s.len() > 0 {
        let d = s.drop_last();
        lemma_fold_worst(d);
        if exists|i: int| 0 <= i < d.len() && d[i] == Health::Unavailable {
            let i = choose|i: int| 0 <= i < d.len() && d[i] == Health::Unavailable;
            assert(s[i] == Health::Unavailable);
        }
        if exists|i: int| 0 <= i < s.len() && s[i] == Health::Unavailable {
            let i = choose|i: int| 0 <= i < s.len() && s[i] == Health::Unavailable;
            if i < s.len() - 1 {
                assert(d[i] == Health::Unavailable);
            }
        }
        if forall|i: int| 0 <= i < s.len() ==> s[i] == Health::Healthy {
            assert forall|i: int| 0 <= i < d.len() implies d[i] == Health::Healthy by {
                assert(s[i] == Health::Healthy);
            }
            assert(s[s.len() - 1] == Health::Healthy);
        }
        if fold_worst(s) == Health::Healthy {
            assert forall|i: int| 0 <= i < s.len() implies s[i] == Health::Healthy by {
                if i < s.len() - 1 {
                    assert(d[i] == s[i]);
                }
            }
        }
    }
}

/// A component with its strings as characters.
pub struct ComponentView {
    pub name: Seq<char>,
    pub status: Health,
    pub detail: Option<Seq<char>>,
}

impl ComponentHealth {
    pub open spec fn view(&self) -> ComponentView {
        ComponentView {
            name: self.name@,
            status: self.status,
            detail: match self.detail {
                Some(d) => Some(d@),
                None => None,
            },
        }
    }
}

pub open spec fn component_views(s: Seq<ComponentHealth>) -> Seq<ComponentView> {
    s.map_values(|c: ComponentHealth| c.view())
}

pub open spec fn component_statuses(s: Seq<ComponentHealth>) -> Seq<Health> {
    s.map_values(|c: ComponentHealth| c.status)
}

/// The component of a SQLite database named `name` at `path`.
pub open spec fn sqlite_component(name: Seq<char>, path: Seq<char>, probe: SqliteProbe) -> ComponentView {
    match probe {
        SqliteProbe::Connected => ComponentView {
            name,
            status: Health::Healthy,
            detail: Some("connected to "@ + path),
        },
        SqliteProbe::QueryFailed(e) => ComponentView {
            name,
            status: Health::Degraded,
            detail: Some(e@),
        },
        SqliteProbe::OpenFailed(e) => ComponentView {
            name,
            status: Health::Unavailable,
            detail: Some(e@),
        },
    }
}

/// The component of the MQTT broker `broker`.
pub open spec fn mosquitto_component(broker: Seq<char>, reachable: bool) -> ComponentView {
    if reachable {
        ComponentView {
            name: "mosquitto"@,
            status: Health::Healthy,
            detail: Some(broker + " reachable"@),
        }
    } else {
        ComponentView {
            name: "mosquitto"@,
            status: Health::Unavailable,
            detail: Some("unable to connect to "@ + broker),
        }
    }
}

pub open spec fn api_component() -> ComponentView {
    ComponentView { name: "api"@, status: Health::Healthy, detail: Some("running"@) }
}

/// A database to probe: the component's name and the path.
pub struct TargetView {
    pub name: Seq<char>,
    pub path: Seq<char>,
}

impl HealthChecker {
    pub closed spec fn spec_db_path(&self) -> Option<Seq<char>> {
        match self.db_path {
            Some(p) => Some(p@),
            None => None,
        }
    }

    pub closed spec fn spec_store_db_paths(&self) -> Seq<(Seq<char>, Seq<char>)> {
        self.store_db_paths@.map_values(|p: (String, String)| (p.0@, p.1@))
    }

    pub closed spec fn spec_mqtt_broker(&self) -> Option<Seq<char>> {
        match self.mqtt_broker {
            Some(p) => Some(p@),
            None => None,
        }
    }

    pub closed spec fn spec_store_name(&self) -> Option<Seq<char>> {
        match self.store_name {
            Some(p) => Some(p@),
            None => None,
        }
    }

    /// The databases to probe, in order: the main one (`sqlite`), then each store's
    /// (`sqlite:<store>`).
    pub open spec fn spec_targets(&self) -> Seq<TargetView> {
        (match self.spec_db_path() {
            Some(p) => seq![TargetView { name: "sqlite"@, path: p }],
            None => Seq::empty(),
        }) + self.spec_store_db_paths().map_values(
            |p: (Seq<char>, Seq<char>)| TargetView { name: "sqlite:"@ + p.0, path: p.1 },
        )
    }

    /// Nothing to check but the API itself.
    pub fn new() -> (r: Self)
        ensures
            r.spec_db_path() is None,
            r.spec_store_db_paths().len() == 0,
            r.spec_mqtt_broker() is None,
            r.spec_store_name() is None,
    {
        HealthChecker {
            db_path: None,
            store_db_paths: Vec::new(),
            mqtt_broker: None,
            store_name: None,
        }
    }

    /// Also check the database at `path`.
    pub fn with_db(self, path: &str) -> (r: Self)
        ensures
            r.spec_db_path() == Some(path@),
            r.spec_store_db_paths() == self.spec_store_db_paths(),
            r.spec_mqtt_broker() == self.spec_mqtt_broker(),
            r.spec_store_name() == self.spec_store_name(),
    {
        let mut s = self;
        s.db_path = Some(owned(path));
        s
    }

    /// Also check the database of `store` at `path`.
    pub fn with_store_db(self, store: &str, path: &str) -> (r: Self)
        ensures
            r.spec_db_path() == self.spec_db_path(),
            r.spec_store_db_paths() == self.spec_store_db_paths().push((store@, path@)),
            r.spec_mqtt_broker() == self.spec_mqtt_broker(),
            r.spec_store_name() == self.spec_store_name(),
    {
        let ghost before = self.store_db_paths@;
        let mut s = self;
        s.store_db_paths.push((owned(store), owned(path)));
        assert(s.store_db_paths@.map_values(|p: (String, String)| (p.0@, p.1@)) =~= before.map_values(
            |p: (String, String)| (p.0@, p.1@),
        ).push((store@, path@)));
        s
    }

    /// Also check the MQTT broker at `broker`.
    pub fn with_mqtt(self, broker: &str) -> (r: Self)
        ensures
            r.spec_db_path() == self.spec_db_path(),
            r.spec_store_db_paths() == self.spec_store_db_paths(),
            r.spec_mqtt_broker() == Some(broker@),
            r.spec_store_name() == self.spec_store_name(),
    {
        let mut s = self;
        s.mqtt_broker = Some(owned(broker));
        s
    }

    /// Report `name` as the store this API serves.
    pub fn with_store(self, name: &str) -> (r: Self)
        ensures
            r.spec_db_path() == self.spec_db_path(),
            r.spec_store_db_paths() == self.spec_store_db_paths(),
            r.spec_mqtt_broker() == self.spec_mqtt_broker(),
            r.spec_store_name() == Some(name@),
    {
        let mut s = self;
        s.store_name = Some(owned(name));
        s
    }

    /// The databases to probe, as (component name, path).
    pub fn sqlite_targets(&self) -> (r: Vec<(String, String)>)
        ensures
            r@.map_values(|p: (String, String)| TargetView { name: p.0@, path: p.1@ })
                == self.spec_targets(),
    {
        let mut out: Vec<(String, String)> = Vec::new();
        match &self.db_path {
            Some(p) => out.push((owned("sqlite"), p.clone())),
            None => {},
        }
        let ghost head = out@.map_values(|p: (String, String)| TargetView { name: p.0@, path: p.1@ });
        let n = self.store_db_paths.len();
        let mut i: usize = 0;
        while i < n
            invariant
                n == self.store_db_paths@.len(),
                i <= n,
                out@.map_values(|p: (String, String)| TargetView { name: p.0@, path: p.1@ })
                    == head + self.spec_store_db_paths().take(i as int).map_values(
                    |p: (Seq<char>, Seq<char>)| TargetView { name: "sqlite:"@ + p.0, path: p.1 },
                ),
            decreases n - i,
        {
            let ghost before = out@;
            let name = concat("sqlite:", self.store_db_paths[i].0.as_str());
            let path = self.store_db_paths[i].1.clone();
            out.push((name, path));
            proof {
                assert(self.spec_store_db_paths().take(i + 1) =~= self.spec_store_db_paths().take(
                    i as int,
                ).push((self.store_db_paths@[i as int].0@, self.store_db_paths@[i as int].1@)));
                assert(out@.map_values(|p: (String, String)| TargetView { name: p.0@, path: p.1@ })
                    =~= before.map_values(
                    |p: (String, String)| TargetView { name: p.0@, path: p.1@ },
                ).push(
                    TargetView {
                        name: "sqlite:"@ + self.store_db_paths@[i as int].0@,
                        path: self.store_db_paths@[i as int].1@,
                    },
                ));
            }
            i = i + 1;
        }
        proof {
            assert(self.spec_store_db_paths().take(n as int) =~= self.spec_store_db_paths());
            assert(out@.map_values(|p: (String, String)| TargetView { name: p.0@, path: p.1@ })
                =~= self.spec_targets());
        }
        out
    }

    /// The address to connect to for the broker: without its `tcp://` or `mqtt://` prefix.
    pub fn mosquitto_address(&self) -> (r: Option<String>)
        ensures
            match self.spec_mqtt_broker() {
                Some(b) => r is Some && r->0@ == trim_start_matches(
                    trim_start_matches(b, "tcp://"@),
                    "mqtt://"@,
                ),
                None => r is None,
            },
    {
        match &self.mqtt_broker {
            Some(b) => {
                let a = trim_start_matches_str(b.as_str(), "tcp://");
                Some(trim_start_matches_str(a.as_str(), "mqtt://"))
            },
            None => None,
        }
    }

    /// The components of the report: the API, each probed database in order, and
    /// the broker when one is configured.
    pub open spec fn spec_components(&self, sqlite: Seq<SqliteProbe>, mqtt_reachable: bool) -> Seq<
        ComponentView,
    > {
        seq![api_component()] + Seq::new(
            sqlite.len(),
            |i: int|
                sqlite_component(self.spec_targets()[i].name, self.spec_targets()[i].path, sqlite[i]),
        ) + match self.spec_mqtt_broker() {
            Some(b) => seq![mosquitto_component(b, mqtt_reachable)],
            None => Seq::empty(),
        }
    }

    /// The health report, given what probing each target of `sqlite_targets` gave (in
    /// order) and whether the broker was reachable.
    pub fn check(&self, sqlite: &[SqliteProbe], mqtt_reachable: bool) -> (r: HealthStatus)
        requires
            sqlite@.len() == self.spec_targets().len(),
        ensures
            component_views(r.components@) == self.spec_components(sqlite@, mqtt_reachable),
            r.overall == fold_worst(component_statuses(r.components@)),
            r.overall == fold_worst(
                self.spec_components(sqlite@, mqtt_reachable).map_values(|c: ComponentView| c.status),
            ),
            match r.store {
                Some(s) => self.spec_store_name() == Some(s@),
                None => self.spec_store_name() is None,
            },
    {
        let targets = self.sqlite_targets();
        let ghost tv = targets@.map_values(|p: (String, String)| TargetView { name: p.0@, path: p.1@ });
        let mut components: Vec<ComponentHealth> = Vec::new();
        components.push(
            ComponentHealth { name: owned("api"), status: Health::Healthy, detail: Some(owned("running")) },
        );
        let n = sqlite.len();
        let mut i: usize = 0;
        while i < n
            invariant
                n == sqlite@.len(),
                n == targets@.len(),
                tv == self.spec_targets(),
                tv == targets@.map_values(|p: (String, String)| TargetView { name: p.0@, path: p.1@ }),
                i <= n,
                component_views(components@) == seq![api_component()] + Seq::new(
                    i as nat,
                    |k: int| sqlite_component(tv[k].name, tv[k].path, sqlite@[k]),
                ),
            decreases n - i,
        {
            let ghost before = component_views(components@);
            let name = targets[i].0.clone();
            let path = &targets[i].1;
            let c = match &sqlite[i] {
                SqliteProbe::Connected => ComponentHealth {
                    name,
                    status: Health::Healthy,
                    detail: Some(concat("connected to ", path.as_str())),
                },
                SqliteProbe::QueryFailed(e) => ComponentHealth {
                    name,
                    status: Health::Degraded,
                    detail: Some(e.clone()),
                },
                SqliteProbe::OpenFailed(e) => ComponentHealth {
                    name,
                    status: Health::Unavailable,
                    detail: Some(e.clone()),
                },
            };
            assert(tv[i as int] == TargetView { name: targets@[i as int].0@, path: targets@[i as int].1@ });
            assert(c.view() == sqlite_component(tv[i as int].name, tv[i as int].path, sqlite@[i as int]));
            components.push(c);
            assert(component_views(components@) =~= before.push(c.view()));
            assert(component_views(components@) =~= seq![api_component()] + Seq::new(
                (i + 1) as nat,
                |k: int| sqlite_component(tv[k].name, tv[k].path, sqlite@[k]),
            ));
            i = i + 1;
        }
        let ghost mid = component_views(components@);
        match &self.mqtt_broker {
            Some(b) => {
                let c = if mqtt_reachable {
                    ComponentHealth {
                        name: owned("mosquitto"),
                        status: Health::Healthy,
                        detail: Some(crate::text::concat(b.as_str(), " reachable")),
                    }
                } else {
                    ComponentHealth {
                        name: owned("mosquitto"),
                        status: Health::Unavailable,
                        detail: Some(concat("unable to connect to ", b.as_str())),
                    }
                };
                components.push(c);
                assert(component_views(components@) =~= mid.push(
                    mosquitto_component(b@, mqtt_reachable),
                ));
            },
            None => {},
        }
        let mut overall = Health::Healthy;
        let m = components.len();
        let mut k: usize = 0;
        while k < m
            invariant
                m == components@.len(),
                k <= m,
                overall == fold_worst(component_statuses(components@).take(k as int)),
            decreases m - k,
        {
            proof {
                assert(component_statuses(components@).take(k + 1).drop_last()
                    =~= component_statuses(components@).take(k as int));
            }
            overall = worst(overall, components[k].status);
            k = k + 1;
        }
        assert(component_statuses(components@).take(m as int) =~= component_statuses(components@));
        assert(component_views(components@) == self.spec_components(sqlite@, mqtt_reachable));
        assert(component_statuses(components@) =~= self.spec_components(sqlite@, mqtt_reachable).map_values(
            |c: ComponentView| c.status,
        ));
        let store = match &self.store_name {
            Some(s) => Some(s.clone()),
            None => None,
        };
        HealthStatus { overall, components, store }
    }
}

/// The health a probe of a database gives: healthy when it answered, degraded
/// when its query failed, unavailable when it could not be opened.
proof fn lemma_sqlite_status(name: Seq<char>, path: Seq<char>, probe: SqliteProbe)
    ensures
        (sqlite_component(name, path, probe).status == Health::Unavailable) == (probe is OpenFailed),
        (sqlite_component(name, path, probe).status == Health::Healthy) == (probe is Connected),
{
}

/// When a broker is configured, the report ends with the `mosquitto` component,
/// which is unavailable exactly when the broker is unreachable. The overall
/// status is unavailable exactly when some database could not be opened or a
/// configured broker is unreachable, and healthy exactly when every database
/// answered and any configured broker is reachable.
pub proof fn lemma_health_overall(hc: HealthChecker, sqlite: Seq<SqliteProbe>, reachable: bool)
    ensures
        hc.spec_mqtt_broker() is Some ==> hc.spec_components(sqlite, reachable).last().name
            == "mosquitto"@ && (hc.spec_components(sqlite, reachable).last().status
            == Health::Unavailable) == !reachable,
        (fold_worst(hc.spec_components(sqlite, reachable).map_values(|c: ComponentView| c.status))
            == Health::Unavailable) == ((exists|i: int|
            0 <= i < sqlite.len() && #[trigger] sqlite[i] is OpenFailed) || (hc.spec_mqtt_broker() is Some
            && !reachable)),
        (fold_worst(hc.spec_components(sqlite, reachable).map_values(|c: ComponentView| c.status))
            == Health::Healthy) == ((forall|i: int| 0 <= i < sqlite.len() ==> #[trigger] sqlite[i] is Connected)
            && (hc.spec_mqtt_broker() is None || reachable)),
{
    reveal_strlit("mosquitto");
    let cs = hc.spec_components(sqlite, reachable);
    let st = cs.map_values(|c: ComponentView| c.status);
    let n = sqlite.len() as int;
    let t = hc.spec_targets();
    let f = |i: int| sqlite_component(t[i].name, t[i].path, sqlite[i]);
    let mid = seq![api_component()] + Seq::new(sqlite.len(), f);
    let has_broker = hc.spec_mqtt_broker() is Some;
    assert(cs.len() == n + 1 + if has_broker { 1int } else { 0int });
    assert(st[0] == Health::Healthy) by {
        assert(cs[0] == mid[0]);
    }
    assert forall|i: int| 0 <= i < n implies st[i + 1] == sqlite_component(
        t[i].name,
        t[i].path,
        #[trigger] sqlite[i],
    ).status by {
        assert(cs[i + 1] == mid[i + 1]);
    }
    if has_broker {
        let b = hc.spec_mqtt_broker()->0;
        assert(cs[n + 1] == mosquitto_component(b, reachable));
        assert(cs.last() == cs[n + 1]);
    }
    lemma_fold_worst(st);
    let some_unavailable = exists|j: int| 0 <= j < st.len() && st[j] == Health::Unavailable;
    let all_healthy = forall|j: int| 0 <= j < st.len() ==> st[j] == Health::Healthy;
    assert(some_unavailable == ((exists|i: int| 0 <= i < sqlite.len() && #[trigger] sqlite[i] is OpenFailed)
        || (has_broker && !reachable))) by {
        if exists|i: int| 0 <= i < sqlite.len() && #[trigger] sqlite[i] is OpenFailed {
            let i = choose|i: int| 0 <= i < sqlite.len() && #[trigger] sqlite[i] is OpenFailed;
            lemma_sqlite_status(t[i].name, t[i].path, sqlite[i]);
            assert(st[i + 1] == Health::Unavailable);
        }
        if has_broker && !reachable {
            assert(st[n + 1] == Health::Unavailable);
        }
        if some_unavailable {
            let j = choose|j: int| 0 <= j < st.len() && st[j] == Health::Unavailable;
            if 1 <= j <= n {
                lemma_sqlite_status(t[j - 1].name, t[j - 1].path, sqlite[j - 1]);
                assert(st[(j - 1) + 1] == sqlite_component(t[j - 1].name, t[j - 1].path, sqlite[j - 1]).status);
                assert(sqlite[j - 1] is OpenFailed);
            }
        }
    }
    assert(all_healthy == ((forall|i: int| 0 <= i < sqlite.len() ==> #[trigger] sqlite[i] is Connected)
        && (!has_broker || reachable))) by {
        if all_healthy {
            assert forall|i: int| 0 <= i < sqlite.len() implies #[trigger] sqlite[i] is Connected by {
                lemma_sqlite_status(t[i].name, t[i].path, sqlite[i]);
                assert(st[i + 1] == Health::Healthy);
            }
            if has_broker {
                assert(st[n + 1] == Health::Healthy);
            }
        }
        if (forall|i: int| 0 <= i < sqlite.len() ==> #[trigger] sqlite[i] is Connected) && (!has_broker
            || reachable) {
            assert forall|j: int| 0 <= j < st.len() implies st[j] == Health::Healthy by {
                if 1 <= j <= n {
                    lemma_sqlite_status(t[j - 1].name, t[j - 1].path, sqlite[j - 1]);
                    assert(st[(j - 1) + 1] == sqlite_component(t[j - 1].name, t[j - 1].path, sqlite[j - 1]).status);
                    assert(sqlite[j - 1] is Connected);
                }
            }
        }
    }
}

} // verus!
