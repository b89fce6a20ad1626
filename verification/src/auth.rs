//! API keys, credentials and the authorization decision.
use vstd::prelude::*;
use crate::text::{spec_strip_prefix, spec_trim, starts_with, str_eq, strip_prefix, owned, split, spec_split, trim, is_prefix, views};
use crate::seqs::{first_index, lemma_first_index_unique};

verus! {

/// An API key and the stores it may write to (empty: every store).
#[derive(Debug, Clone)]
pub struct ApiKey {
    pub key_id: String,
    pub store_access: Vec<String>,
    /// Creation time, in seconds since the Unix epoch.
    pub created_at: i64,
}

/// The credentials that an `Authorization` header carries.
#[derive(Debug, Clone)]
pub enum AuthCredentials {
    BearerToken(String),
    ApiKey(String),
}

/// Whether authentication is on, and the keys it accepts.
#[derive(Debug, Clone)]
pub struct AuthConfig {
    pub enabled: bool,
    pub valid_keys: Vec<ApiKey>,
}

/// The credentials in an `Authorization` header: `Bearer <token>`, `ApiKey <key>`,
/// or a bare key.
pub enum CredentialsView {
    BearerToken(Seq<char>),
    ApiKey(Seq<char>),
}

impl AuthCredentials {
    pub open spec fn view(&self) -> CredentialsView {
        match self {
            AuthCredentials::BearerToken(t) => CredentialsView::BearerToken(t@),
            AuthCredentials::ApiKey(k) => CredentialsView::ApiKey(k@),
        }
    }
}

pub open spec fn spec_credentials(header: Seq<char>) -> CredentialsView {
    match spec_strip_prefix(header, "Bearer "@) {
        Some(token) => CredentialsView::BearerToken(token),
        None => match spec_strip_prefix(header, "ApiKey "@) {
            Some(key) => CredentialsView::ApiKey(key),
            None => CredentialsView::ApiKey(header),
        },
    }
}

impl AuthCredentials {
    /// The credentials of a header, if there is one.
    pub fn from_header(header: Option<&str>) -> (r: Option<Self>)
        ensures
            match header {
                None => r is None,
                Some(h) => r is Some && r->0.view() == spec_credentials(h@),
            },
    {
        let header = match header {
            Some(h) => h,
            None => {
                return None;
            },
        };
        if let Some(token) = strip_prefix(header, "Bearer ") {
            return Some(AuthCredentials::BearerToken(token));
        }
        if let Some(key) = strip_prefix(header, "ApiKey ") {
            return Some(AuthCredentials::ApiKey(key));
        }
        Some(AuthCredentials::ApiKey(owned(header)))
    }
}

impl AuthConfig {
    /// Authentication on, accepting `keys`.
    pub fn new(keys: Vec<ApiKey>) -> (r: Self)
        ensures
            r.enabled,
            r.valid_keys@ == keys@,
    {
        AuthConfig { enabled: true, valid_keys: keys }
    }

    /// Authentication off.
    pub fn disabled() -> (r: Self)
        ensures
            !r.enabled,
            r.valid_keys@.len() == 0,
    {
        AuthConfig { enabled: false, valid_keys: Vec::new() }
    }
}

/// A key's id is `key`.
pub open spec fn key_is(key: Seq<char>) -> spec_fn(ApiKey) -> bool {
    |k: ApiKey| k.key_id@ == key
}

/// Index of the first key whose id is `key`, or -1.
pub open spec fn key_index(keys: Seq<ApiKey>, key: Seq<char>) -> int {
    first_index(keys, key_is(key))
}

/// The first key whose id is `key`.
pub fn validate_api_key<'a>(key: &str, valid_keys: &'a [ApiKey]) -> (r: Option<&'a ApiKey>)
    ensures
        match r {
            Some(k) => key_index(valid_keys@, key@) >= 0 && *k == valid_keys@[key_index(
                valid_keys@,
                key@,
            )],
            None => key_index(valid_keys@, key@) < 0,
        },
{
    let n = valid_keys.len();
    let mut i: usize = 0;
    while i < n
        invariant
            n == valid_keys@.len(),
            i <= n,
            forall|j: int| 0 <= j < i ==> (#[trigger] valid_keys@[j]).key_id@ != key@,
        decreases n - i,
    {
        if str_eq(valid_keys[i].key_id.as_str(), key) {
            proof {
                lemma_first_index_unique(valid_keys@, key_is(key@), i as int);
            }
            return Some(&valid_keys[i]);
        }
        i = i + 1;
    }
    proof {
        lemma_first_index_unique(valid_keys@, key_is(key@), n as int);
    }
    None
}

/// What the REST middleware does with a request.
#[derive(Debug, Clone, PartialEq, Eq)]
pub enum AuthDecision {
    /// Let the request through; the index of the key it presented, when authentication is on.
    Allow(Option<usize>),
    /// Answer 401 with this detail.
    Reject(String),
}

pub enum DecisionView {
    Allow(Option<usize>),
    Reject(Seq<char>),
}

impl AuthDecision {
    pub open spec fn view(&self) -> DecisionView {
        match self {
            AuthDecision::Allow(k) => DecisionView::Allow(*k),
            AuthDecision::Reject(d) => DecisionView::Reject(d@),
        }
    }
}

/// The REST authorization rule: with authentication off every request passes; otherwise
/// the key or token of the `Authorization` header must be a known key id.
pub open spec fn spec_authorize(enabled: bool, keys: Seq<ApiKey>, header: Option<Seq<char>>) -> DecisionView {
    if !enabled {
        DecisionView::Allow(None)
    } else {
        match header {
            None => DecisionView::Reject("Authorization header required"@),
            Some(h) => match spec_credentials(h) {
                CredentialsView::ApiKey(k) => if key_index(keys, k) >= 0 {
                    DecisionView::Allow(Some(key_index(keys, k) as usize))
                } else {
                    DecisionView::Reject("invalid API key"@)
                },
                CredentialsView::BearerToken(t) => if key_index(keys, t) >= 0 {
                    DecisionView::Allow(Some(key_index(keys, t) as usize))
                } else {
                    DecisionView::Reject("invalid session token"@)
                },
            },
        }
    }
}

fn key_position(key: &str, keys: &[ApiKey]) -> (r: Option<usize>)
    ensures
        match r {
            Some(i) => key_index(keys@, key@) == i,
            None => key_index(keys@, key@) < 0,
        },
{
    let n = keys.len();
    let mut i: usize = 0;
    while i < n
        invariant
            n == keys@.len(),
            i <= n,
            forall|j: int| 0 <= j < i ==> (#[trigger] keys@[j]).key_id@ != key@,
        decreases n - i,
    {
        if str_eq(keys[i].key_id.as_str(), key) {
            proof {
                lemma_first_index_unique(keys@, key_is(key@), i as int);
            }
            return Some(i);
        }
        i = i + 1;
    }
    proof {
        lemma_first_index_unique(keys@, key_is(key@), n as int);
    }
    None
}

/// Decides whether a request with the given `Authorization` header passes.
pub fn authorize(config: &AuthConfig, header: Option<&str>) -> (r: AuthDecision)
    ensures
        r.view() == spec_authorize(
            config.enabled,
            config.valid_keys@,
            match header {
                Some(h) => Some(h@),
                None => None,
            },
        ),
{
    if !config.enabled {
        return AuthDecision::Allow(None);
    }
    match AuthCredentials::from_header(header) {
        Some(AuthCredentials::ApiKey(key)) => match key_position(key.as_str(), config.valid_keys.as_slice()) {
            Some(i) => AuthDecision::Allow(Some(i)),
            None => AuthDecision::Reject(owned("invalid API key")),
        },
        Some(AuthCredentials::BearerToken(token)) => match key_position(
            token.as_str(),
            config.valid_keys.as_slice(),
        ) {
            Some(i) => AuthDecision::Allow(Some(i)),
            None => AuthDecision::Reject(owned("invalid session token")),
        },
        None => AuthDecision::Reject(owned("Authorization header required")),
    }
}

/// With authentication off, every request passes, whatever header it carries.
pub proof fn lemma_authorize_disabled(keys: Seq<ApiKey>, header: Option<Seq<char>>)
    ensures
        spec_authorize(false, keys, header) == DecisionView::Allow(None),
{
}

/// With authentication on, a header that presents `key`, the id of a configured
/// key, as `Bearer <key>`, `ApiKey <key>`, or bare (when `key` itself starts
/// with neither), lets the request through with the index of the first key with that id.
pub proof fn lemma_authorize_known_key(keys: Seq<ApiKey>, key: Seq<char>, j: int)
    requires
        0 <= j < keys.len(),
        keys[j].key_id@ == key,
        forall|i: int| 0 <= i < j ==> (#[trigger] keys[i]).key_id@ != key,
    ensures
        spec_authorize(true, keys, Some("Bearer "@ + key)) == DecisionView::Allow(Some(j as usize)),
        spec_authorize(true, keys, Some("ApiKey "@ + key)) == DecisionView::Allow(Some(j as usize)),
        !is_prefix("Bearer "@, key) && !is_prefix("ApiKey "@, key) ==> spec_authorize(
            true,
            keys,
            Some(key),
        ) == DecisionView::Allow(Some(j as usize)),
{
    lemma_first_index_unique(keys, key_is(key), j);
    lemma_presented_credentials(key);
}

/// With authentication on, a header that presents `key` when no configured key
/// has that id is refused: as an invalid session token for `Bearer <key>`, as an
/// invalid API key for `ApiKey <key>`; a request without the header is refused too.
pub proof fn lemma_authorize_unknown_key(keys: Seq<ApiKey>, key: Seq<char>)
    requires
        forall|i: int| 0 <= i < keys.len() ==> (#[trigger] keys[i]).key_id@ != key,
    ensures
        spec_authorize(true, keys, Some("Bearer "@ + key)) == DecisionView::Reject(
            "invalid session token"@,
        ),
        spec_authorize(true, keys, Some("ApiKey "@ + key)) == DecisionView::Reject("invalid API key"@),
        spec_authorize(true, keys, None) == DecisionView::Reject("Authorization header required"@),
{
    lemma_first_index_unique(keys, key_is(key), keys.len() as int);
    lemma_presented_credentials(key);
}

proof fn lemma_presented_credentials(key: Seq<char>)
    ensures
        spec_credentials("Bearer "@ + key) == CredentialsView::BearerToken(key),
        spec_credentials("ApiKey "@ + key) == CredentialsView::ApiKey(key),
        !is_prefix("Bearer "@, key) && !is_prefix("ApiKey "@, key) ==> spec_credentials(key)
            == CredentialsView::ApiKey(key),
{
    reveal_strlit("Bearer ");
    reveal_strlit("ApiKey ");
    let b = "Bearer "@ + key;
    let a = "ApiKey "@ + key;
    assert(b.take(7) =~= "Bearer "@);
    assert(b.skip(7) =~= key);
    assert(a.take(7) =~= "ApiKey "@);
    assert(a.skip(7) =~= key);
    assert(a.take(7)[0] != "Bearer "@[0]);
}

/// The gRPC authorization rule: the `x-api-key` metadata must be a known key id.
pub open spec fn spec_authorize_metadata(enabled: bool, keys: Seq<ApiKey>, key: Option<Seq<char>>) -> Result<(), Seq<char>> {
    if !enabled {
        Ok(())
    } else {
        match key {
            None => Err("x-api-key metadata is required"@),
            Some(k) => if key_index(keys, k) >= 0 {
                Ok(())
            } else {
                Err("invalid API key"@)
            },
        }
    }
}

/// Decides whether a gRPC call with the given `x-api-key` metadata passes;
/// `Err` holds the detail of the `UNAUTHENTICATED` status.
pub fn authorize_metadata(config: &AuthConfig, key: Option<&str>) -> (r: Result<(), String>)
    ensures
        match r {
            Ok(()) => spec_authorize_metadata(
                config.enabled,
                config.valid_keys@,
                match key {
                    Some(k) => Some(k@),
                    None => None,
                },
            ) is Ok,
            Err(d) => spec_authorize_metadata(
                config.enabled,
                config.valid_keys@,
                match key {
                    Some(k) => Some(k@),
                    None => None,
                },
            ) == Err::<(), Seq<char>>(d@),
        },
{
    if !config.enabled {
        return Ok(());
    }
    match key {
        None => Err(owned("x-api-key metadata is required")),
        Some(k) => match key_position(k, config.valid_keys.as_slice()) {
            Some(_) => Ok(()),
            None => Err(owned("invalid API key")),
        },
    }
}

/// The media type of binary protobuf bodies.
pub const PROTOBUF_CONTENT_TYPE: &'static str = "application/protobuf";

/// Some comma-separated item of `value`, trimmed, starts with the protobuf media type.
pub open spec fn value_wants_protobuf(value: Seq<char>) -> bool {
    exists|i: int|
        0 <= i < spec_split(value, ',').len() && is_prefix(
            "application/protobuf"@,
            spec_trim(#[trigger] spec_split(value, ',')[i]),
        )
}

/// Whether a request whose `Accept` and `Content-Type` values are `values` asks for protobuf.
pub fn wants_protobuf(values: &[String]) -> (r: bool)
    ensures
        r == exists|i: int| 0 <= i < values@.len() && value_wants_protobuf(#[trigger] values@[i]@),
{
    let n = values.len();
    let mut i: usize = 0;
    while i < n
        invariant
            n == values@.len(),
            i <= n,
            forall|j: int| 0 <= j < i ==> !value_wants_protobuf(#[trigger] values@[j]@),
        decreases n - i,
    {
        let items = split(values[i].as_str(), ',');
        let m = items.len();
        let mut k: usize = 0;
        while k < m
            invariant
                m == items@.len(),
                n == values@.len(),
                i < n,
                views(items@) == spec_split(values@[i as int]@, ','),
                k <= m,
                forall|j: int| 0 <= j < k ==> !is_prefix(
                    "application/protobuf"@,
                    spec_trim(#[trigger] spec_split(values@[i as int]@, ',')[j]),
                ),
            decreases m - k,
        {
            let t = trim(items[k].as_str());
            assert(views(items@)[k as int] == items@[k as int]@);
            if starts_with(t.as_str(), "application/protobuf") {
                assert(spec_split(values@[i as int]@, ',')[k as int] == items@[k as int]@);
                assert(value_wants_protobuf(values@[i as int]@));
                return true;
            }
            k = k + 1;
        }
        i = i + 1;
    }
    false
}

/// The largest session lifetime, in seconds, that a `chrono` time span can hold
/// (`i64::MAX / 1000`); a longer one, or one below its negation, is refused.
pub const MAX_TTL_SECONDS: i64 = 9_223_372_036_854_775;

/// Microseconds per second.
pub const MICROS_PER_SECOND: i128 = 1_000_000;

/// A login session: a bearer token, the key it was issued for, and when it was
/// created and when it ends, both in microseconds since the Unix epoch.
#[derive(Debug, Clone)]
pub struct Session {
    pub token: String,
    pub api_key_id: String,
    pub created_at: i128,
    pub expires_at: i128,
}

/// The latest instant that `chrono` can represent (the last microsecond of
/// year 262142), in microseconds since the Unix epoch.
pub const MAX_CLOCK_MICROS: i64 = 8_210_266_876_799_999_999;

/// `t` is a reading the clock can give: not before the epoch, not after the
/// latest instant `chrono` represents.
pub open spec fn is_clock_reading(t: int) -> bool {
    0 <= t <= MAX_CLOCK_MICROS
}

/// The machine's clock, in microseconds since the Unix epoch:
/// `chrono::Utc::now()` read through `DateTime::timestamp_micros`.
/// `Utc::now` panics on a clock set before the epoch and unwraps
/// `DateTime::from_timestamp`, which refuses instants past `chrono`'s range, so a
/// reading that comes back lies between the two; which one it is, is the clock's affair.
#[verifier::external_body]
fn now_micros() -> (r: i64)
    ensures
        is_clock_reading(r as int),
{
    chrono::Utc::now().timestamp_micros()
}

/// A lower-case hexadecimal digit.
pub open spec fn is_lower_hex(c: char) -> bool {
    ('0' <= c && c <= '9') || ('a' <= c && c <= 'f')
}

/// The hyphenated text of a random UUID (version 4, RFC 4122 variant): 36
/// characters, hyphens at 8, 13, 18 and 23, lower-case hexadecimal digits
/// elsewhere, the version digit `4` at 14 and one of `8 9 a b` at 19.
pub open spec fn is_uuid_v4_text(s: Seq<char>) -> bool {
    &&& s.len() == 36
    &&& forall|i: int|
        0 <= i < 36 ==> if i == 8 || i == 13 || i == 18 || i == 23 {
            s[i] == '-'
        } else {
            is_lower_hex(#[trigger] s[i])
        }
    &&& s[14] == '4'
    &&& (s[19] == '8' || s[19] == '9' || s[19] == 'a' || s[19] == 'b')
}

/// A fresh random token: `uuid::Uuid::new_v4()` written out by its `Display`
/// (lower-case, hyphenated). `new_v4` masks in the version digit and the
/// variant bits, so the text is a version-4 UUID; its other digits are chance.
#[verifier::external_body]
fn new_token() -> (r: String)
    ensures
        is_uuid_v4_text(r@),
{
    uuid::Uuid::new_v4().to_string()
}

impl Session {
    /// The session with `token` for `api_key_id`, created at `now` (microseconds since
    /// the epoch) and good for `ttl_seconds` seconds.
    pub fn issued(token: String, api_key_id: &str, now: i64, ttl_seconds: i64) -> (r: Self)
        requires
            -MAX_TTL_SECONDS <= ttl_seconds <= MAX_TTL_SECONDS,
        ensures
            r.token@ == token@,
            r.api_key_id@ == api_key_id@,
            r.created_at == now,
            r.expires_at == now + ttl_seconds * MICROS_PER_SECOND,
    {
        let created_at = now as i128;
        let span = (ttl_seconds as i128) * MICROS_PER_SECOND;
        Session { token, api_key_id: owned(api_key_id), created_at, expires_at: created_at + span }
    }

    /// A new session for `api_key_id` with a fresh random token, good for `ttl_seconds`
    /// seconds from now. An end time beyond the dates `chrono` can represent (some
    /// 262,000 years from year 0) is kept as computed.
    pub fn new(api_key_id: &str, ttl_seconds: i64) -> (r: Self)
        requires
            -MAX_TTL_SECONDS <= ttl_seconds <= MAX_TTL_SECONDS,
        ensures
            r.api_key_id@ == api_key_id@,
            is_uuid_v4_text(r.token@),
            r.created_at >= 0,
            r.expires_at == r.created_at + ttl_seconds * MICROS_PER_SECOND,
    {
        let now = now_micros();
        let token = new_token();
        Session::issued(token, api_key_id, now, ttl_seconds)
    }

    /// Whether the session is still good at `now` (microseconds since the epoch).
    pub fn is_valid_at(&self, now: i64) -> (r: bool)
        ensures
            r == (now < self.expires_at),
    {
        (now as i128) < self.expires_at
    }

    /// Whether the session is still good by the clock: whether the clock's
    /// reading comes before the session's end.
    pub fn is_valid(&self) -> (r: bool)
        ensures
            exists|t: int| #[trigger] is_clock_reading(t) && r == (t < self.expires_at),
    {
        let now = now_micros();
        let r = self.is_valid_at(now);
        assert(is_clock_reading(now as int) && r == (now < self.expires_at));
        r
    }

    /// Whether the session has ended by the clock (read anew): whether the
    /// clock's reading is at or after the session's end.
    pub fn is_expired(&self) -> (r: bool)
        ensures
            exists|t: int| #[trigger] is_clock_reading(t) && r == (t >= self.expires_at),
    {
        let valid = self.is_valid();
        let ghost t = choose|t: int| #[trigger] is_clock_reading(t) && valid == (t < self.expires_at);
        assert(is_clock_reading(t) && !valid == (t >= self.expires_at));
        !valid
    }
}

} // verus!
