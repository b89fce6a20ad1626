//! Cache reads over MQTT: the topics of a query and its answer, the
//! subscription retry, and how an answer is read.
use vstd::prelude::*;
use crate::text::{concat, concat3, owned};

verus! {

/// The topic filter the proxy subscribes to for answers.
pub const RESPONSE_TOPICS: &'static str = "ixmati/qry-resp/#";

/// The topic filter the projector subscribes to for events.
pub const EVENT_TOPICS: &'static str = "ixmati/evt/#";

/// How many failed subscriptions in a row are retried before the proxy goes on.
pub const SUBSCRIBE_RETRIES: u32 = 5;

pub open spec fn spec_query_topic(store: Seq<char>, entity: Seq<char>, key: Seq<char>) -> Seq<char> {
    "ixmati/qry/"@ + store + "/"@ + entity + "/"@ + key
}

/// The topic a cache query is published on.
pub fn query_topic(store: &str, entity: &str, key: &str) -> (r: String)
    ensures
        r@ == spec_query_topic(store@, entity@, key@),
{
    let a = concat3("ixmati/qry/", store, "/");
    let b = concat3(a.as_str(), entity, "/");
    let r = concat(b.as_str(), key);
    assert(r@ =~= spec_query_topic(store@, entity@, key@));
    r
}

/// After a subscription attempt: whether to try again, and the count of
/// failures in a row. A success resets the count; up to `SUBSCRIBE_RETRIES`
/// failures in a row are retried, and after that the proxy goes on listening.
pub fn after_subscribe(failures: u32, succeeded: bool) -> (r: (bool, u32))
    requires
        failures <= SUBSCRIBE_RETRIES,
    ensures
        succeeded ==> r == (false, 0u32),
        !succeeded && failures < SUBSCRIBE_RETRIES ==> r == (true, (failures + 1) as u32),
        !succeeded && failures == SUBSCRIBE_RETRIES ==> r == (false, 0u32),
        r.1 <= SUBSCRIBE_RETRIES,
{
    if succeeded {
        return (false, 0);
    }
    let n = failures + 1;
    if n <= SUBSCRIBE_RETRIES {
        (true, n)
    } else {
        (false, 0)
    }
}

/// What a query yields from its answer: the payload when the key was found.
pub fn answer_payload(found: bool, payload: Option<Vec<u8>>) -> (r: Option<Vec<u8>>)
    ensures
        r == if found {
            payload
        } else {
            None::<Vec<u8>>
        },
{
    if found {
        payload
    } else {
        None
    }
}

} // verus!
