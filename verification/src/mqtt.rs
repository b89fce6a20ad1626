//! Broker address parsing.
use vstd::prelude::*;
use crate::text::{
    decimal, has_char, is_digit, is_prefix, lemma_decimal, lemma_parse_decimal,
    lemma_rfind_char_unique, owned, parse_unsigned, rsplit_once, spec_parse_unsigned,
    spec_rsplit_once, trim_start_matches, trim_start_matches_str,
};

verus! {

/// The port that a broker address without one uses.
pub const DEFAULT_MQTT_PORT: u16 = 1883;

/// The broker address without its `tcp://` and `mqtt://` scheme prefixes.
pub open spec fn broker_address(url: Seq<char>) -> Seq<char> {
    trim_start_matches(trim_start_matches(url, "tcp://"@), "mqtt://"@)
}

/// Host and port of a broker address: the text after the last `:` is the port
/// when it parses as a `u16`; otherwise the whole address is the host.
pub open spec fn spec_parse_mqtt_broker(url: Seq<char>) -> (Seq<char>, u16) {
    let cleaned = broker_address(url);
    match spec_rsplit_once(cleaned, ':') {
        Some((host, port)) => match spec_parse_unsigned(port, 65535) {
            Some(p) => (host, p as u16),
            None => (cleaned, 1883),
        },
        None => (cleaned, 1883),
    }
}

/// Splits a broker URL such as `tcp://host:1883` into host and port.
pub fn parse_mqtt_broker(url: &str) -> (r: (String, u16))
    ensures
        r.0@ == spec_parse_mqtt_broker(url@).0,
        r.1 == spec_parse_mqtt_broker(url@).1,
{
    let a = trim_start_matches_str(url, "tcp://");
    let cleaned = trim_start_matches_str(a.as_str(), "mqtt://");
    match rsplit_once(cleaned.as_str(), ':') {
        Some((host, port_str)) => match parse_unsigned(port_str.as_str(), 65535) {
            Some(port) => {
                return (host, port as u16);
            },
            None => {},
        },
        None => {},
    }
    (owned(cleaned.as_str()), DEFAULT_MQTT_PORT)
}

/// `p` does not start `t`: they differ at some position within both.
proof fn lemma_not_prefix_at(p: Seq<char>, t: Seq<char>, k: int)
    requires
        0 <= k < p.len(),
        k < t.len(),
        p[k] != t[k],
    ensures
        !is_prefix(p, t),
{
    if is_prefix(p, t) {
        assert(t.take(p.len() as int)[k] == t[k]);
    }
}

/// A host with no `:` in it: after a scheme prefix the text is the host.
proof fn lemma_address_after_scheme(h: Seq<char>, rest: Seq<char>)
    requires
        !has_char(h, ':'),
        rest.len() == 0 || (rest[0] == ':' && rest.len() > 1 && is_digit(rest[1])),
    ensures
        broker_address("tcp://"@ + h + rest) == h + rest,
        broker_address(h + rest) == h + rest,
{
    reveal_strlit("tcp://");
    reveal_strlit("mqtt://");
    let t = h + rest;
    let s = "tcp://"@ + t;
    assert(s =~= "tcp://"@ + h + rest);
    assert(s.skip(6) =~= t);
    assert(is_prefix("tcp://"@, s)) by {
        assert(s.take(6) =~= "tcp://"@);
    }
    assert forall|j: int| 0 <= j < h.len() implies h[j] != ':' by {
        if h[j] == ':' {
            assert(has_char(h, ':'));
        }
    }
    // Neither scheme starts the host: each has a `:` where the host has none.
    if t.len() >= 6 {
        if h.len() > 3 {
            lemma_not_prefix_at("tcp://"@, t, 3);
        } else if h.len() == 3 {
            assert(t[4] == rest[1]);
            lemma_not_prefix_at("tcp://"@, t, 4);
        } else {
            assert(t[h.len() as int] == ':');
            lemma_not_prefix_at("tcp://"@, t, h.len() as int);
        }
    }
    assert(!is_prefix("tcp://"@, t));
    assert(trim_start_matches(t, "tcp://"@) == t);
    if t.len() >= 7 {
        if h.len() > 4 {
            lemma_not_prefix_at("mqtt://"@, t, 4);
        } else if h.len() == 4 {
            assert(t[5] == rest[1]);
            lemma_not_prefix_at("mqtt://"@, t, 5);
        } else {
            assert(t[h.len() as int] == ':');
            lemma_not_prefix_at("mqtt://"@, t, h.len() as int);
        }
    }
    assert(!is_prefix("mqtt://"@, t));
    assert(trim_start_matches(t, "mqtt://"@) == t);
    assert(trim_start_matches(s, "tcp://"@) == trim_start_matches(s.skip(6), "tcp://"@));
}

/// The address a broker URL is written from is the address read back: a
/// host without `:` and a port give `tcp://host:port`, which parses to them;
/// without a port, the default port.
pub proof fn lemma_broker_round_trip(host: Seq<char>, port: u16)
    requires
        !has_char(host, ':'),
    ensures
        spec_parse_mqtt_broker("tcp://"@ + host + ":"@ + decimal(port as nat)) == (host, port),
        spec_parse_mqtt_broker("tcp://"@ + host) == (host, DEFAULT_MQTT_PORT),
        spec_parse_mqtt_broker(host + ":"@ + decimal(port as nat)) == (host, port),
{
    reveal_strlit(":");
    let d = decimal(port as nat);
    lemma_decimal(port as nat);
    lemma_parse_decimal(port as nat, 65535);
    let rest = ":"@ + d;
    assert(rest[1] == d[0]);
    assert(is_digit(d[0]));
    lemma_address_after_scheme(host, rest);
    lemma_address_after_scheme(host, Seq::empty());
    assert(host + Seq::<char>::empty() =~= host);
    assert(("tcp://"@ + host + ":"@ + d) =~= ("tcp://"@ + host + rest));
    assert((host + ":"@ + d) =~= (host + rest));
    assert(("tcp://"@ + host) =~= ("tcp://"@ + host + Seq::<char>::empty()));
    let t = host + rest;
    assert forall|j: int| host.len() < j < t.len() implies t[j] != ':' by {
        assert(t[j] == d[j - host.len() - 1]);
        assert(is_digit(d[j - host.len() - 1]));
    }
    assert(t[host.len() as int] == ':');
    lemma_rfind_char_unique(t, ':', host.len() as int);
    assert(t.take(host.len() as int) =~= host);
    assert(t.skip(host.len() as int + 1) =~= d);
    assert forall|j: int| -1 < j < host.len() implies host[j] != ':' by {
        if host[j] == ':' {
            assert(has_char(host, ':'));
        }
    }
    lemma_rfind_char_unique(host, ':', -1);
}

} // verus!
