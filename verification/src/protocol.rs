//! The line protocol spoken between cache clients and the cache server.
//!
//! Requests are one line each (`GET k`, `SET k n` followed by `n` payload bytes
//! and a line break, `DEL k`, `DEL_PREFIX p`, `FLUSH`); replies are `OK`,
//! `MISS`, `HIT n` followed by the payload and a line break, or `ERR ...`.
use vstd::prelude::*;
use crate::cache::CacheBackend;
use crate::text::{
    concat, concat3, format_decimal, has_ws, lemma_parse_decimal, lemma_trim_fixed,
    lemma_trim_line, decimal, is_ws, owned, parse_unsigned, spec_parse_unsigned, spec_split_once,
    spec_strip_prefix, spec_trim, split_once, str_eq, strip_prefix, trim,
};

verus! {

/// A request line, as the server reads it.
#[derive(Debug)]
pub enum Command {
    Get(String),
    Store { key: String, len: usize },
    Del(String),
    DelPrefix(String),
    Flush,
    InvalidSet,
    InvalidLength,
    Unknown,
}

/// A request line as values.
pub enum CommandView {
    Get(Seq<char>),
    Store(Seq<char>, nat),
    Del(Seq<char>),
    DelPrefix(Seq<char>),
    Flush,
    InvalidSet,
    InvalidLength,
    Unknown,
}

impl View for Command {
    type V = CommandView;

    open spec fn view(&self) -> CommandView {
        match self {
            Command::Get(k) => CommandView::Get(k@),
            Command::Store { key, len } => CommandView::Store(key@, *len as nat),
            Command::Del(k) => CommandView::Del(k@),
            Command::DelPrefix(p) => CommandView::DelPrefix(p@),
            Command::Flush => CommandView::Flush,
            Command::InvalidSet => CommandView::InvalidSet,
            Command::InvalidLength => CommandView::InvalidLength,
            Command::Unknown => CommandView::Unknown,
        }
    }
}

/// The `SET` arguments: the key up to the first space, then the payload length.
pub open spec fn spec_set_command(rest: Seq<char>) -> CommandView {
    match spec_split_once(rest, ' ') {
        None => CommandView::InvalidSet,
        Some((key, len)) => match spec_parse_unsigned(len, usize::MAX as nat) {
            None => CommandView::InvalidLength,
            Some(n) => CommandView::Store(key, n),
        },
    }
}

/// What a trimmed, non-empty request line asks for.
pub open spec fn spec_parse_command(line: Seq<char>) -> CommandView {
    if let Some(k) = spec_strip_prefix(line, "GET "@) {
        CommandView::Get(spec_trim(k))
    } else if let Some(rest) = spec_strip_prefix(line, "SET "@) {
        spec_set_command(rest)
    } else if let Some(k) = spec_strip_prefix(line, "DEL "@) {
        CommandView::Del(spec_trim(k))
    } else if let Some(p) = spec_strip_prefix(line, "DEL_PREFIX "@) {
        CommandView::DelPrefix(spec_trim(p))
    } else if spec_trim(line) == "FLUSH"@ {
        CommandView::Flush
    } else {
        CommandView::Unknown
    }
}

/// Reads a request line the way the server does.
pub fn parse_command(line: &str) -> (r: Command)
    ensures
        r@ == spec_parse_command(line@),
{
    if let Some(k) = strip_prefix(line, "GET ") {
        return Command::Get(trim(k.as_str()));
    }
    if let Some(rest) = strip_prefix(line, "SET ") {
        return match split_once(rest.as_str(), ' ') {
            None => Command::InvalidSet,
            Some((key, len)) => match parse_unsigned(len.as_str(), usize::MAX as u64) {
                None => Command::InvalidLength,
                Some(n) => Command::Store { key, len: n as usize },
            },
        };
    }
    if let Some(k) = strip_prefix(line, "DEL ") {
        return Command::Del(trim(k.as_str()));
    }
    if let Some(p) = strip_prefix(line, "DEL_PREFIX ") {
        return Command::DelPrefix(trim(p.as_str()));
    }
    let t = trim(line);
    if str_eq(t.as_str(), "FLUSH") {
        Command::Flush
    } else {
        Command::Unknown
    }
}

pub open spec fn ascii(s: Seq<char>) -> Seq<u8> {
    vstd::utf8::encode_utf8(s)
}

/// The reply to a lookup: `HIT n`, the payload and a line break; or `MISS`.
pub open spec fn spec_lookup_reply(found: Option<Seq<u8>>) -> Seq<u8> {
    match found {
        Some(p) => ascii("HIT "@ + decimal(p.len()) + "\n"@) + p + seq![10u8],
        None => ascii("MISS\n"@),
    }
}

/// The reply to every command but a lookup.
pub open spec fn spec_status_reply(c: CommandView) -> Seq<char> {
    match c {
        CommandView::InvalidSet => "ERR invalid SET\n"@,
        CommandView::InvalidLength => "ERR invalid length\n"@,
        CommandView::Unknown => "ERR unknown command\n"@,
        _ => "OK\n"@,
    }
}

fn append_bytes(out: &mut Vec<u8>, data: &[u8])
    ensures
        final(out)@ == old(out)@ + data@,
{
    let mut i: usize = 0;
    while i < data.len()
        invariant
            i <= data@.len(),
            out@ == old(out)@ + data@.take(i as int),
        decreases data@.len() - i,
    {
        out.push(data[i]);
        assert(data@.take(i + 1) =~= data@.take(i as int).push(data@[i as int]));
        i = i + 1;
    }
    assert(data@.take(data@.len() as int) =~= data@);
}

fn text_bytes(s: &str) -> (r: Vec<u8>)
    ensures
        r@ == ascii(s@),
{
    let mut out: Vec<u8> = Vec::new();
    append_bytes(&mut out, s.as_bytes());
    assert(out@ =~= ascii(s@));
    out
}

/// The bytes the server writes for a lookup.
pub fn lookup_reply(found: Option<&[u8]>) -> (r: Vec<u8>)
    ensures
        r@ == spec_lookup_reply(match found {
            Some(p) => Some(p@),
            None => None,
        }),
{
    match found {
        Some(p) => {
            let header = concat3("HIT ", format_decimal(p.len() as u64).as_str(), "\n");
            let mut out = text_bytes(header.as_str());
            append_bytes(&mut out, p);
            out.push(10u8);
            out
        },
        None => text_bytes("MISS\n"),
    }
}

/// The line the server writes for a command other than a lookup.
pub fn status_reply(c: &Command) -> (r: &'static str)
    ensures
        r@ == spec_status_reply(c@),
{
    match c {
        Command::InvalidSet => "ERR invalid SET\n",
        Command::InvalidLength => "ERR invalid length\n",
        Command::Unknown => "ERR unknown command\n",
        _ => "OK\n",
    }
}

/// A cache read as values.
pub open spec fn found_view(found: Option<Vec<u8>>) -> Option<Seq<u8>> {
    match found {
        Some(v) => Some(v@),
        None => None,
    }
}

/// Carries out one command against the cache, in the server's namespace
/// `cache`, where the command's key stands in the entity's place and the
/// entity's own key is empty, and returns the reply: a lookup reads the
/// command's key and answers with what it found; a store writes `payload` (the
/// bytes read after the line) under the key; a removal removes the key, or
/// every key under the prefix; a flush empties the namespace; each of these
/// answers `OK`. A malformed or unknown command touches nothing and answers
/// its error line.
pub fn process_command<B: CacheBackend>(cache: &B, c: &Command, payload: &[u8]) -> (r: Vec<u8>)
    ensures
        !(c is Get) ==> r@ == ascii(spec_status_reply(c@)),
        match c@ {
            CommandView::Get(k) => exists|key: &str, found: Option<Vec<u8>>|
                #[trigger] call_ensures(B::get, (cache, "cache", key, ""), found) && key@ == k
                    && r@ == spec_lookup_reply(found_view(found)),
            CommandView::Store(k, _) => exists|key: &str|
                #[trigger] call_ensures(B::set, (cache, "cache", key, "", payload), ()) && key@ == k,
            CommandView::Del(k) => exists|key: &str|
                #[trigger] call_ensures(B::del, (cache, "cache", key, ""), ()) && key@ == k,
            CommandView::DelPrefix(p) => exists|prefix: &str|
                #[trigger] call_ensures(B::delete_by_prefix, (cache, "cache", prefix), ()) && prefix@
                    == p,
            CommandView::Flush => call_ensures(B::flush, (cache, "cache"), ()),
            _ => true,
        },
{
    match c {
        Command::Get(key) => {
            let k = key.as_str();
            let found = cache.get("cache", k, "");
            assert(call_ensures(B::get, (cache, "cache", k, ""), found));
            let r = match &found {
                Some(v) => lookup_reply(Some(v.as_slice())),
                None => lookup_reply(None),
            };
            assert(r@ == spec_lookup_reply(found_view(found)));
            r
        },
        Command::Store { key, .. } => {
            let k = key.as_str();
            cache.set("cache", k, "", payload);
            assert(call_ensures(B::set, (cache, "cache", k, "", payload), ()));
            text_bytes(status_reply(c))
        },
        Command::Del(key) => {
            let k = key.as_str();
            cache.del("cache", k, "");
            assert(call_ensures(B::del, (cache, "cache", k, ""), ()));
            text_bytes(status_reply(c))
        },
        Command::DelPrefix(prefix) => {
            let p = prefix.as_str();
            cache.delete_by_prefix("cache", p);
            assert(call_ensures(B::delete_by_prefix, (cache, "cache", p), ()));
            text_bytes(status_reply(c))
        },
        Command::Flush => {
            cache.flush("cache");
            assert(call_ensures(B::flush, (cache, "cache"), ()));
            text_bytes(status_reply(c))
        },
        _ => text_bytes(status_reply(c)),
    }
}

/// The request line of a lookup.
pub fn get_request(key: &str) -> (r: String)
    ensures
        r@ == "GET "@ + key@ + "\n"@,
{
    concat3("GET ", key, "\n")
}

/// The request line that precedes `len` payload bytes of a store.
pub fn set_request(key: &str, len: usize) -> (r: String)
    ensures
        r@ == "SET "@ + key@ + " "@ + decimal(len as nat) + "\n"@,
{
    let head = concat3("SET ", key, " ");
    let r = concat3(head.as_str(), format_decimal(len as u64).as_str(), "\n");
    r
}

/// The request line of a removal.
pub fn del_request(key: &str) -> (r: String)
    ensures
        r@ == "DEL "@ + key@ + "\n"@,
{
    concat3("DEL ", key, "\n")
}

/// The request line of a removal by prefix.
pub fn del_prefix_request(prefix: &str) -> (r: String)
    ensures
        r@ == "DEL_PREFIX "@ + prefix@ + "\n"@,
{
    concat3("DEL_PREFIX ", prefix, "\n")
}

/// The request line that empties the cache.
pub fn flush_request() -> (r: String)
    ensures
        r@ == "FLUSH\n"@,
{
    owned("FLUSH\n")
}

/// The payload length that a reply header announces: `Some(n)` for `HIT n`.
pub open spec fn spec_hit_length(header: Seq<char>) -> Option<nat> {
    match spec_strip_prefix(spec_trim(header), "HIT "@) {
        Some(n) => spec_parse_unsigned(spec_trim(n), usize::MAX as nat),
        None => None,
    }
}

/// Reads a reply header the way the clients do.
pub fn parse_hit_header(header: &str) -> (r: Option<usize>)
    ensures
        match r {
            Some(n) => spec_hit_length(header@) == Some(n as nat),
            None => spec_hit_length(header@) is None,
        },
{
    let t = trim(header);
    match strip_prefix(t.as_str(), "HIT ") {
        Some(n) => match parse_unsigned(trim(n.as_str()).as_str(), usize::MAX as u64) {
            Some(v) => Some(v as usize),
            None => None,
        },
        None => None,
    }
}

/// A key that the protocol carries unchanged: not empty, no white space.
pub open spec fn wire_key(k: Seq<char>) -> bool {
    k.len() > 0 && !has_ws(k)
}

proof fn lemma_wire_key_trim(k: Seq<char>)
    requires
        wire_key(k),
    ensures
        spec_trim(k) == k,
        !is_ws(k[0]),
        !is_ws(k.last()),
{
    if is_ws(k[0]) {
        assert(has_ws(k));
    }
    if is_ws(k.last()) {
        assert(has_ws(k));
    }
    lemma_trim_fixed(k);
}

/// What a client sends is what the server reads: each request line, once
/// trimmed as the server trims it, parses back to the same command.
pub proof fn lemma_requests_round_trip(key: Seq<char>, len: nat)
    requires
        wire_key(key),
        len <= usize::MAX,
    ensures
        spec_parse_command(spec_trim("GET "@ + key + "\n"@)) == CommandView::Get(key),
        spec_parse_command(spec_trim("SET "@ + key + " "@ + decimal(len) + "\n"@)) == CommandView::Store(
            key,
            len,
        ),
        spec_parse_command(spec_trim("DEL "@ + key + "\n"@)) == CommandView::Del(key),
        spec_parse_command(spec_trim("DEL_PREFIX "@ + key + "\n"@)) == CommandView::DelPrefix(
            key,
        ),
        spec_parse_command(spec_trim("FLUSH\n"@)) == CommandView::Flush,
{
    reveal_strlit("GET ");
    reveal_strlit("SET ");
    reveal_strlit("DEL ");
    reveal_strlit("DEL_PREFIX ");
    reveal_strlit("FLUSH");
    reveal_strlit("FLUSH\n");
    reveal_strlit("\n");
    reveal_strlit(" ");
    lemma_wire_key_trim(key);
    crate::text::lemma_decimal(len);
    lemma_parse_decimal(len, usize::MAX as nat);
    let d = decimal(len);
    assert(crate::text::is_digit(d.last()));
    assert(!is_ws(d.last()));
    let g = "GET "@ + key;
    assert(g.last() == key.last());
    lemma_trim_line(g);
    assert(("GET "@ + key + "\n"@) =~= g.push('\n'));
    assert(spec_strip_prefix(g, "GET "@) == Some(key)) by {
        assert(g.take(4) =~= "GET "@);
        assert(g.skip(4) =~= key);
    }
    let s = "SET "@ + key + " "@ + d;
    assert(s.last() == d.last());
    lemma_trim_line(s);
    assert(("SET "@ + key + " "@ + d + "\n"@) =~= s.push('\n'));
    let rest = key + " "@ + d;
    assert(spec_strip_prefix(s, "GET "@) is None) by {
        assert(s[0] == 'S');
    }
    assert(spec_strip_prefix(s, "SET "@) == Some(rest)) by {
        assert(s.take(4) =~= "SET "@);
        assert(s.skip(4) =~= rest);
    }
    assert(spec_split_once(rest, ' ') == Some((key, d))) by {
        assert(!has_ws(key));
        assert forall|j: int| 0 <= j < key.len() implies rest[j] != ' ' by {
            if rest[j] == ' ' {
                assert(is_ws(key[j]));
            }
        }
        crate::text::lemma_find_char_unique(rest, ' ', key.len() as int);
        assert(rest.subrange(0, key.len() as int) =~= key);
        assert(rest.subrange(key.len() as int + 1, rest.len() as int) =~= d);
    }
    let e = "DEL "@ + key;
    assert(e.last() == key.last());
    lemma_trim_line(e);
    assert(("DEL "@ + key + "\n"@) =~= e.push('\n'));
    assert(spec_strip_prefix(e, "GET "@) is None) by {
        assert(e[0] == 'D');
    }
    assert(spec_strip_prefix(e, "SET "@) is None) by {
        assert(e[0] == 'D');
    }
    assert(spec_strip_prefix(e, "DEL "@) == Some(key)) by {
        assert(e.take(4) =~= "DEL "@);
        assert(e.skip(4) =~= key);
    }
    let f = "DEL_PREFIX "@ + key;
    assert(f.last() == key.last());
    lemma_trim_line(f);
    assert(("DEL_PREFIX "@ + key + "\n"@) =~= f.push('\n'));
    assert(spec_strip_prefix(f, "GET "@) is None) by {
        assert(f[0] == 'D');
    }
    assert(spec_strip_prefix(f, "SET "@) is None) by {
        assert(f[0] == 'D');
    }
    assert(spec_strip_prefix(f, "DEL "@) is None) by {
        assert(f[3] == '_');
        assert(f.take(4)[3] == '_');
        assert("DEL "@[3] == ' ');
        assert(f.take(4) != "DEL "@);
    }
    assert(spec_strip_prefix(f, "DEL_PREFIX "@) == Some(key)) by {
        assert(f.take(11) =~= "DEL_PREFIX "@);
        assert(f.skip(11) =~= key);
    }
    let h = "FLUSH"@;
    lemma_trim_line(h);
    assert("FLUSH\n"@ =~= h.push('\n'));
    lemma_trim_fixed(h);
    assert(spec_strip_prefix(h, "GET "@) is None) by {
        assert(h[0] == 'F');
    }
    assert(spec_strip_prefix(h, "SET "@) is None) by {
        assert(h[0] == 'F');
    }
    assert(spec_strip_prefix(h, "DEL "@) is None) by {
        assert(h[0] == 'F');
    }
    assert(spec_strip_prefix(h, "DEL_PREFIX "@) is None);
}

/// The length that the server announces is the length the client reads.
pub proof fn lemma_hit_header_round_trip(len: nat)
    requires
        len <= usize::MAX,
    ensures
        spec_hit_length("HIT "@ + decimal(len) + "\n"@) == Some(len),
{
    reveal_strlit("HIT ");
    reveal_strlit("\n");
    crate::text::lemma_decimal(len);
    lemma_parse_decimal(len, usize::MAX as nat);
    let d = decimal(len);
    assert(crate::text::is_digit(d.last()));
    assert(crate::text::is_digit(d[0]));
    let h = "HIT "@ + d;
    assert(h.last() == d.last());
    lemma_trim_line(h);
    assert(("HIT "@ + d + "\n"@) =~= h.push('\n'));
    assert(spec_strip_prefix(h, "HIT "@) == Some(d)) by {
        assert(h.take(4) =~= "HIT "@);
        assert(h.skip(4) =~= d);
    }
    lemma_trim_fixed(d);
}

} // verus!
