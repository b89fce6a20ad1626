//! Cross-store reads through SQLite `ATTACH`, and the guard that keeps write
//! connections from attaching other databases.
use vstd::prelude::*;
use crate::text::{concat, concat3, owned, str_eq};

verus! {

/// `p` occurs in `s`.
pub open spec fn contains_text(s: Seq<char>, p: Seq<char>) -> bool {
    exists|i: int| 0 <= i && i + p.len() <= s.len() && #[trigger] s.subrange(i, i + p.len()) == p
}

/// Whether `p` occurs in `s`.
pub fn contains(s: &str, p: &str) -> (r: bool)
    ensures
        r == contains_text(s@, p@),
{
    let n = s.unicode_len();
    let m = p.unicode_len();
    if m > n {
        assert forall|i: int| 0 <= i && i + p@.len() <= s@.len() implies #[trigger] s@.subrange(
            i,
            i + p@.len(),
        ) != p@ by {}
        return false;
    }
    if m == 0 {
        assert(s@.subrange(0int, 0int + p@.len()) =~= p@);
        return true;
    }
    let mut i: usize = 0;
    let last = n - m;
    while i <= last
        invariant
            n == s@.len(),
            m == p@.len(),
            1 <= m <= n,
            last == n - m,
            i <= last + 1,
            forall|j: int| 0 <= j < i ==> #[trigger] s@.subrange(j, j + m) != p@,
        decreases last + 1 - i,
    {
        let w = crate::text::slice(s, i, i + m);
        if str_eq(w.as_str(), p) {
            return true;
        }
        i = i + 1;
    }
    assert forall|j: int| 0 <= j && j + p@.len() <= s@.len() implies #[trigger] s@.subrange(
        j,
        j + p@.len(),
    ) != p@ by {
        assert(j < i);
    }
    false
}

/// The statement that attaches the database at `path` under `name`.
pub fn attach_sql(name: &str, path: &str) -> (r: String)
    ensures
        r@ == "ATTACH DATABASE '"@ + path@ + "' AS "@ + name@,
{
    let a = concat3("ATTACH DATABASE '", path, "' AS ");
    concat(a.as_str(), name)
}

/// The statement that detaches the database attached under `name`.
pub fn detach_sql(name: &str) -> (r: String)
    ensures
        r@ == "DETACH DATABASE "@ + name@,
{
    concat("DETACH DATABASE ", name)
}

/// Guards write connections against `ATTACH`.
pub struct WriteConnectionGuard;

impl WriteConnectionGuard {
    /// The `query_only` value to set on a connection whose current value is
    /// `query_only`: a connection already marked read-only is marked again,
    /// any other is left as it is.
    pub fn query_only_update(query_only: bool) -> (r: Option<bool>)
        ensures
            r == if query_only {
                Some(true)
            } else {
                None::<bool>
            },
    {
        if query_only {
            Some(true)
        } else {
            None
        }
    }

    /// What an attempt to attach on a write connection shows: refused with an
    /// authorization error is the expected outcome; any other error is
    /// reported; success means the guard failed (and the caller detaches).
    pub fn attach_outcome(result: &Result<(), String>) -> (r: Result<(), String>)
        ensures
            match result {
                Err(e) => if contains_text(e@, "not authorized"@) {
                    r is Ok
                } else {
                    r matches Err(m) && m@ == "unexpected error: "@ + e@
                },
                Ok(()) => r matches Err(m) && m@ == "ATTACH should be blocked on write connections"@,
            },
    {
        match result {
            Err(e) => {
                if contains(e.as_str(), "not authorized") {
                    Ok(())
                } else {
                    Err(concat("unexpected error: ", e.as_str()))
                }
            },
            Ok(()) => Err(owned("ATTACH should be blocked on write connections")),
        }
    }
}

} // verus!
