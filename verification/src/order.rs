//! The lexicographic order of text, as `str` compares it (by code point).
use vstd::prelude::*;

verus! {

/// The outcome of comparing two values.
#[derive(Debug, Clone, Copy, PartialEq, Eq, Structural)]
pub enum Order {
    Less,
    Equal,
    Greater,
}

/// `a` and `b` agree below `k`, and `k` is where `a` first falls below `b`:
/// either `a` ends there while `b` goes on, or `a[k] < b[k]`.
pub open spec fn lt_at(a: Seq<char>, b: Seq<char>, k: int) -> bool {
    &&& 0 <= k <= a.len()
    &&& k <= b.len()
    &&& forall|j: int| 0 <= j < k ==> a[j] == b[j]
    &&& ((k == a.len() && k < b.len()) || (k < a.len() && k < b.len() && a[k] < b[k]))
}

/// `a` comes strictly before `b`.
pub open spec fn text_lt(a: Seq<char>, b: Seq<char>) -> bool {
    exists|k: int| #[trigger] lt_at(a, b, k)
}

proof fn lemma_lt_at_exclusive(a: Seq<char>, b: Seq<char>, k1: int, k2: int)
    requires
        lt_at(a, b, k1),
    ensures
        !lt_at(b, a, k2),
{
    if lt_at(b, a, k2) {
        if k2 < k1 {
            assert(a[k2] == b[k2]);
        } else if k1 < k2 {
            assert(b[k1] == a[k1]);
        }
    }
}

/// No text comes before itself, and of two texts at most one comes first.
pub proof fn lemma_text_lt_asymmetric(a: Seq<char>, b: Seq<char>)
    ensures
        text_lt(a, b) ==> !text_lt(b, a),
        !text_lt(a, a),
{
    if text_lt(a, b) {
        let k1 = choose|k: int| lt_at(a, b, k);
        assert forall|k2: int| !lt_at(b, a, k2) by {
            lemma_lt_at_exclusive(a, b, k1, k2);
        }
    }
    if text_lt(a, a) {
        let k1 = choose|k: int| lt_at(a, a, k);
        lemma_lt_at_exclusive(a, a, k1, k1);
    }
}

/// The order is transitive.
pub proof fn lemma_text_lt_transitive(a: Seq<char>, b: Seq<char>, c: Seq<char>)
    requires
        text_lt(a, b),
        text_lt(b, c),
    ensures
        text_lt(a, c),
{
    let k1 = choose|k: int| lt_at(a, b, k);
    let k2 = choose|k: int| lt_at(b, c, k);
    if k1 < k2 {
        assert(b[k1] == c[k1] || k1 == a.len());
        assert(lt_at(a, c, k1));
    } else if k2 < k1 {
        assert(a[k2] == b[k2]);
        assert(lt_at(a, c, k2));
    } else {
        assert(lt_at(a, c, k1));
    }
}

/// Compares two texts in the order that `str` values have.
pub fn compare_text(a: &str, b: &str) -> (r: Order)
    ensures
        (r == Order::Less) == text_lt(a@, b@),
        (r == Order::Greater) == text_lt(b@, a@),
        (r == Order::Equal) == (a@ == b@),
{
    proof {
        lemma_text_lt_asymmetric(a@, b@);
        lemma_text_lt_asymmetric(b@, a@);
    }
    let n = a.unicode_len();
    let m = b.unicode_len();
    let mut i: usize = 0;
    while i < n && i < m
        invariant
            n == a@.len(),
            m == b@.len(),
            i <= n,
            i <= m,
            forall|j: int| 0 <= j < i ==> a@[j] == b@[j],
        decreases n - i,
    {
        let ca = a.get_char(i);
        let cb = b.get_char(i);
        if ca < cb {
            assert(lt_at(a@, b@, i as int));
            return Order::Less;
        }
        if cb < ca {
            assert(lt_at(b@, a@, i as int));
            return Order::Greater;
        }
        i = i + 1;
    }
    if n < m {
        assert(lt_at(a@, b@, n as int));
        Order::Less
    } else if m < n {
        assert(lt_at(b@, a@, m as int));
        Order::Greater
    } else {
        assert(a@ =~= b@);
        Order::Equal
    }
}

} // verus!
