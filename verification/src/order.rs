//! The order of texts by their characters, and sorted lists of texts.

use vstd::prelude::*;
use vstd::string::*;

use crate::lines::texts;
use crate::text::{chars_of, code_point};

verus! {

/// `a` stands before `b`, or is `b`, in the order that compares the first
/// characters that differ and puts a text before those that it begins.
pub open spec fn at_most(a: Seq<char>, b: Seq<char>) -> bool
    decreases a.len(),
{
    if a.len() == 0 {
        true
    } else if b.len() == 0 {
        false
    } else if a[0] == b[0] {
        at_most(a.drop_first(), b.drop_first())
    } else {
        (a[0] as int) < (b[0] as int)
    }
}

/// Each text stands before the ones after it, so none stands twice.
pub open spec fn ascending(v: Seq<Seq<char>>) -> bool {
    forall|i: int, j: int|
        0 <= i < j < v.len() ==> (#[trigger] v[i]) != (#[trigger] v[j]) && at_most(v[i], v[j])
}

/// Of two texts one stands before the other.
pub proof fn lemma_order_total(a: Seq<char>, b: Seq<char>)
    ensures
        at_most(a, b) || at_most(b, a),
        at_most(a, b) && at_most(b, a) ==> a == b,
        at_most(a, a),
    decreases a.len(),
{
    if a.len() > 0 {
        lemma_order_total(a.drop_first(), a.drop_first());
        if b.len() > 0 {
            lemma_order_total(a.drop_first(), b.drop_first());
            if a[0] == b[0] && a.drop_first() == b.drop_first() {
                assert(a == seq![a[0]] + a.drop_first());
                assert(b == seq![b[0]] + b.drop_first());
            }
        }
    } else if b.len() == 0 {
        assert(a == b);
    }
}

/// The order is transitive.
pub proof fn lemma_order_transitive(a: Seq<char>, b: Seq<char>, c: Seq<char>)
    requires
        at_most(a, b),
        at_most(b, c),
    ensures
        at_most(a, c),
    decreases a.len(),
{
    if a.len() > 0 && b.len() > 0 && c.len() > 0 && a[0] == b[0] && b[0] == c[0] {
        lemma_order_transitive(a.drop_first(), b.drop_first(), c.drop_first());
    }
}

/// Only one ascending list holds a given set of texts.
pub proof fn lemma_ascending_unique(v: Seq<Seq<char>>, w: Seq<Seq<char>>)
    requires
        ascending(v),
        ascending(w),
        v.to_set() == w.to_set(),
    ensures
        v == w,
    decreases v.len(),
{
    if v.len() == 0 {
        if w.len() > 0 {
            assert(w.to_set().contains(w[0]));
            assert(v.contains(w[0]));
        }
        assert(v == w);
    } else {
        assert(v.to_set().contains(v[0]));
        assert(w.contains(v[0]));
        assert(w.to_set().contains(w[0]));
        assert(v.contains(w[0]));
        let i = choose|i: int| 0 <= i < w.len() && w[i] == v[0];
        let j = choose|j: int| 0 <= j < v.len() && v[j] == w[0];
        lemma_order_total(v[0], w[0]);
        assert(v[0] == w[0]) by {
            if i > 0 {
                assert(at_most(w[0], w[i]));
            }
            if j > 0 {
                assert(at_most(v[0], v[j]));
            }
        }
        let a = v.drop_first();
        let b = w.drop_first();
        assert forall|x: Seq<char>| a.to_set().contains(x) implies b.to_set().contains(x) by {
            let k = choose|k: int| 0 <= k < a.len() && a[k] == x;
            assert(v[k + 1] == x);
            assert(v[0] != v[k + 1]);
            assert(v.to_set().contains(x));
            assert(w.contains(x));
            let m = choose|m: int| 0 <= m < w.len() && w[m] == x;
            assert(b[m - 1] == x);
        }
        assert forall|x: Seq<char>| b.to_set().contains(x) implies a.to_set().contains(x) by {
            let k = choose|k: int| 0 <= k < b.len() && b[k] == x;
            assert(w[k + 1] == x);
            assert(w[0] != w[k + 1]);
            assert(w.to_set().contains(x));
            assert(v.contains(x));
            let m = choose|m: int| 0 <= m < v.len() && v[m] == x;
            assert(a[m - 1] == x);
        }
        assert(a.to_set() == b.to_set());
        assert(ascending(a)) by {
            assert forall|p: int, q: int| 0 <= p < q < a.len() implies (#[trigger] a[p])
                != (#[trigger] a[q]) && at_most(a[p], a[q]) by {
                assert(a[p] == v[p + 1] && a[q] == v[q + 1]);
            }
        }
        assert(ascending(b)) by {
            assert forall|p: int, q: int| 0 <= p < q < b.len() implies (#[trigger] b[p])
                != (#[trigger] b[q]) && at_most(b[p], b[q]) by {
                assert(b[p] == w[p + 1] && b[q] == w[q + 1]);
            }
        }
        lemma_ascending_unique(a, b);
        assert(v == seq![v[0]] + a);
        assert(w == seq![w[0]] + b);
    }
}

/// Whether `a` stands before `b` or is `b`.
pub fn is_at_most(a: &str, b: &str) -> (r: bool)
    ensures
        r == at_most(a@, b@),
{
    let v = chars_of(a);
    let w = chars_of(b);
    let mut i: usize = 0;
    assert(v@.skip(0) == v@);
    assert(w@.skip(0) == w@);
    while i < v.len() && i < w.len()
        invariant
            i <= v.len(),
            i <= w.len(),
            v@ == a@,
            w@ == b@,
            at_most(v@, w@) == at_most(v@.skip(i as int), w@.skip(i as int)),
        decreases v.len() - i,
    {
        if v[i] != w[i] {
            return code_point(v[i]) < code_point(w[i]);
        }
        assert(v@.skip(i as int).drop_first() == v@.skip(i + 1));
        assert(w@.skip(i as int).drop_first() == w@.skip(i + 1));
        i += 1;
    }
    i == v.len()
}

/// Puts `s` into an ascending list that does not hold it.
pub fn insert_ascending(v: &mut Vec<String>, s: String)
    requires
        ascending(texts(old(v)@)),
        !texts(old(v)@).contains(s@),
    ensures
        ascending(texts(final(v)@)),
        texts(final(v)@).to_set() == texts(old(v)@).to_set().insert(s@),
{
    let ghost t = texts(v@);
    let mut i: usize = 0;
    while i < v.len() && is_at_most(v[i].as_str(), s.as_str())
        invariant
            i <= v.len(),
            t == texts(v@),
            forall|j: int| 0 <= j < i ==> at_most(#[trigger] t[j], s@),
        decreases v.len() - i,
    {
        i += 1;
    }
    let ghost x = s@;
    let ghost n = i as int;
    proof {
        assert forall|j: int| n <= j < t.len() implies at_most(x, #[trigger] t[j]) by {
            lemma_order_total(t[n], x);
            if j > n {
                assert(at_most(t[n], t[j]));
                lemma_order_transitive(x, t[n], t[j]);
            }
        }
    }
    v.insert(i, s);
    let ghost u = texts(v@);
    proof {
        assert(u == t.insert(n, x));
        assert forall|p: int, q: int| 0 <= p < q < u.len() implies (#[trigger] u[p])
            != (#[trigger] u[q]) && at_most(u[p], u[q]) by {
            let a = if p < n { p } else { p - 1 };
            let b = if q < n { q } else { q - 1 };
            if p == n {
                assert(u[q] == t[b]);
                assert(t.contains(t[b]));
            } else if q == n {
                assert(u[p] == t[a]);
                assert(t.contains(t[a]));
            } else {
                assert(u[p] == t[a] && u[q] == t[b]);
            }
        }
        assert forall|y: Seq<char>| u.to_set().contains(y) <==> t.to_set().insert(x).contains(y) by {
            if u.contains(y) {
                let k = choose|k: int| 0 <= k < u.len() && u[k] == y;
                if k != n {
                    assert(y == t[if k < n { k } else { k - 1 }]);
                }
            }
            if t.contains(y) {
                let k = choose|k: int| 0 <= k < t.len() && t[k] == y;
                assert(u[if k < n { k } else { k + 1 }] == y);
            }
            if y == x {
                assert(u[n] == x);
            }
        }
        assert(u.to_set() == t.to_set().insert(x));
    }
}

} // verus!
