//! Searching a sequence for a pattern, splitting at it and replacing it, with
//! the conditions under which a replaced pattern is gone for good.

use vstd::prelude::*;
use vstd::string::*;

use crate::text::chars_of;

verus! {

// ---------------------------------------------------------------------------
// Occurrences
// ---------------------------------------------------------------------------

/// `p` stands in `s` at position `i`.
pub open spec fn occurs_at<T>(s: Seq<T>, p: Seq<T>, i: int) -> bool {
    &&& 0 <= i
    &&& i + p.len() <= s.len()
    &&& s.subrange(i, i + p.len()) == p
}

/// `p` stands somewhere in `s`.
pub open spec fn contains<T>(s: Seq<T>, p: Seq<T>) -> bool {
    exists|i: int| occurs_at(s, p, i)
}

/// The first position from `i` on at which `p` stands in `s`.
pub open spec fn find_from<T>(s: Seq<T>, p: Seq<T>, i: int) -> Option<int>
    decreases s.len() - i + 1,
{
    if i < 0 || i + p.len() > s.len() {
        None
    } else if occurs_at(s, p, i) {
        Some(i)
    } else {
        find_from(s, p, i + 1)
    }
}

/// What stands before and after the first `p` in `s`.
pub open spec fn split_at_first<T>(s: Seq<T>, p: Seq<T>) -> Option<(Seq<T>, Seq<T>)> {
    match find_from(s, p, 0) {
        Some(i) => Some((s.take(i), s.skip(i + p.len()))),
        None => None,
    }
}

/// `s` begins with `p`.
pub open spec fn starts_with<T>(s: Seq<T>, p: Seq<T>) -> bool {
    p.len() <= s.len() && s.take(p.len() as int) == p
}

/// `s` ends with `p`.
pub open spec fn ends_with<T>(s: Seq<T>, p: Seq<T>) -> bool {
    p.len() <= s.len() && s.skip(s.len() - p.len()) == p
}

/// `find_from` is the first occurrence, and finds one whenever there is one.
pub proof fn lemma_find<T>(s: Seq<T>, p: Seq<T>, i: int)
    requires
        0 <= i,
    ensures
        match find_from(s, p, i) {
            Some(k) => {
                &&& i <= k
                &&& occurs_at(s, p, k)
                &&& forall|j: int| i <= j < k ==> !#[trigger] occurs_at(s, p, j)
            },
            None => forall|j: int| i <= j ==> !#[trigger] occurs_at(s, p, j),
        },
    decreases s.len() - i + 1,
{
    if i + p.len() > s.len() {
    } else if occurs_at(s, p, i) {
    } else {
        lemma_find(s, p, i + 1);
    }
}

/// A first occurrence is what `find_from` returns.
pub proof fn lemma_find_is<T>(s: Seq<T>, p: Seq<T>, i: int, k: int)
    requires
        0 <= i <= k,
        occurs_at(s, p, k),
        forall|j: int| i <= j < k ==> !#[trigger] occurs_at(s, p, j),
    ensures
        find_from(s, p, i) == Some(k),
{
    lemma_find(s, p, i);
}

/// Searching from `i` on is searching what stands from `i` on.
pub proof fn lemma_find_shift<T>(s: Seq<T>, p: Seq<T>, i: int, j: int)
    requires
        0 <= i <= j,
        i <= s.len(),
    ensures
        find_from(s, p, j) == (match find_from(s.skip(i), p, j - i) {
            Some(k) => Some(k + i),
            None => None::<int>,
        }),
    decreases s.len() - j + 1,
{
    if j + p.len() > s.len() {
    } else {
        assert(s.skip(i).subrange(j - i, j - i + p.len()) == s.subrange(j, j + p.len()));
        if !occurs_at(s, p, j) {
            lemma_find_shift(s, p, i, j + 1);
        }
    }
}

/// The first position from `from` on at which `p` stands in `v`.
pub fn find_chars(v: &Vec<char>, p: &Vec<char>, from: usize) -> (r: Option<usize>)
    ensures
        find_from(v@, p@, from as int) == (match r {
            Some(k) => Some(k as int),
            None => None::<int>,
        }),
{
    let mut i: usize = from;
    while p.len() <= v.len() && i <= v.len() - p.len()
        invariant
            from <= i,
            find_from(v@, p@, from as int) == find_from(v@, p@, i as int),
        decreases v.len() - i,
    {
        let mut j: usize = 0;
        while j < p.len() && v[i + j] == p[j]
            invariant
                j <= p.len(),
                i + p.len() <= v.len(),
                v@.subrange(i as int, i + j) == p@.take(j as int),
            decreases p.len() - j,
        {
            assert(v@.subrange(i as int, i + j + 1) == v@.subrange(i as int, i + j).push(
                v@[i + j],
            ));
            assert(p@.take(j + 1) == p@.take(j as int).push(p@[j as int]));
            j += 1;
        }
        if j == p.len() {
            assert(p@.take(j as int) == p@);
            return Some(i);
        }
        assert(v@.subrange(i as int, i + p.len())[j as int] != p@[j as int]);
        i += 1;
    }
    None
}

/// The first position from `from` on at which `p` stands in `v`.
pub fn find_bytes(v: &[u8], p: &[u8], from: usize) -> (r: Option<usize>)
    ensures
        find_from(v@, p@, from as int) == (match r {
            Some(k) => Some(k as int),
            None => None::<int>,
        }),
{
    let mut i: usize = from;
    while p.len() <= v.len() && i <= v.len() - p.len()
        invariant
            from <= i,
            find_from(v@, p@, from as int) == find_from(v@, p@, i as int),
        decreases v.len() - i,
    {
        let mut j: usize = 0;
        while j < p.len() && v[i + j] == p[j]
            invariant
                j <= p.len(),
                i + p.len() <= v.len(),
                v@.subrange(i as int, i + j) == p@.take(j as int),
            decreases p.len() - j,
        {
            assert(v@.subrange(i as int, i + j + 1) == v@.subrange(i as int, i + j).push(
                v@[i + j],
            ));
            assert(p@.take(j + 1) == p@.take(j as int).push(p@[j as int]));
            j += 1;
        }
        if j == p.len() {
            assert(p@.take(j as int) == p@);
            return Some(i);
        }
        assert(v@.subrange(i as int, i + p.len())[j as int] != p@[j as int]);
        i += 1;
    }
    None
}

/// Whether `p` stands somewhere in `s`.
pub fn has_text(s: &str, p: &str) -> (r: bool)
    ensures
        r == contains(s@, p@),
{
    let v = chars_of(s);
    let q = chars_of(p);
    proof {
        lemma_find(v@, q@, 0);
    }
    find_chars(&v, &q, 0).is_some()
}

/// What stands before and after the first `p` in `s`.
pub fn split_once<'a>(s: &'a str, p: &str) -> (r: Option<(&'a str, &'a str)>)
    ensures
        match r {
            Some((a, b)) => split_at_first(s@, p@) == Some((a@, b@)),
            None => split_at_first(s@, p@) is None,
        },
{
    let v = chars_of(s);
    let q = chars_of(p);
    proof {
        lemma_find(v@, q@, 0);
    }
    match find_chars(&v, &q, 0) {
        Some(i) => {
            assert(s@.subrange(0, i as int) == s@.take(i as int));
            assert(s@.subrange(i + q@.len(), s@.len() as int) == s@.skip(i + q@.len()));
            let n: usize = v.len();
            assert(i + q@.len() <= n);
            Some((s.substring_char(0, i), s.substring_char(i + q.len(), n)))
        },
        None => None,
    }
}

/// What follows `p` at the start of `s`.
pub fn strip_prefix<'a>(s: &'a str, p: &str) -> (r: Option<&'a str>)
    ensures
        match r {
            Some(rest) => starts_with(s@, p@) && rest@ == s@.skip(p@.len() as int),
            None => !starts_with(s@, p@),
        },
{
    let v = chars_of(s);
    let q = chars_of(p);
    if q.len() > v.len() {
        return None;
    }
    let mut j: usize = 0;
    while j < q.len()
        invariant
            j <= q.len() <= v.len(),
            v@ == s@,
            q@ == p@,
            v@.take(j as int) == q@.take(j as int),
        decreases q.len() - j,
    {
        if v[j] != q[j] {
            assert(s@.take(p@.len() as int)[j as int] != p@[j as int]);
            return None;
        }
        assert(v@.take(j + 1) == v@.take(j as int).push(v@[j as int]));
        assert(q@.take(j + 1) == q@.take(j as int).push(q@[j as int]));
        j += 1;
    }
    assert(q@.take(j as int) == q@);
    assert(s@.subrange(j as int, s@.len() as int) == s@.skip(j as int));
    Some(s.substring_char(j, v.len()))
}

/// What precedes `p` at the end of `s`.
pub fn strip_suffix<'a>(s: &'a str, p: &str) -> (r: Option<&'a str>)
    ensures
        match r {
            Some(rest) => ends_with(s@, p@) && rest@ == s@.take(s@.len() - p@.len()),
            None => !ends_with(s@, p@),
        },
{
    let v = chars_of(s);
    let q = chars_of(p);
    if q.len() > v.len() {
        return None;
    }
    let n: usize = v.len() - q.len();
    let mut j: usize = 0;
    while j < q.len()
        invariant
            j <= q.len() <= v.len(),
            n == v.len() - q.len(),
            v@ == s@,
            q@ == p@,
            v@.subrange(n as int, n + j) == q@.take(j as int),
        decreases q.len() - j,
    {
        if v[n + j] != q[j] {
            assert(s@.skip(n as int)[j as int] != p@[j as int]);
            return None;
        }
        assert(v@.subrange(n as int, n + j + 1) == v@.subrange(n as int, n + j).push(v@[n + j]));
        assert(q@.take(j + 1) == q@.take(j as int).push(q@[j as int]));
        j += 1;
    }
    assert(q@.take(j as int) == q@);
    assert(s@.skip(n as int) == v@.subrange(n as int, n + j));
    assert(s@.subrange(0, n as int) == s@.take(n as int));
    Some(s.substring_char(0, n))
}

// ---------------------------------------------------------------------------
// Replacement
// ---------------------------------------------------------------------------

/// `to` before each character of `s` and at its end.
pub open spec fn interleaved<T>(s: Seq<T>, to: Seq<T>) -> Seq<T>
    decreases s.len(),
{
    if s.len() == 0 {
        to
    } else {
        to + seq![s[0]] + interleaved(s.drop_first(), to)
    }
}

/// `s` with each `p` replaced by `to`, from the left and without overlaps. The
/// empty pattern stands before each character and at the end.
pub open spec fn replaced<T>(s: Seq<T>, p: Seq<T>, to: Seq<T>) -> Seq<T>
    decreases s.len(),
{
    if p.len() == 0 {
        interleaved(s, to)
    } else {
        proof {
            lemma_find(s, p, 0);
        }
        match find_from(s, p, 0) {
            Some(i) => s.take(i) + to + replaced(s.skip(i + p.len()), p, to),
            None => s,
        }
    }
}

/// No occurrence of `p` can share a position with an occurrence of `r` beside
/// which it stands: neither holds the other, and no end of one is a start of
/// the other.
pub open spec fn apart<T>(p: Seq<T>, r: Seq<T>) -> bool {
    &&& !contains(p, r)
    &&& !contains(r, p)
    &&& forall|k: int|
        0 < k <= p.len() && k <= r.len() ==> #[trigger] r.skip(r.len() - k) != p.take(k)
    &&& forall|k: int|
        0 < k <= p.len() && k <= r.len() ==> #[trigger] p.skip(p.len() - k) != r.take(k)
}

/// A pattern whose characters include neither the first nor the last of `r`,
/// and that `r` does not hold, stands apart from `r`.
pub proof fn lemma_apart<T>(p: Seq<T>, r: Seq<T>)
    requires
        r.len() > 0,
        !p.contains(r[0]),
        !p.contains(r.last()),
        !contains(r, p),
    ensures
        apart(p, r),
{
    if contains(p, r) {
        let i = choose|i: int| occurs_at(p, r, i);
        assert(p[i] == p.subrange(i, i + r.len())[0]);
    }
    assert forall|k: int| 0 < k <= p.len() && k <= r.len() implies #[trigger] r.skip(r.len() - k)
        != p.take(k) by {
        assert(r.skip(r.len() - k)[k - 1] == r.last());
        assert(p.take(k)[k - 1] == p[k - 1]);
    }
    assert forall|k: int| 0 < k <= p.len() && k <= r.len() implies #[trigger] p.skip(p.len() - k)
        != r.take(k) by {
        assert(r.take(k)[0] == r[0]);
        assert(p.skip(p.len() - k)[0] == p[p.len() - k]);
    }
}

/// Joining two pieces by an `r` that stands apart from `p` forms no new `p`.
pub(crate) proof fn lemma_join_apart<T>(a: Seq<T>, r: Seq<T>, b: Seq<T>, p: Seq<T>)
    requires
        apart(p, r),
        !contains(a, p),
        !contains(b, p),
    ensures
        !contains(a + r + b, p),
{
    let s = a + r + b;
    if contains(s, p) {
        let i = choose|i: int| occurs_at(s, p, i);
        let e = i + p.len();
        let m = a.len() as int;
        let n = m + r.len();
        if e <= m {
            assert(a.subrange(i, e) == s.subrange(i, e));
            assert(occurs_at(a, p, i));
        } else if n <= i {
            assert(b.subrange(i - n, e - n) == s.subrange(i, e));
            assert(occurs_at(b, p, i - n));
        } else if m <= i && e <= n {
            assert(r.subrange(i - m, e - m) == s.subrange(i, e));
            assert(occurs_at(r, p, i - m));
        } else if i <= m && n <= e {
            assert(p.subrange(m - i, n - i) == s.subrange(m, n)) by {
                assert(p == s.subrange(i, e));
            }
            assert(s.subrange(m, n) == r);
            assert(occurs_at(p, r, m - i));
        } else if m < i {
            let k = n - i;
            assert(r.skip(r.len() - k) == s.subrange(i, n));
            assert(p.take(k) == s.subrange(i, n)) by {
                assert(p == s.subrange(i, e));
            }
        } else {
            let k = e - m;
            assert(p.skip(p.len() - k) == s.subrange(m, e)) by {
                assert(p == s.subrange(i, e));
            }
            assert(r.take(k) == s.subrange(m, e));
        }
    }
}

/// Replacing each `p` by a text that stands apart from `p` leaves no `p`.
pub proof fn lemma_replaced_is_gone<T>(s: Seq<T>, p: Seq<T>, to: Seq<T>)
    requires
        p.len() > 0,
        apart(p, to),
    ensures
        !contains(replaced(s, p, to), p),
    decreases s.len(),
{
    lemma_find(s, p, 0);
    match find_from(s, p, 0) {
        Some(i) => {
            let a = s.take(i);
            let rest = s.skip(i + p.len());
            lemma_replaced_is_gone(rest, p, to);
            if contains(a, p) {
                let j = choose|j: int| occurs_at(a, p, j);
                assert(s.subrange(j, j + p.len()) == a.subrange(j, j + p.len()));
                assert(occurs_at(s, p, j));
            }
            lemma_join_apart(a, to, replaced(rest, p, to), p);
        },
        None => {},
    }
}

/// Replacing some other pattern by a text that stands apart from `p` brings no
/// `p` back.
pub proof fn lemma_replaced_stays_gone<T>(s: Seq<T>, q: Seq<T>, to: Seq<T>, p: Seq<T>)
    requires
        q.len() > 0,
        apart(p, to),
        !contains(s, p),
    ensures
        !contains(replaced(s, q, to), p),
    decreases s.len(),
{
    lemma_find(s, q, 0);
    match find_from(s, q, 0) {
        Some(i) => {
            let a = s.take(i);
            let n = i + q.len();
            let rest = s.skip(n);
            if contains(a, p) {
                let j = choose|j: int| occurs_at(a, p, j);
                assert(s.subrange(j, j + p.len()) == a.subrange(j, j + p.len()));
                assert(occurs_at(s, p, j));
            }
            if contains(rest, p) {
                let j = choose|j: int| occurs_at(rest, p, j);
                assert(s.subrange(n + j, n + j + p.len()) == rest.subrange(j, j + p.len()));
                assert(occurs_at(s, p, n + j));
            }
            lemma_replaced_stays_gone(rest, q, to, p);
            lemma_join_apart(a, to, replaced(rest, q, to), p);
        },
        None => {},
    }
}

/// A text without `p` is left as it is.
pub proof fn lemma_replaced_absent<T>(s: Seq<T>, p: Seq<T>, to: Seq<T>)
    requires
        p.len() > 0,
        !contains(s, p),
    ensures
        replaced(s, p, to) == s,
{
    lemma_find(s, p, 0);
}

/// `s` with each `p` replaced by `to`.
pub fn replace(s: &str, p: &str, to: &str) -> (r: String)
    ensures
        r@ == replaced(s@, p@, to@),
{
    let v = chars_of(s);
    let q = chars_of(p);
    let mut out = String::new();
    let mut i: usize = 0;
    assert(v@.skip(0) == v@);
    if q.len() == 0 {
        while i < v.len()
            invariant
                i <= v.len(),
                v@ == s@,
                interleaved(v@, to@) == out@ + interleaved(v@.skip(i as int), to@),
            decreases v.len() - i,
        {
            let ghost before = out@;
            out.append(to);
            assert(v@.subrange(i as int, i + 1) == seq![v@[i as int]]);
            out.append(s.substring_char(i, i + 1));
            assert(v@.skip(i as int).drop_first() == v@.skip(i + 1));
            assert(out@ + interleaved(v@.skip(i + 1), to@) == before + (to@ + seq![v@[i as int]]
                + interleaved(v@.skip(i + 1), to@)));
            i += 1;
        }
        out.append(to);
        return out;
    }
    loop
        invariant
            i <= v.len(),
            v@ == s@,
            q@ == p@,
            q.len() > 0,
            replaced(v@, q@, to@) == out@ + replaced(v@.skip(i as int), q@, to@),
        decreases v.len() - i,
    {
        let ghost rest = v@.skip(i as int);
        proof {
            lemma_find(rest, q@, 0);
            lemma_find_shift(v@, q@, i as int, i as int);
        }
        match find_chars(&v, &q, i) {
            Some(k) => {
                let ghost before = out@;
                out.append(s.substring_char(i, k));
                out.append(to);
                assert(rest.take(k - i) == s@.subrange(i as int, k as int));
                assert(rest.skip(k - i + q@.len()) == v@.skip(k + q@.len()));
                assert(out@ + replaced(v@.skip(k + q@.len()), q@, to@) == before + (rest.take(k - i)
                    + to@ + replaced(rest.skip(k - i + q@.len()), q@, to@)));
                i = k + q.len();
            },
            None => {
                out.append(s.substring_char(i, v.len()));
                assert(rest == s@.subrange(i as int, v@.len() as int));
                return out;
            },
        }
    }
}

} // verus!
