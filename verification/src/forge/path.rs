//! The segments of a URL path, as they are read when the URL is resolved. A name
//! that is put into a path must not climb out of it: none of its segments may be
//! read as `.` or `..`, however it is spelled.

use vstd::prelude::*;
use vstd::string::*;

use crate::text::{chars_of, code_point};

verus! {

/// `s` without its tabs and line ends, which are dropped wherever they stand in a
/// URL.
pub open spec fn stripped(s: Seq<char>) -> Seq<char>
    decreases s.len(),
{
    if s.len() == 0 {
        seq![]
    } else if is_dropped(s.last()) {
        stripped(s.drop_last())
    } else {
        stripped(s.drop_last()).push(s.last())
    }
}

/// `c` is a tab or belongs to a line end.
pub open spec fn is_dropped(c: char) -> bool {
    c == '\t' || c == '\n' || c == '\r'
}

/// `s` without the control characters and spaces at its end, which are dropped
/// at the end of a URL.
pub open spec fn without_blank_end(s: Seq<char>) -> Seq<char>
    decreases s.len(),
{
    if s.len() > 0 && s.last() as int <= 32 {
        without_blank_end(s.drop_last())
    } else {
        s
    }
}

/// `c` begins the query or the fragment of a URL.
pub open spec fn ends_path(c: char) -> bool {
    c == '?' || c == '#'
}

/// How many characters stand before the query or the fragment.
pub open spec fn path_len(s: Seq<char>) -> nat
    decreases s.len(),
{
    if s.len() > 0 && !ends_path(s[0]) {
        1 + path_len(s.drop_first())
    } else {
        0
    }
}

/// What of `s` is read as path, before a query or a fragment.
pub open spec fn path_part(s: Seq<char>) -> Seq<char> {
    s.take(path_len(s) as int)
}

/// `s` holds the beginning of a query or a fragment.
pub open spec fn has_query(s: Seq<char>) -> bool {
    path_len(s) < s.len()
}

/// The character that a percent sign and these two stand for, if it is a dot or
/// a slash of either kind.
pub open spec fn escaped(a: char, b: char) -> Option<char> {
    if a == '2' && (b == 'e' || b == 'E') {
        Some('.')
    } else if a == '2' && (b == 'f' || b == 'F') {
        Some('/')
    } else if a == '5' && (b == 'c' || b == 'C') {
        Some('\\')
    } else {
        None
    }
}

/// `s` with its escaped dots and slashes written out.
pub open spec fn decoded(s: Seq<char>) -> Seq<char>
    decreases s.len(),
{
    if s.len() == 0 {
        seq![]
    } else if s.len() >= 3 && s[0] == '%' && escaped(s[1], s[2]) is Some {
        seq![escaped(s[1], s[2])->0] + decoded(s.skip(3))
    } else {
        seq![s[0]] + decoded(s.drop_first())
    }
}

/// `s` as it is read in a path that goes on after it.
pub open spec fn read_inside(s: Seq<char>) -> Seq<char> {
    decoded(stripped(path_part(s)))
}

/// `s` as it is read in a path at the end of a URL.
pub open spec fn read_at_end(s: Seq<char>) -> Seq<char> {
    read_inside(without_blank_end(s))
}

/// `c` ends a segment: a slash of either kind.
pub open spec fn ends_segment(c: char) -> bool {
    c == '/' || c == '\\'
}

/// How many characters stand before the first that ends a segment.
pub open spec fn segment_len(s: Seq<char>) -> nat
    decreases s.len(),
{
    if s.len() > 0 && !ends_segment(s[0]) {
        1 + segment_len(s.drop_first())
    } else {
        0
    }
}

/// The segments of `s`.
pub open spec fn segments(s: Seq<char>) -> Seq<Seq<char>>
    decreases s.len(),
{
    proof {
        lemma_segment_len(s);
    }
    let n = segment_len(s) as int;
    if n == s.len() {
        seq![s]
    } else {
        seq![s.take(n)] + segments(s.skip(n + 1))
    }
}

/// A segment that stands for the directory itself or for its parent.
pub open spec fn dot_segment(s: Seq<char>) -> bool {
    s == "."@ || s == ".."@
}

/// None of the segments is `.` or `..`.
pub open spec fn no_dots(all: Seq<Seq<char>>) -> bool {
    forall|i: int| 0 <= i < all.len() ==> !dot_segment(#[trigger] all[i])
}

/// No segment of `s` is read as `.` or `..`, whether the path ends with it or goes
/// on.
pub open spec fn stays_put(s: Seq<char>) -> bool {
    no_dots(segments(read_inside(s))) && no_dots(segments(read_at_end(s)))
}

/// `s` is one segment that is read as it is written and is neither `.` nor `..`.
pub open spec fn plain(s: Seq<char>) -> bool {
    &&& forall|i: int|
        0 <= i < s.len() ==> (#[trigger] s[i]) as int > 32 && s[i] != '%' && !ends_segment(s[i])
            && !ends_path(s[i])
    &&& !dot_segment(s)
}

/// A path reaches as far as nothing ends it.
pub(crate) proof fn lemma_path_len(s: Seq<char>)
    ensures
        path_len(s) <= s.len(),
        forall|i: int| 0 <= i < path_len(s) ==> !ends_path(#[trigger] s[i]),
        path_len(s) < s.len() ==> ends_path(s[path_len(s) as int]),
    decreases s.len(),
{
    if s.len() > 0 && !ends_path(s[0]) {
        let t = s.drop_first();
        lemma_path_len(t);
        assert forall|i: int| 0 <= i < path_len(s) implies !ends_path(#[trigger] s[i]) by {
            if i > 0 {
                assert(s[i] == t[i - 1]);
            }
        }
        if path_len(s) < s.len() {
            assert(s[path_len(s) as int] == t[path_len(t) as int]);
        }
    }
}

/// A run that nothing ends, followed by what ends it or by nothing, is the path.
pub(crate) proof fn lemma_path_len_is(s: Seq<char>, n: int)
    requires
        0 <= n <= s.len(),
        forall|i: int| 0 <= i < n ==> !ends_path(#[trigger] s[i]),
        n < s.len() ==> ends_path(s[n]),
    ensures
        path_len(s) == n,
{
    lemma_path_len(s);
    if path_len(s) < n {
        assert(ends_path(s[path_len(s) as int]));
    }
}

/// What follows a query or a fragment is not read as path.
proof fn lemma_path_part_ends(a: Seq<char>, b: Seq<char>)
    requires
        has_query(a),
    ensures
        path_part(a + b) == path_part(a),
{
    lemma_path_len(a);
    let n = path_len(a) as int;
    assert forall|i: int| 0 <= i < n implies !ends_path(#[trigger] (a + b)[i]) by {
        assert((a + b)[i] == a[i]);
    }
    assert((a + b)[n] == a[n]);
    lemma_path_len_is(a + b, n);
    assert((a + b).take(n) == a.take(n));
}

/// What follows a text without either is read as path as far as nothing ends it.
pub(crate) proof fn lemma_path_part_concat(a: Seq<char>, b: Seq<char>)
    requires
        !has_query(a),
    ensures
        path_part(a + b) == a + path_part(b),
        has_query(a + b) == has_query(b),
{
    lemma_path_len(a);
    lemma_path_len(b);
    let s = a + b;
    let n = a.len() + path_len(b);
    assert forall|i: int| 0 <= i < n implies !ends_path(#[trigger] s[i]) by {
        if i < a.len() {
            assert(s[i] == a[i]);
        } else {
            assert(s[i] == b[i - a.len()]);
        }
    }
    if n < s.len() {
        assert(s[n as int] == b[path_len(b) as int]);
    }
    lemma_path_len_is(s, n as int);
    assert(s.take(n as int) == a + b.take(path_len(b) as int));
}

pub(crate) proof fn lemma_blank_end(a: Seq<char>, b: Seq<char>)
    requires
        a.len() > 0,
        a.last() as int > 32,
    ensures
        without_blank_end(a + b) == a + without_blank_end(b),
    decreases b.len(),
{
    if b.len() == 0 {
        assert(a + b == a);
        assert(a + without_blank_end(b) == a);
    } else {
        assert((a + b).last() == b.last());
        assert((a + b).drop_last() == a + b.drop_last());
        if b.last() as int <= 32 {
            lemma_blank_end(a, b.drop_last());
        }
    }
}

/// A segment reaches as far as nothing ends it.
pub proof fn lemma_segment_len(s: Seq<char>)
    ensures
        segment_len(s) <= s.len(),
        forall|i: int| 0 <= i < segment_len(s) ==> !ends_segment(#[trigger] s[i]),
        segment_len(s) < s.len() ==> ends_segment(s[segment_len(s) as int]),
    decreases s.len(),
{
    if s.len() > 0 && !ends_segment(s[0]) {
        let t = s.drop_first();
        lemma_segment_len(t);
        assert forall|i: int| 0 <= i < segment_len(s) implies !ends_segment(#[trigger] s[i]) by {
            if i > 0 {
                assert(s[i] == t[i - 1]);
            }
        }
        if segment_len(s) < s.len() {
            assert(s[segment_len(s) as int] == t[segment_len(t) as int]);
        }
    }
}

/// A run that nothing ends, followed by what ends it or by nothing, is a segment.
pub(crate) proof fn lemma_segment_len_is(s: Seq<char>, n: int)
    requires
        0 <= n <= s.len(),
        forall|i: int| 0 <= i < n ==> !ends_segment(#[trigger] s[i]),
        n < s.len() ==> ends_segment(s[n]),
    ensures
        segment_len(s) == n,
{
    lemma_segment_len(s);
    if segment_len(s) < n {
        assert(ends_segment(s[segment_len(s) as int]));
    }
}

pub(crate) proof fn lemma_stripped_concat(a: Seq<char>, b: Seq<char>)
    ensures
        stripped(a + b) == stripped(a) + stripped(b),
    decreases b.len(),
{
    if b.len() == 0 {
        assert(a + b == a);
        assert(stripped(a) + stripped(b) == stripped(a));
    } else {
        assert((a + b).drop_last() == a + b.drop_last());
        lemma_stripped_concat(a, b.drop_last());
        if !is_dropped(b.last()) {
            assert((stripped(a) + stripped(b.drop_last())).push(b.last()) == stripped(a)
                + stripped(b));
        }
    }
}

proof fn lemma_decoded_join(a: Seq<char>, b: Seq<char>)
    ensures
        decoded(a + seq!['/'] + b) == decoded(a) + seq!['/'] + decoded(b),
    decreases a.len(),
{
    let s = a + seq!['/'] + b;
    if a.len() == 0 {
        assert(s[0] == '/');
        assert(s.drop_first() == b);
        assert(decoded(a) + seq!['/'] + decoded(b) == seq!['/'] + decoded(b));
    } else {
        assert(s[0] == a[0]);
        if a.len() == 1 {
            assert(s[1] == '/');
        } else {
            assert(s[1] == a[1]);
            if a.len() == 2 {
                assert(s[2] == '/');
            } else {
                assert(s[2] == a[2]);
            }
        }
        if a.len() >= 3 && a[0] == '%' && escaped(a[1], a[2]) is Some {
            assert(s.skip(3) == a.skip(3) + seq!['/'] + b);
            lemma_decoded_join(a.skip(3), b);
            let c = seq![escaped(a[1], a[2])->0];
            assert(c + (decoded(a.skip(3)) + seq!['/'] + decoded(b)) == (c + decoded(a.skip(3)))
                + seq!['/'] + decoded(b));
        } else {
            assert(s.drop_first() == a.drop_first() + seq!['/'] + b);
            lemma_decoded_join(a.drop_first(), b);
            let c = seq![a[0]];
            assert(c + (decoded(a.drop_first()) + seq!['/'] + decoded(b)) == (c + decoded(
                a.drop_first(),
            )) + seq!['/'] + decoded(b));
        }
    }
}

proof fn lemma_segments_join(a: Seq<char>, b: Seq<char>)
    ensures
        segments(a + seq!['/'] + b) == segments(a) + segments(b),
    decreases a.len(),
{
    let s = a + seq!['/'] + b;
    lemma_segment_len(a);
    let n = segment_len(a) as int;
    assert forall|i: int| 0 <= i < n implies !ends_segment(#[trigger] s[i]) by {
        assert(s[i] == a[i]);
    }
    if n == a.len() {
        assert(s[n] == '/');
        lemma_segment_len_is(s, n);
        assert(s.take(n) == a);
        assert(s.skip(n + 1) == b);
    } else {
        assert(s[n] == a[n]);
        lemma_segment_len_is(s, n);
        assert(s.take(n) == a.take(n));
        assert(s.skip(n + 1) == a.skip(n + 1) + seq!['/'] + b);
        lemma_segments_join(a.skip(n + 1), b);
        let c = seq![a.take(n)];
        assert(c + (segments(a.skip(n + 1)) + segments(b)) == (c + segments(a.skip(n + 1)))
            + segments(b));
    }
}

/// The segments of two texts with a slash between them are those of the one and
/// those of the other, unless the path ends in the first one.
pub proof fn lemma_read_join(a: Seq<char>, b: Seq<char>)
    ensures
        segments(read_inside(a + "/"@ + b)) == if has_query(a) {
            segments(read_inside(a))
        } else {
            segments(read_inside(a)) + segments(read_inside(b))
        },
        read_at_end(a + "/"@ + b) == read_inside(a + "/"@ + without_blank_end(b)),
        has_query(a + "/"@ + b) == (has_query(a) || has_query(b)),
{
    reveal_strlit("/");
    let slash = seq!['/'];
    assert("/"@ == slash);
    lemma_blank_end(a + slash, b);
    lemma_path_len(a);
    lemma_path_len_is(slash, 1);
    if has_query(a) {
        lemma_path_part_ends(a, slash + b);
        assert(a + (slash + b) == a + slash + b);
        let n = path_len(a) as int;
        assert forall|i: int| 0 <= i < n implies !ends_path(#[trigger] (a + slash + b)[i]) by {
            assert((a + slash + b)[i] == a[i]);
        }
        assert((a + slash + b)[n] == a[n]);
        lemma_path_len_is(a + slash + b, n);
    } else {
        assert(a.take(a.len() as int) == a);
        lemma_path_part_concat(a, slash);
        lemma_path_part_concat(a + slash, b);
        let c = path_part(b);
        lemma_stripped_concat(a, slash);
        lemma_stripped_concat(a + slash, c);
        assert(slash.drop_last() == Seq::<char>::empty());
        assert(stripped(slash) == slash) by {
            assert(stripped(Seq::<char>::empty()) == Seq::<char>::empty());
            assert(Seq::<char>::empty().push('/') == slash);
        }
        lemma_decoded_join(stripped(a), stripped(c));
        lemma_segments_join(read_inside(a), read_inside(b));
    }
}

/// A plain segment is read as itself.
pub proof fn lemma_plain(s: Seq<char>)
    requires
        plain(s),
    ensures
        segments(read_inside(s)) == seq![s],
        !has_query(s),
        without_blank_end(s) == s,
{
    lemma_path_len_is(s, s.len() as int);
    assert(s.take(s.len() as int) == s);
    lemma_plain_stripped(s);
    lemma_plain_decoded(s);
    lemma_segment_len_is(s, s.len() as int);
    if s.len() > 0 {
        assert(s[s.len() - 1] as int > 32);
    }
}

proof fn lemma_plain_stripped(s: Seq<char>)
    requires
        forall|i: int| 0 <= i < s.len() ==> (#[trigger] s[i]) as int > 32,
    ensures
        stripped(s) == s,
    decreases s.len(),
{
    if s.len() > 0 {
        let t = s.drop_last();
        assert forall|i: int| 0 <= i < t.len() implies (#[trigger] t[i]) as int > 32 by {
            assert(t[i] == s[i]);
        }
        lemma_plain_stripped(t);
        assert(s[s.len() - 1] as int > 32);
        assert(t.push(s.last()) == s);
    } else {
        assert(stripped(s) == s);
    }
}

proof fn lemma_plain_decoded(s: Seq<char>)
    requires
        forall|i: int| 0 <= i < s.len() ==> #[trigger] s[i] != '%',
    ensures
        decoded(s) == s,
    decreases s.len(),
{
    if s.len() > 0 {
        let t = s.drop_first();
        assert forall|i: int| 0 <= i < t.len() implies #[trigger] t[i] != '%' by {
            assert(t[i] == s[i + 1]);
        }
        lemma_plain_decoded(t);
        assert(s[0] != '%');
        assert(seq![s[0]] + t == s);
    } else {
        assert(decoded(s) == s);
    }
}

// ---------------------------------------------------------------------------
// Checking a name
// ---------------------------------------------------------------------------

fn path_of(v: &Vec<char>) -> (r: Vec<char>)
    ensures
        r@ == stripped(path_part(v@)),
{
    let mut out: Vec<char> = Vec::new();
    let mut i: usize = 0;
    assert(out@ == stripped(v@.take(0)));
    while i < v.len() && !(v[i] == '?' || v[i] == '#')
        invariant
            i <= v.len(),
            forall|j: int| 0 <= j < i ==> !ends_path(#[trigger] v@[j]),
            out@ == stripped(v@.take(i as int)),
        decreases v.len() - i,
    {
        assert(v@.take(i + 1).drop_last() == v@.take(i as int));
        if !(v[i] == '\t' || v[i] == '\n' || v[i] == '\r') {
            out.push(v[i]);
        }
        i += 1;
    }
    proof {
        lemma_path_len_is(v@, i as int);
    }
    out
}

fn drop_blank_end(v: &mut Vec<char>)
    ensures
        final(v)@ == without_blank_end(old(v)@),
{
    let ghost before = v@;
    while v.len() > 0 && code_point(v[v.len() - 1]) <= 32
        invariant
            without_blank_end(v@) == without_blank_end(before),
        decreases v.len(),
    {
        let ghost all = v@;
        v.pop();
        assert(v@ == all.drop_last());
    }
}

fn escape_of(a: char, b: char) -> (r: Option<char>)
    ensures
        r == escaped(a, b),
{
    if a == '2' && (b == 'e' || b == 'E') {
        Some('.')
    } else if a == '2' && (b == 'f' || b == 'F') {
        Some('/')
    } else if a == '5' && (b == 'c' || b == 'C') {
        Some('\\')
    } else {
        None
    }
}

fn decoded_of(v: &Vec<char>) -> (r: Vec<char>)
    ensures
        r@ == decoded(v@),
{
    let n: usize = v.len();
    let mut out: Vec<char> = Vec::new();
    let mut i: usize = 0;
    assert(v@.skip(0) == v@);
    assert(out@ + decoded(v@) == decoded(v@));
    while i < n
        invariant
            i <= n == v.len(),
            decoded(v@) == out@ + decoded(v@.skip(i as int)),
        decreases n - i,
    {
        let ghost rest = v@.skip(i as int);
        let ghost before = out@;
        if n - i >= 3 && v[i] == '%' {
            if let Some(c) = escape_of(v[i + 1], v[i + 2]) {
                out.push(c);
                assert(rest.skip(3) == v@.skip(i + 3));
                assert(before + (seq![c] + decoded(v@.skip(i + 3))) == out@ + decoded(
                    v@.skip(i + 3),
                ));
                i += 3;
                continue ;
            }
        }
        out.push(v[i]);
        assert(rest.drop_first() == v@.skip(i + 1));
        assert(before + (seq![v@[i as int]] + decoded(v@.skip(i + 1))) == out@ + decoded(
            v@.skip(i + 1),
        ));
        i += 1;
    }
    assert(v@.skip(i as int).len() == 0);
    assert(out@ + decoded(v@.skip(i as int)) == out@);
    out
}

/// Whether no segment of `s` is read as `.` or `..`.
pub fn does_stay_put(s: &str) -> (r: bool)
    ensures
        r == stays_put(s@),
{
    let mut v = chars_of(s);
    let inside = decoded_of(&path_of(&v));
    if !has_no_dots(&inside) {
        return false;
    }
    drop_blank_end(&mut v);
    let at_end = decoded_of(&path_of(&v));
    has_no_dots(&at_end)
}

/// Whether no segment is `.` or `..`.
fn has_no_dots(v: &Vec<char>) -> (r: bool)
    ensures
        r == no_dots(segments(v@)),
{
    let n: usize = v.len();
    let ghost all = segments(v@);
    let mut i: usize = 0;
    proof {
        reveal_strlit(".");
        reveal_strlit("..");
        assert(v@.skip(0) == v@);
        assert(Seq::<Seq<char>>::empty() + segments(v@) == segments(v@));
    }
    let ghost mut seen: Seq<Seq<char>> = seq![];
    loop
        invariant
            i <= n == v.len(),
            all == segments(v@),
            "."@ == seq!['.'],
            ".."@ == seq!['.', '.'],
            all == seen + segments(v@.skip(i as int)),
            forall|k: int| 0 <= k < seen.len() ==> !dot_segment(#[trigger] seen[k]),
        decreases n - i,
    {
        let ghost rest = v@.skip(i as int);
        let mut e: usize = i;
        while e < n && !(v[e] == '/' || v[e] == '\\')
            invariant
                i <= e <= n == v.len(),
                forall|j: int| i <= j < e ==> !ends_segment(#[trigger] v@[j]),
            decreases n - e,
        {
            e += 1;
        }
        let ghost part = v@.subrange(i as int, e as int);
        proof {
            assert forall|j: int| 0 <= j < e - i implies !ends_segment(#[trigger] rest[j]) by {
                assert(rest[j] == v@[i + j]);
            }
            lemma_segment_len_is(rest, e - i);
            assert(rest.take(e - i) == part);
            assert(segments(rest)[0] == part);
            assert(all[seen.len() as int] == part);
        }
        let dots = (e - i == 1 && v[i] == '.') || (e - i == 2 && v[i] == '.' && v[i + 1] == '.');
        proof {
            if e - i == 1 && v@[i as int] == '.' {
                assert(part =~= seq!['.']);
            }
            if e - i == 2 && v@[i as int] == '.' && v@[i + 1] == '.' {
                assert(part =~= seq!['.', '.']);
            }
            if dot_segment(part) {
                assert(part[0] == v@[i as int]);
                if part.len() == 2 {
                    assert(part[1] == v@[i + 1]);
                }
            }
        }
        if dots {
            return false;
        }
        if e == n {
            assert(segments(rest) == seq![rest]);
            assert(all == seen.push(part));
            return true;
        }
        proof {
            assert(rest.skip(e - i + 1) == v@.skip(e + 1));
            assert(seen + (seq![part] + segments(v@.skip(e + 1))) == seen.push(part) + segments(
                v@.skip(e + 1),
            ));
            seen = seen.push(part);
        }
        i = e + 1;
    }
}

} // verus!
