//! Which repository names climb out of the organisation.

use vstd::prelude::*;
use vstd::string::*;

use crate::contract::CodeError;
use crate::forge::handler::{ensure_same_tenant, ForgeContext};
use crate::forge::path::{
    decoded, does_stay_put, dot_segment, ends_path, ends_segment, escaped, has_query, is_dropped,
    lemma_blank_end, lemma_path_len, lemma_path_len_is, lemma_path_part_concat, lemma_plain,
    lemma_read_join, lemma_segment_len, lemma_segment_len_is, lemma_stripped_concat, no_dots,
    path_len, path_part, plain, read_at_end, read_inside, segment_len, segments, stripped,
    without_blank_end,
};
use crate::laws::handler::lemma_split_at_slash;

verus! {

// ---------------------------------------------------------------------------
// How dots and slashes are spelled
// ---------------------------------------------------------------------------

/// `d` is a way to write a dot in a URL.
pub open spec fn spells_dot(d: Seq<char>) -> bool {
    d == seq!['.'] || d == seq!['%', '2', 'e'] || d == seq!['%', '2', 'E']
}

/// `d` is a way to write a slash of either kind in a URL.
pub open spec fn spells_slash(d: Seq<char>) -> bool {
    ||| d == seq!['/'] || d == seq!['\\']
    ||| d == seq!['%', '2', 'f'] || d == seq!['%', '2', 'F']
    ||| d == seq!['%', '5', 'c'] || d == seq!['%', '5', 'C']
}

/// `s` is made of tabs and line ends.
pub open spec fn is_ignored(s: Seq<char>) -> bool {
    forall|i: int| 0 <= i < s.len() ==> (#[trigger] s[i] == '\t' || s[i] == '\n' || s[i] == '\r')
}

/// `s` holds neither the beginning of a query nor that of a fragment.
pub open spec fn all_path(s: Seq<char>) -> bool {
    forall|i: int| 0 <= i < s.len() ==> #[trigger] s[i] != '?' && s[i] != '#'
}

proof fn lemma_all_path(s: Seq<char>)
    requires
        all_path(s),
    ensures
        !has_query(s),
{
    assert forall|i: int| 0 <= i < s.len() implies !ends_path(#[trigger] s[i]) by {}
    lemma_path_len_is(s, s.len() as int);
}

proof fn lemma_ignored(s: Seq<char>)
    requires
        is_ignored(s),
    ensures
        stripped(s) == Seq::<char>::empty(),
    decreases s.len(),
{
    if s.len() > 0 {
        let t = s.drop_last();
        assert forall|i: int| 0 <= i < t.len() implies (#[trigger] t[i] == '\t' || t[i] == '\n'
            || t[i] == '\r') by {
            assert(t[i] == s[i]);
        }
        lemma_ignored(t);
        assert(is_dropped(s[s.len() - 1]));
    }
}

proof fn lemma_kept(s: Seq<char>)
    requires
        forall|i: int| 0 <= i < s.len() ==> !is_dropped(#[trigger] s[i]),
    ensures
        stripped(s) == s,
    decreases s.len(),
{
    if s.len() > 0 {
        let t = s.drop_last();
        assert forall|i: int| 0 <= i < t.len() implies !is_dropped(#[trigger] t[i]) by {
            assert(t[i] == s[i]);
        }
        lemma_kept(t);
        assert(!is_dropped(s[s.len() - 1]));
        assert(t.push(s.last()) == s);
    } else {
        assert(stripped(s) == s);
    }
}

/// `b` begins with nothing that could end an escape.
spec fn starts_afresh(b: Seq<char>) -> bool {
    b.len() > 0 ==> b[0] == '%' || b[0] == '.' || b[0] == '/' || b[0] == '\\'
}

proof fn lemma_decoded_concat(a: Seq<char>, b: Seq<char>)
    requires
        starts_afresh(b),
    ensures
        decoded(a + b) == decoded(a) + decoded(b),
    decreases a.len(),
{
    let s = a + b;
    if a.len() == 0 {
        assert(s == b);
        assert(decoded(a) + decoded(b) == decoded(b));
    } else {
        assert(s[0] == a[0]);
        if a.len() >= 2 {
            assert(s[1] == a[1]);
        } else if s.len() >= 2 {
            assert(s[1] == b[0]);
        }
        if a.len() >= 3 {
            assert(s[2] == a[2]);
        } else if s.len() >= 3 && a.len() == 2 {
            assert(s[2] == b[0]);
        }
        if a.len() >= 3 && a[0] == '%' && escaped(a[1], a[2]) is Some {
            assert(s.skip(3) == a.skip(3) + b);
            lemma_decoded_concat(a.skip(3), b);
            let c = seq![escaped(a[1], a[2])->0];
            assert(c + (decoded(a.skip(3)) + decoded(b)) == (c + decoded(a.skip(3))) + decoded(b));
        } else {
            assert(s.drop_first() == a.drop_first() + b);
            lemma_decoded_concat(a.drop_first(), b);
            let c = seq![a[0]];
            assert(c + (decoded(a.drop_first()) + decoded(b)) == (c + decoded(a.drop_first()))
                + decoded(b));
        }
    }
}

proof fn lemma_decoded_empty()
    ensures
        decoded(Seq::<char>::empty()) == Seq::<char>::empty(),
{
}

proof fn lemma_dot(d: Seq<char>)
    requires
        spells_dot(d),
    ensures
        decoded(d) == seq!['.'],
        starts_afresh(d),
        stripped(d) == d,
        all_path(d),
        d.len() > 0,
{
    lemma_decoded_empty();
    lemma_kept(d);
    if d.len() == 3 {
        assert(d.skip(3) == Seq::<char>::empty());
    } else {
        assert(d.drop_first() == Seq::<char>::empty());
    }
}

proof fn lemma_slash(d: Seq<char>) -> (c: char)
    requires
        spells_slash(d),
    ensures
        decoded(d) == seq![c],
        ends_segment(c),
        starts_afresh(d),
        stripped(d) == d,
        all_path(d),
        d.len() > 0,
{
    lemma_decoded_empty();
    lemma_kept(d);
    if d.len() == 3 {
        assert(d.skip(3) == Seq::<char>::empty());
        escaped(d[1], d[2])->0
    } else {
        assert(d.drop_first() == Seq::<char>::empty());
        d[0]
    }
}

proof fn lemma_segments_at(a: Seq<char>, c: char, b: Seq<char>)
    requires
        ends_segment(c),
    ensures
        segments(a + seq![c] + b) == segments(a) + segments(b),
    decreases a.len(),
{
    let s = a + seq![c] + b;
    lemma_segment_len(a);
    let n = segment_len(a) as int;
    assert forall|i: int| 0 <= i < n implies !ends_segment(#[trigger] s[i]) by {
        assert(s[i] == a[i]);
    }
    if n == a.len() {
        assert(s[n] == c);
        lemma_segment_len_is(s, n);
        assert(s.take(n) == a);
        assert(s.skip(n + 1) == b);
    } else {
        assert(s[n] == a[n]);
        lemma_segment_len_is(s, n);
        assert(s.take(n) == a.take(n));
        assert(s.skip(n + 1) == a.skip(n + 1) + seq![c] + b);
        lemma_segments_at(a.skip(n + 1), c, b);
        let f = seq![a.take(n)];
        assert(f + (segments(a.skip(n + 1)) + segments(b)) == (f + segments(a.skip(n + 1)))
            + segments(b));
    }
}

/// What the dots of a name are read as, with tabs and line ends among them.
proof fn lemma_dots(
    w0: Seq<char>,
    d1: Seq<char>,
    w1: Seq<char>,
    d2: Seq<char>,
    w2: Seq<char>,
) -> (dots: Seq<char>)
    requires
        is_ignored(w0),
        is_ignored(w1),
        is_ignored(w2),
        spells_dot(d1),
        d2.len() == 0 || spells_dot(d2),
    ensures
        dot_segment(dots),
        segments(dots) == seq![dots],
        all_path(w0 + d1 + w1 + d2 + w2),
        ({
            let t = stripped(w0 + d1 + w1 + d2 + w2);
            starts_afresh(t) && decoded(t) == dots
        }),
{
    reveal_strlit(".");
    reveal_strlit("..");
    let all = w0 + d1 + w1 + d2 + w2;
    lemma_ignored(w0);
    lemma_ignored(w1);
    lemma_ignored(w2);
    lemma_dot(d1);
    lemma_decoded_empty();
    lemma_kept(Seq::<char>::empty());
    lemma_stripped_concat(w0, d1);
    lemma_stripped_concat(w0 + d1, w1);
    lemma_stripped_concat(w0 + d1 + w1, d2);
    lemma_stripped_concat(w0 + d1 + w1 + d2, w2);
    assert forall|i: int| 0 <= i < all.len() implies #[trigger] all[i] != '?' && all[i] != '#' by {
        let a = w0.len() as int;
        let b = a + d1.len();
        let c = b + w1.len();
        let e = c + d2.len();
        if i < a {
            assert(all[i] == w0[i]);
        } else if i < b {
            assert(all[i] == d1[i - a]);
        } else if i < c {
            assert(all[i] == w1[i - b]);
        } else if i < e {
            lemma_dot(d2);
            assert(all[i] == d2[i - c]);
        } else {
            assert(all[i] == w2[i - e]);
        }
    }
    let t = stripped(all);
    if d2.len() == 0 {
        assert(d2 == Seq::<char>::empty());
        assert(t =~= d1);
        let dots = seq!['.'];
        assert(dots == "."@);
        lemma_segment_len_is(dots, 1);
        dots
    } else {
        lemma_dot(d2);
        assert(t =~= d1 + d2);
        lemma_decoded_concat(d1, d2);
        let dots = seq!['.', '.'];
        assert(seq!['.'] + seq!['.'] == dots);
        assert(dots == ".."@);
        lemma_segment_len_is(dots, 2);
        dots
    }
}

/// `pre` is nothing, or ends with a slash.
pub open spec fn before_segment(pre: Seq<char>) -> bool {
    pre.len() == 0 || exists|p: Seq<char>, d: Seq<char>|
        pre == #[trigger] (p + d) && spells_slash(d) && all_path(p)
}

/// `post` is nothing, or begins with a slash, a query or a fragment.
pub open spec fn after_segment(post: Seq<char>) -> bool {
    ||| post.len() == 0
    ||| post[0] == '?' || post[0] == '#'
    ||| exists|d: Seq<char>, p: Seq<char>| post == #[trigger] (d + p) && spells_slash(d)
}

/// A name with a segment of dots is read with a dot segment.
proof fn lemma_dots_are_read(
    pre: Seq<char>,
    w0: Seq<char>,
    d1: Seq<char>,
    w1: Seq<char>,
    d2: Seq<char>,
    w2: Seq<char>,
    post: Seq<char>,
)
    requires
        before_segment(pre),
        is_ignored(w0) && is_ignored(w1) && is_ignored(w2),
        spells_dot(d1),
        d2.len() == 0 || spells_dot(d2),
        after_segment(post),
    ensures
        !no_dots(segments(read_inside(pre + (w0 + d1 + w1 + d2 + w2) + post))),
{
    let mid = w0 + d1 + w1 + d2 + w2;
    let dots = lemma_dots(w0, d1, w1, d2, w2);
    let m = stripped(mid);
    let name = pre + mid + post;
    lemma_decoded_empty();

    // What is read before the dots.
    assert(all_path(pre)) by {
        if pre.len() > 0 {
            let (p, d) = choose|p: Seq<char>, d: Seq<char>|
                pre == #[trigger] (p + d) && spells_slash(d) && all_path(p);
            let c = lemma_slash(d);
            assert forall|i: int| 0 <= i < pre.len() implies #[trigger] pre[i] != '?' && pre[i]
                != '#' by {
                if i < p.len() {
                    assert(pre[i] == p[i]);
                } else {
                    assert(pre[i] == d[i - p.len()]);
                }
            }
        }
    }
    let head = pre + mid;
    assert forall|i: int| 0 <= i < head.len() implies #[trigger] head[i] != '?' && head[i]
        != '#' by {
        if i < pre.len() {
            assert(head[i] == pre[i]);
        } else {
            assert(head[i] == mid[i - pre.len()]);
        }
    }
    lemma_all_path(head);
    lemma_path_part_concat(head, post);
    let rest = path_part(post);
    lemma_stripped_concat(pre, mid);
    lemma_stripped_concat(head, rest);
    let a = stripped(pre);
    let r = stripped(rest);
    assert(read_inside(name) == decoded(a + m + r));

    // What is read after the dots.
    assert(starts_afresh(r) && (r.len() == 0 || (decoded(r).len() > 0 && ends_segment(
        decoded(r)[0],
    )))) by {
        if post.len() == 0 {
            assert(rest.len() == 0);
            lemma_kept(rest);
        } else if post[0] == '?' || post[0] == '#' {
            lemma_path_len_is(post, 0);
            assert(rest.len() == 0);
            lemma_kept(rest);
        } else {
            let (d, p) = choose|d: Seq<char>, p: Seq<char>|
                post == #[trigger] (d + p) && spells_slash(d);
            let c = lemma_slash(d);
            lemma_all_path(d);
            lemma_path_part_concat(d, p);
            lemma_stripped_concat(d, path_part(p));
            let q = stripped(path_part(p));
            assert(r == d + q);
            assert(r[0] == d[0]);
            lemma_slash_first(d, q);
        }
    }
    lemma_decoded_concat(a + m, r);
    lemma_decoded_concat(a, m);
    let da = decoded(a);
    let dr = decoded(r);
    let whole = da + dots + dr;
    assert(read_inside(name) == whole);

    // The segments.
    let tail = dots + dr;
    assert(segments(tail).len() > 0 && segments(tail)[0] == dots) by {
        if dr.len() == 0 {
            assert(tail == dots);
        } else {
            let c = dr[0];
            assert(tail == dots + seq![c] + dr.drop_first());
            lemma_segments_at(dots, c, dr.drop_first());
        }
    }
    assert(whole == da + tail);
    if pre.len() == 0 {
        assert(pre == Seq::<char>::empty());
        lemma_kept(pre);
        assert(whole == tail);
        assert(dot_segment(segments(whole)[0]));
    } else {
        let (p, d) = choose|p: Seq<char>, d: Seq<char>|
            pre == #[trigger] (p + d) && spells_slash(d) && all_path(p);
        let c = lemma_slash(d);
        lemma_stripped_concat(p, d);
        lemma_decoded_concat(stripped(p), d);
        let x = decoded(stripped(p));
        assert(da == x + seq![c]);
        assert(whole == x + seq![c] + tail);
        lemma_segments_at(x, c, tail);
        assert(segments(whole)[segments(x).len() as int] == dots);
        assert(dot_segment(segments(whole)[segments(x).len() as int]));
    }
}

proof fn lemma_slash_first(d: Seq<char>, q: Seq<char>)
    requires
        spells_slash(d),
    ensures
        decoded(d + q).len() > 0,
        ends_segment(decoded(d + q)[0]),
{
    let s = d + q;
    assert(s[0] == d[0]);
    if d.len() == 3 {
        assert(s[1] == d[1] && s[2] == d[2]);
    }
}

/// A name that climbs is seen to climb, however it is spelled: one of its segments
/// is a dot or two, each plain or escaped, with tabs and line ends anywhere among
/// them, where slashes of either kind, plain or escaped, set the segments apart.
pub proof fn law_every_climbing_name_is_seen(
    pre: Seq<char>,
    w0: Seq<char>,
    d1: Seq<char>,
    w1: Seq<char>,
    d2: Seq<char>,
    w2: Seq<char>,
    post: Seq<char>,
    name: &str,
    r: bool,
)
    requires
        call_ensures(does_stay_put, (name,), r),
        name@ == pre + (w0 + d1 + w1 + d2 + w2) + post,
        before_segment(pre),
        is_ignored(w0) && is_ignored(w1) && is_ignored(w2),
        spells_dot(d1),
        d2.len() == 0 || spells_dot(d2),
        after_segment(post),
    ensures
        !r,
{
    lemma_dots_are_read(pre, w0, d1, w1, d2, w2, post);
}

/// Control characters and spaces at the end of a name do not hide that it climbs.
pub proof fn law_blank_end_hides_nothing(
    pre: Seq<char>,
    d1: Seq<char>,
    d2: Seq<char>,
    end: Seq<char>,
    name: &str,
    r: bool,
)
    requires
        call_ensures(does_stay_put, (name,), r),
        name@ == pre + (d1 + d2) + end,
        before_segment(pre),
        spells_dot(d1),
        d2.len() == 0 || spells_dot(d2),
        forall|i: int| 0 <= i < end.len() ==> (#[trigger] end[i]) as int <= 32,
    ensures
        !r,
{
    let none = Seq::<char>::empty();
    let s = pre + (d1 + d2);
    lemma_dots_are_read(pre, none, d1, none, d2, none, none);
    assert(none + d1 + none + d2 + none == d1 + d2);
    assert(s + none == s);
    lemma_dot(d1);
    if d2.len() > 0 {
        lemma_dot(d2);
        assert(s.last() == d2.last());
    } else {
        assert(s.last() == d1.last());
    }
    assert(s.last() as int > 32);
    lemma_blank_end(s, end);
    lemma_all_blank(end);
    assert(s + without_blank_end(end) == s);
}

proof fn lemma_all_blank(s: Seq<char>)
    requires
        forall|i: int| 0 <= i < s.len() ==> (#[trigger] s[i]) as int <= 32,
    ensures
        without_blank_end(s) == Seq::<char>::empty(),
    decreases s.len(),
{
    if s.len() > 0 {
        let t = s.drop_last();
        assert forall|i: int| 0 <= i < t.len() implies (#[trigger] t[i]) as int <= 32 by {
            assert(t[i] == s[i]);
        }
        assert(s[s.len() - 1] as int <= 32);
        lemma_all_blank(t);
    }
}

// ---------------------------------------------------------------------------
// Names that stay
// ---------------------------------------------------------------------------

/// `s` holds no dot and no percent sign.
pub open spec fn dotless(s: Seq<char>) -> bool {
    forall|i: int| 0 <= i < s.len() ==> #[trigger] s[i] != '.' && s[i] != '%'
}

proof fn lemma_dotless_segments(s: Seq<char>)
    requires
        dotless(s),
    ensures
        no_dots(segments(s)),
    decreases s.len(),
{
    reveal_strlit(".");
    reveal_strlit("..");
    lemma_segment_len(s);
    let n = segment_len(s) as int;
    let first = s.take(n);
    assert(!dot_segment(first)) by {
        if dot_segment(first) {
            assert("."@.len() == 1 && ".."@.len() == 2);
            assert(first.len() > 0);
            assert(first[0] == '.');
            assert(s[0] == first[0]);
        }
    }
    if n == s.len() {
        assert(first == s);
    } else {
        let t = s.skip(n + 1);
        assert forall|i: int| 0 <= i < t.len() implies #[trigger] t[i] != '.' && t[i] != '%' by {
            assert(t[i] == s[n + 1 + i]);
        }
        lemma_dotless_segments(t);
        assert forall|i: int| 0 <= i < segments(s).len() implies !dot_segment(
            #[trigger] segments(s)[i],
        ) by {
            if i > 0 {
                assert(segments(s)[i] == segments(t)[i - 1]);
            }
        }
    }
}

proof fn lemma_dotless_stripped(s: Seq<char>)
    requires
        dotless(s),
    ensures
        dotless(stripped(s)),
    decreases s.len(),
{
    if s.len() > 0 {
        let t = s.drop_last();
        assert forall|i: int| 0 <= i < t.len() implies #[trigger] t[i] != '.' && t[i] != '%' by {
            assert(t[i] == s[i]);
        }
        lemma_dotless_stripped(t);
        assert(s[s.len() - 1] != '.' && s[s.len() - 1] != '%');
    }
}

proof fn lemma_dotless_decoded(s: Seq<char>)
    requires
        dotless(s),
    ensures
        decoded(s) == s,
    decreases s.len(),
{
    if s.len() > 0 {
        let t = s.drop_first();
        assert forall|i: int| 0 <= i < t.len() implies #[trigger] t[i] != '.' && t[i] != '%' by {
            assert(t[i] == s[i + 1]);
        }
        lemma_dotless_decoded(t);
        assert(s[0] != '%');
        assert(seq![s[0]] + t == s);
    } else {
        assert(decoded(s) == s);
    }
}

proof fn lemma_dotless_read(s: Seq<char>)
    requires
        dotless(s),
    ensures
        no_dots(segments(read_inside(s))),
{
    lemma_path_len(s);
    let p = path_part(s);
    assert forall|i: int| 0 <= i < p.len() implies #[trigger] p[i] != '.' && p[i] != '%' by {
        assert(p[i] == s[i]);
    }
    lemma_dotless_stripped(p);
    lemma_dotless_decoded(stripped(p));
    lemma_dotless_segments(stripped(p));
}

proof fn lemma_blank_end_is_a_start(s: Seq<char>)
    ensures
        without_blank_end(s).len() <= s.len(),
        without_blank_end(s) == s.take(without_blank_end(s).len() as int),
    decreases s.len(),
{
    if s.len() > 0 && s.last() as int <= 32 {
        let t = s.drop_last();
        lemma_blank_end_is_a_start(t);
        let n = without_blank_end(s).len() as int;
        assert(s.take(n) == t.take(n));
    } else {
        assert(s.take(s.len() as int) == s);
    }
}

/// A name without a dot and a percent sign stays, whatever else it holds; so does
/// a plain name; and a plain segment before a name decides nothing.
pub proof fn law_harmless_names_stay(
    name: &str,
    r: bool,
    first: Seq<char>,
    rest: &str,
    rest_r: bool,
)
    requires
        call_ensures(does_stay_put, (name,), r),
        call_ensures(does_stay_put, (rest,), rest_r),
        plain(first),
    ensures
        dotless(name@) ==> r,
        plain(name@) ==> r,
        name@ == first + "/"@ + rest@ ==> r == rest_r,
{
    if dotless(name@) {
        lemma_dotless_read(name@);
        let e = without_blank_end(name@);
        lemma_blank_end_is_a_start(name@);
        assert forall|i: int| 0 <= i < e.len() implies #[trigger] e[i] != '.' && e[i] != '%' by {
            assert(e[i] == name@[i]);
        }
        lemma_dotless_read(e);
    }
    if plain(name@) {
        lemma_plain(name@);
    }
    if name@ == first + "/"@ + rest@ {
        lemma_plain(first);
        lemma_read_join(first, rest@);
        lemma_read_join(first, without_blank_end(rest@));
        lemma_no_dots_after(first, segments(read_inside(rest@)));
        lemma_no_dots_after(first, segments(read_at_end(rest@)));
    }
}

proof fn lemma_no_dots_after(first: Seq<char>, all: Seq<Seq<char>>)
    requires
        !dot_segment(first),
    ensures
        no_dots(seq![first] + all) == no_dots(all),
{
    let v = seq![first] + all;
    if no_dots(v) {
        assert forall|i: int| 0 <= i < all.len() implies !dot_segment(#[trigger] all[i]) by {
            assert(v[i + 1] == all[i]);
        }
    }
    if no_dots(all) {
        assert forall|i: int| 0 <= i < v.len() implies !dot_segment(#[trigger] v[i]) by {
            if i > 0 {
                assert(v[i] == all[i - 1]);
            }
        }
    }
}

// ---------------------------------------------------------------------------
// Exactly which names climb
// ---------------------------------------------------------------------------

/// `s` without its tabs and line ends.
pub open spec fn kept(s: Seq<char>) -> Seq<char> {
    s.filter(|c: char| c != '\t' && c != '\n' && c != '\r')
}

proof fn lemma_kept_is_stripped(s: Seq<char>)
    ensures
        kept(s) == stripped(s),
    decreases s.len(),
{
    reveal(Seq::filter);
    if s.len() > 0 {
        lemma_kept_is_stripped(s.drop_last());
    }
}

/// `d` is a way to write one dot or two.
pub open spec fn spells_dots(d: Seq<char>) -> bool {
    spells_dot(d) || exists|a: Seq<char>, b: Seq<char>|
        d == #[trigger] (a + b) && spells_dot(a) && spells_dot(b)
}

/// `p` is nothing, or ends with a slash.
pub open spec fn ends_with_slash(p: Seq<char>) -> bool {
    p.len() == 0 || exists|x: Seq<char>, e: Seq<char>| p == #[trigger] (x + e) && spells_slash(e)
}

/// `q` is nothing, or begins with a slash.
pub open spec fn begins_with_slash(q: Seq<char>) -> bool {
    q.len() == 0 || exists|e: Seq<char>, x: Seq<char>| q == #[trigger] (e + x) && spells_slash(e)
}

/// One dot or two stand in `u` with a slash or nothing on either side.
pub open spec fn has_dots(u: Seq<char>) -> bool {
    exists|p: Seq<char>, d: Seq<char>, q: Seq<char>|
        u == #[trigger] (p + d + q) && spells_dots(d) && ends_with_slash(p) && begins_with_slash(q)
}

/// `s` climbs: dots stand as a segment in what comes before its query or fragment,
/// tabs and line ends aside.
pub open spec fn climbs(s: Seq<char>) -> bool {
    exists|h: Seq<char>, t: Seq<char>|
        s == #[trigger] (h + t) && all_path(h) && (t.len() == 0 || t[0] == '?' || t[0] == '#')
            && has_dots(kept(h))
}

/// What is read as two parts is written as two parts.
proof fn lemma_undecoded(u: Seq<char>, x: Seq<char>, y: Seq<char>) -> (n: int)
    requires
        decoded(u) == x + y,
    ensures
        0 <= n <= u.len(),
        decoded(u.take(n)) == x,
        decoded(u.skip(n)) == y,
    decreases u.len(),
{
    lemma_decoded_empty();
    if x.len() == 0 {
        assert(x + y == y);
        assert(u.take(0) == Seq::<char>::empty());
        assert(u.skip(0) == u);
        0
    } else {
        assert(u.len() > 0) by {
            if u.len() == 0 {
                assert(u == Seq::<char>::empty());
                assert((x + y).len() > 0);
            }
        }
        let z = x.drop_first();
        assert((x + y).drop_first() == z + y);
        let escape = u.len() >= 3 && u[0] == '%' && escaped(u[1], u[2]) is Some;
        let k = if escape {
            3int
        } else {
            1int
        };
        let c = if escape {
            escaped(u[1], u[2])->0
        } else {
            u[0]
        };
        let rest = u.skip(k);
        assert(u.skip(1) == u.drop_first());
        assert(decoded(u) == seq![c] + decoded(rest));
        assert(decoded(rest) == (seq![c] + decoded(rest)).drop_first());
        assert(decoded(u)[0] == c);
        assert((x + y)[0] == x[0]);
        let m = lemma_undecoded(rest, z, y);
        let n = m + k;
        let a = u.take(n);
        assert(a.skip(k) == rest.take(m));
        assert(a.skip(1) == a.drop_first());
        if a.len() >= 3 {
            assert(a[0] == u[0] && a[1] == u[1] && a[2] == u[2]);
        }
        assert(a[0] == u[0]);
        assert(decoded(a) == seq![c] + z);
        assert(seq![c] + z == x);
        assert(u.skip(n) == rest.skip(m));
        n
    }
}

/// What is read as one character is that character or its escape.
proof fn lemma_undecoded_char(v: Seq<char>, c: char)
    requires
        decoded(v) == seq![c],
    ensures
        v == seq![c] || (v.len() == 3 && v[0] == '%' && escaped(v[1], v[2]) == Some(c)),
{
    lemma_decoded_empty();
    if v.len() == 0 {
        assert(v == Seq::<char>::empty());
        assert(seq![c].len() == 1);
    } else {
        let escape = v.len() >= 3 && v[0] == '%' && escaped(v[1], v[2]) is Some;
        let k = if escape {
            3int
        } else {
            1int
        };
        let e = if escape {
            escaped(v[1], v[2])->0
        } else {
            v[0]
        };
        let rest = v.skip(k);
        assert(v.skip(1) == v.drop_first());
        assert(decoded(v) == seq![e] + decoded(rest));
        assert(decoded(v)[0] == e);
        assert(decoded(rest).len() == 0);
        if rest.len() > 0 {
            assert(decoded(rest).len() > 0);
        }
        if !escape {
            assert(v == seq![c]);
        }
    }
}

proof fn lemma_reads_dot(v: Seq<char>)
    requires
        decoded(v) == seq!['.'],
    ensures
        spells_dot(v),
{
    lemma_undecoded_char(v, '.');
    if v.len() == 3 {
        assert(v == seq![v[0], v[1], v[2]]);
    }
}

proof fn lemma_reads_slash(v: Seq<char>, c: char)
    requires
        decoded(v) == seq![c],
        ends_segment(c),
    ensures
        spells_slash(v),
{
    lemma_undecoded_char(v, c);
    if v.len() == 3 {
        assert(v == seq![v[0], v[1], v[2]]);
    }
}

/// A segment stands between two slashes, or between one and an end.
proof fn lemma_segment_stands(t: Seq<char>, k: int) -> (i: int)
    requires
        0 <= k < segments(t).len(),
    ensures
        0 <= i <= i + segments(t)[k].len() <= t.len(),
        t.subrange(i, i + segments(t)[k].len()) == segments(t)[k],
        i > 0 ==> ends_segment(t[i - 1]),
        i + segments(t)[k].len() < t.len() ==> ends_segment(t[i + segments(t)[k].len()]),
    decreases t.len(),
{
    lemma_segment_len(t);
    let n = segment_len(t) as int;
    if k == 0 {
        if n == t.len() {
            assert(t.subrange(0, n) == t);
        } else {
            assert(segments(t)[0] == t.take(n));
            assert(t.subrange(0, n) == t.take(n));
        }
        0
    } else {
        let rest = t.skip(n + 1);
        assert(segments(t)[k] == segments(rest)[k - 1]);
        let j = lemma_segment_stands(rest, k - 1);
        let l = segments(t)[k].len() as int;
        let i = n + 1 + j;
        assert(t.subrange(i, i + l) == rest.subrange(j, j + l));
        if j > 0 {
            assert(rest[j - 1] == t[i - 1]);
        }
        if j + l < rest.len() {
            assert(rest[j + l] == t[i + l]);
        }
        i
    }
}

proof fn lemma_has_dots_is_read(u: Seq<char>)
    requires
        has_dots(u),
    ensures
        !no_dots(segments(decoded(u))),
{
    reveal_strlit(".");
    reveal_strlit("..");
    let (p, d, q) = choose|p: Seq<char>, d: Seq<char>, q: Seq<char>|
        u == #[trigger] (p + d + q) && spells_dots(d) && ends_with_slash(p) && begins_with_slash(q);
    lemma_decoded_empty();
    let dots = decoded(d);
    assert(dot_segment(dots) && segments(dots) == seq![dots] && starts_afresh(d)) by {
        if spells_dot(d) {
            lemma_dot(d);
            assert(dots == "."@);
            lemma_segment_len_is(dots, 1);
        } else {
            let (a, b) = choose|a: Seq<char>, b: Seq<char>|
                d == #[trigger] (a + b) && spells_dot(a) && spells_dot(b);
            lemma_dot(a);
            lemma_dot(b);
            lemma_decoded_concat(a, b);
            assert(d[0] == a[0]);
            assert(dots =~= seq!['.', '.']);
            assert(dots == ".."@);
            lemma_segment_len_is(dots, 2);
        }
    }
    let dq = decoded(q);
    assert(starts_afresh(q) && (q.len() == 0 || (dq.len() > 0 && ends_segment(dq[0])))) by {
        if q.len() > 0 {
            let (e, x) = choose|e: Seq<char>, x: Seq<char>|
                q == #[trigger] (e + x) && spells_slash(e);
            let c = lemma_slash(e);
            assert(q[0] == e[0]);
            lemma_slash_first(e, x);
        }
    }
    if q.len() == 0 {
        assert(q == Seq::<char>::empty());
    }
    lemma_decoded_concat(p + d, q);
    lemma_decoded_concat(p, d);
    let tail = dots + dq;
    assert(segments(tail).len() > 0 && segments(tail)[0] == dots) by {
        if dq.len() == 0 {
            assert(tail == dots);
        } else {
            assert(tail == dots + seq![dq[0]] + dq.drop_first());
            lemma_segments_at(dots, dq[0], dq.drop_first());
        }
    }
    let whole = decoded(u);
    assert(whole == decoded(p) + tail);
    if p.len() == 0 {
        assert(p == Seq::<char>::empty());
        assert(whole == tail);
        assert(dot_segment(segments(whole)[0]));
    } else {
        let (x, e) = choose|x: Seq<char>, e: Seq<char>| p == #[trigger] (x + e) && spells_slash(e);
        let c = lemma_slash(e);
        lemma_decoded_concat(x, e);
        assert(whole == decoded(x) + seq![c] + tail);
        lemma_segments_at(decoded(x), c, tail);
        assert(dot_segment(segments(whole)[segments(decoded(x)).len() as int]));
    }
}

proof fn lemma_read_dots_are_there(u: Seq<char>)
    requires
        !no_dots(segments(decoded(u))),
    ensures
        has_dots(u),
{
    reveal_strlit(".");
    reveal_strlit("..");
    let t = decoded(u);
    let k = choose|k: int| 0 <= k < segments(t).len() && dot_segment(#[trigger] segments(t)[k]);
    let dots = segments(t)[k];
    let i = lemma_segment_stands(t, k);
    let l = dots.len() as int;
    let p = t.take(i);
    let q = t.skip(i + l);
    assert(t =~= p + (t.subrange(i, i + l) + q));
    let a = lemma_undecoded(u, p, dots + q);
    let up = u.take(a);
    let ur = u.skip(a);
    let b = lemma_undecoded(ur, dots, q);
    let ud = ur.take(b);
    let uq = ur.skip(b);
    assert(u =~= up + ud + uq);
    assert(spells_dots(ud)) by {
        if l == 1 {
            assert(dots =~= seq!['.']);
            lemma_reads_dot(ud);
        } else {
            assert(dots =~= seq!['.'] + seq!['.']);
            let n = lemma_undecoded(ud, seq!['.'], seq!['.']);
            lemma_reads_dot(ud.take(n));
            lemma_reads_dot(ud.skip(n));
            assert(ud == ud.take(n) + ud.skip(n));
        }
    }
    assert(ends_with_slash(up)) by {
        if i > 0 {
            let c = t[i - 1];
            assert(p =~= p.drop_last() + seq![c]);
            let n = lemma_undecoded(up, p.drop_last(), seq![c]);
            lemma_reads_slash(up.skip(n), c);
            assert(up == up.take(n) + up.skip(n));
        } else {
            lemma_reads_nothing(up);
        }
    }
    assert(begins_with_slash(uq)) by {
        if q.len() > 0 {
            let c = q[0];
            assert(q =~= seq![c] + q.drop_first());
            let n = lemma_undecoded(uq, seq![c], q.drop_first());
            lemma_reads_slash(uq.take(n), c);
            assert(uq == uq.take(n) + uq.skip(n));
        } else {
            lemma_reads_nothing(uq);
        }
    }
}

proof fn lemma_reads_nothing(u: Seq<char>)
    requires
        decoded(u).len() == 0,
    ensures
        u.len() == 0,
{
}

proof fn lemma_climbs(s: Seq<char>)
    ensures
        climbs(s) <==> !no_dots(segments(read_inside(s))),
{
    lemma_path_len(s);
    let n = path_len(s) as int;
    let p = path_part(s);
    lemma_kept_is_stripped(p);
    if climbs(s) {
        let (h, t) = choose|h: Seq<char>, t: Seq<char>|
            s == #[trigger] (h + t) && all_path(h) && (t.len() == 0 || t[0] == '?' || t[0] == '#')
                && has_dots(kept(h));
        let m = h.len() as int;
        assert forall|i: int| 0 <= i < m implies !ends_path(#[trigger] s[i]) by {
            assert(s[i] == h[i]);
        }
        if m < s.len() {
            assert(s[m] == t[0]);
        }
        lemma_path_len_is(s, m);
        assert(p == h);
        lemma_has_dots_is_read(kept(h));
    }
    if !no_dots(segments(read_inside(s))) {
        lemma_read_dots_are_there(stripped(p));
        let t = s.skip(n);
        assert(s == p + t);
        assert forall|i: int| 0 <= i < p.len() implies #[trigger] p[i] != '?' && p[i] != '#' by {
            assert(p[i] == s[i]);
        }
        if t.len() > 0 {
            assert(t[0] == s[n]);
        }
    }
}

/// A name stays exactly if it does not climb, neither as it is nor without the
/// control characters and spaces at its end.
pub proof fn law_only_climbing_names_leave(
    name: &str,
    r: bool,
    body: Seq<char>,
    end: Seq<char>,
)
    requires
        call_ensures(does_stay_put, (name,), r),
        name@ == body + end,
        body.len() > 0 ==> body.last() as int > 32,
        forall|i: int| 0 <= i < end.len() ==> (#[trigger] end[i]) as int <= 32,
    ensures
        r <==> !climbs(name@) && !climbs(body),
{
    lemma_climbs(name@);
    lemma_climbs(body);
    lemma_all_blank(end);
    if body.len() > 0 {
        lemma_blank_end(body, end);
        assert(body + without_blank_end(end) == body);
    } else {
        assert(name@ == end);
        assert(body == Seq::<char>::empty());
    }
}

/// A repository is taken exactly if its name stays: as it is if it holds no slash,
/// and else behind the organisation and a slash.
pub proof fn law_climbing_repos_are_refused(
    ctx: &ForgeContext,
    repo: &str,
    r: Result<String, CodeError>,
    name: &str,
    stays: bool,
    org: Seq<char>,
)
    requires
        call_ensures(ensure_same_tenant, (ctx, repo), r),
        call_ensures(does_stay_put, (name,), stays),
        org == ctx.org_slug@,
        !org.contains('/'),
    ensures
        repo@ == name@ && !name@.contains('/') || repo@ == org + "/"@ + name@ ==> {
            &&& r is Ok == stays
            &&& stays ==> r->Ok_0@ == name@
        },
{
    if !name@.contains('/') {
        assert forall|i: int| 0 <= i < name@.len() implies #[trigger] name@[i] != '/' by {}
        lemma_split_at_slash(name@, seq![]);
    }
    assert forall|i: int| 0 <= i < org.len() implies #[trigger] org[i] != '/' by {}
    lemma_split_at_slash(org, name@);
}

} // verus!
