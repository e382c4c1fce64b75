//! Lines and words of a text.

use vstd::prelude::*;
use vstd::string::*;

use crate::search::{find_chars, find_from, lemma_find, lemma_find_is, lemma_find_shift, occurs_at};
use crate::text::{chars_of, is_space, is_whitespace, lemma_trim_start, trim_start};

verus! {

/// The texts that a list of strings holds.
pub open spec fn texts(v: Seq<String>) -> Seq<Seq<char>> {
    v.map_values(|s: String| s@)
}

/// The texts that a list of string slices holds.
pub open spec fn slices(v: Seq<&str>) -> Seq<Seq<char>> {
    v.map_values(|s: &str| s@)
}

// ---------------------------------------------------------------------------
// Lines
// ---------------------------------------------------------------------------

/// A line without the carriage return before its line feed.
pub open spec fn without_cr(l: Seq<char>) -> Seq<char> {
    if l.len() > 0 && l.last() == '\r' {
        l.drop_last()
    } else {
        l
    }
}

/// The lines of `s`. A line ends with a line feed or a carriage return and a
/// line feed; the last one may end with the text.
pub open spec fn lines(s: Seq<char>) -> Seq<Seq<char>>
    decreases s.len(),
{
    if s.len() == 0 {
        seq![]
    } else {
        proof {
            lemma_find(s, seq!['\n'], 0);
        }
        match find_from(s, seq!['\n'], 0) {
            Some(i) => seq![without_cr(s.take(i))] + lines(s.skip(i + 1)),
            None => seq![s],
        }
    }
}

/// The lines of `s`.
pub fn lines_of<'a>(s: &'a str) -> (r: Vec<&'a str>)
    ensures
        slices(r@) == lines(s@),
{
    let v = chars_of(s);
    let mut nl: Vec<char> = Vec::new();
    nl.push('\n');
    assert(nl@ == seq!['\n']);
    let mut out: Vec<&'a str> = Vec::new();
    let mut i: usize = 0;
    assert(v@.skip(0) == v@);
    assert(slices(out@) == Seq::<Seq<char>>::empty());
    while i < v.len()
        invariant
            i <= v.len(),
            v@ == s@,
            nl@ == seq!['\n'],
            lines(v@) == slices(out@) + lines(v@.skip(i as int)),
        decreases v.len() - i,
    {
        let ghost rest = v@.skip(i as int);
        let ghost before = slices(out@);
        proof {
            lemma_find(rest, nl@, 0);
            lemma_find_shift(v@, nl@, i as int, i as int);
        }
        match find_chars(&v, &nl, i) {
            Some(k) => {
                let e: usize = if k > i && v[k - 1] == '\r' {
                    k - 1
                } else {
                    k
                };
                let ghost l = without_cr(rest.take(k - i));
                assert(l == s@.subrange(i as int, e as int));
                out.push(s.substring_char(i, e));
                assert(slices(out@) == before.push(l));
                assert(rest.skip(k - i + 1) == v@.skip(k + 1));
                assert(before + (seq![l] + lines(v@.skip(k + 1))) == before.push(l) + lines(
                    v@.skip(k + 1),
                ));
                i = k + 1;
            },
            None => {
                out.push(s.substring_char(i, v.len()));
                assert(rest == s@.subrange(i as int, v@.len() as int));
                assert(slices(out@) == before.push(rest));
                i = v.len();
                assert(lines(v@.skip(i as int)) == Seq::<Seq<char>>::empty());
                assert(before + seq![rest] == before.push(rest) + lines(v@.skip(i as int)));
            },
        }
    }
    assert(v@.skip(i as int).len() == 0);
    assert(slices(out@) + lines(v@.skip(i as int)) == slices(out@));
    out
}

/// What follows the last line feed of `s`.
pub open spec fn unfinished(s: Seq<char>) -> Seq<char>
    decreases s.len(),
{
    if s.len() == 0 || s.last() == '\n' {
        seq![]
    } else {
        unfinished(s.drop_last()).push(s.last())
    }
}

/// `unfinished` is the longest end of `s` without a line feed.
pub proof fn lemma_unfinished(s: Seq<char>)
    ensures
        unfinished(s).len() <= s.len(),
        s.skip(s.len() - unfinished(s).len()) == unfinished(s),
        !unfinished(s).contains('\n'),
        unfinished(s).len() < s.len() ==> s[s.len() - unfinished(s).len() - 1] == '\n',
    decreases s.len(),
{
    if s.len() == 0 || s.last() == '\n' {
        assert(s.skip(s.len() as int) == unfinished(s));
    } else {
        let t = s.drop_last();
        lemma_unfinished(t);
        let u = unfinished(s);
        assert(s.skip(s.len() - u.len()) == t.skip(t.len() - unfinished(t).len()).push(s.last()));
        assert forall|i: int| 0 <= i < u.len() implies u[i] != '\n' by {
            if i < unfinished(t).len() {
                assert(unfinished(t).contains(unfinished(t)[i]));
            }
        }
    }
}

/// The lines of a text whose first part ends with a line feed are those of the
/// two parts.
pub proof fn lemma_lines_concat(a: Seq<char>, b: Seq<char>)
    requires
        a.len() == 0 || a.last() == '\n',
    ensures
        lines(a + b) == lines(a) + lines(b),
    decreases a.len(),
{
    let nl = seq!['\n'];
    let s = a + b;
    if a.len() == 0 {
        assert(s == b);
        assert(lines(a) + lines(b) == lines(b));
    } else {
        lemma_find(a, nl, 0);
        assert(a.subrange(a.len() - 1, a.len() as int) == nl);
        assert(occurs_at(a, nl, a.len() - 1));
        let i = find_from(a, nl, 0)->0;
        assert(s.subrange(i, i + 1) == a.subrange(i, i + 1));
        assert forall|j: int| 0 <= j < i implies !#[trigger] occurs_at(s, nl, j) by {
            assert(s.subrange(j, j + 1) == a.subrange(j, j + 1));
            assert(!occurs_at(a, nl, j));
        }
        lemma_find_is(s, nl, 0, i);
        assert(s.take(i) == a.take(i));
        let rest = a.skip(i + 1);
        assert(s.skip(i + 1) == rest + b);
        if rest.len() > 0 {
            assert(rest.last() == a.last());
        }
        lemma_lines_concat(rest, b);
        let l = without_cr(a.take(i));
        assert(seq![l] + (lines(rest) + lines(b)) == (seq![l] + lines(rest)) + lines(b));
    }
}

/// A text without a line feed is one line, finished or not.
pub proof fn lemma_one_line(x: Seq<char>)
    requires
        !x.contains('\n'),
    ensures
        lines(x.push('\n')) == seq![without_cr(x)],
        x.len() > 0 ==> lines(x) == seq![x],
        x.len() == 0 ==> lines(x) == Seq::<Seq<char>>::empty(),
{
    let nl = seq!['\n'];
    let s = x.push('\n');
    let n = x.len() as int;
    assert(s.subrange(n, n + 1) == nl);
    assert forall|j: int| 0 <= j < x.len() implies !#[trigger] occurs_at(s, nl, j) by {
        assert(s.subrange(j, j + 1)[0] == x[j]);
    }
    lemma_find_is(s, nl, 0, n);
    assert(s.take(n) == x);
    assert(s.skip(n + 1).len() == 0);
    assert(seq![without_cr(x)] + lines(s.skip(n + 1)) == seq![without_cr(x)]);
    lemma_find(x, nl, 0);
    assert forall|j: int| !#[trigger] occurs_at(x, nl, j) by {
        if occurs_at(x, nl, j) {
            assert(x.subrange(j, j + 1)[0] == x[j]);
        }
    }
}

// ---------------------------------------------------------------------------
// Words
// ---------------------------------------------------------------------------

/// How many characters `s` has before its first white space.
pub open spec fn word_len(s: Seq<char>) -> nat
    decreases s.len(),
{
    if s.len() > 0 && !is_space(s[0]) {
        1 + word_len(s.drop_first())
    } else {
        0
    }
}

/// The words of `s`: its longest pieces without white space.
pub open spec fn words(s: Seq<char>) -> Seq<Seq<char>>
    decreases s.len(),
{
    proof {
        lemma_trim_start(s);
        lemma_word_len(trim_start(s));
    }
    let t = trim_start(s);
    if t.len() == 0 {
        seq![]
    } else {
        seq![t.take(word_len(t) as int)] + words(t.skip(word_len(t) as int))
    }
}

/// A word reaches as far as there is no white space.
pub proof fn lemma_word_len(s: Seq<char>)
    ensures
        word_len(s) <= s.len(),
        forall|i: int| 0 <= i < word_len(s) ==> !is_space(#[trigger] s[i]),
        word_len(s) < s.len() ==> is_space(s[word_len(s) as int]),
    decreases s.len(),
{
    if s.len() > 0 && !is_space(s[0]) {
        let t = s.drop_first();
        lemma_word_len(t);
        assert forall|i: int| 0 <= i < word_len(s) implies !is_space(#[trigger] s[i]) by {
            if i > 0 {
                assert(s[i] == t[i - 1]);
            }
        }
        if word_len(s) < s.len() {
            assert(s[word_len(s) as int] == t[word_len(t) as int]);
        }
    }
}

/// A run without white space, followed by white space or by nothing, is a word.
pub proof fn lemma_word_len_is(s: Seq<char>, n: int)
    requires
        0 <= n <= s.len(),
        forall|i: int| 0 <= i < n ==> !is_space(#[trigger] s[i]),
        n < s.len() ==> is_space(s[n]),
    ensures
        word_len(s) == n,
{
    lemma_word_len(s);
    if word_len(s) < n {
        assert(is_space(s[word_len(s) as int]));
    }
}

/// The words of `s`.
pub fn words_of<'a>(s: &'a str) -> (r: Vec<&'a str>)
    ensures
        slices(r@) == words(s@),
{
    let v = chars_of(s);
    let n: usize = v.len();
    let mut out: Vec<&'a str> = Vec::new();
    let mut i: usize = 0;
    assert(v@.skip(0) == v@);
    assert(slices(out@) == Seq::<Seq<char>>::empty());
    loop
        invariant
            i <= n == v.len(),
            v@ == s@,
            words(v@) == slices(out@) + words(v@.skip(i as int)),
        decreases n - i,
    {
        let ghost rest = v@.skip(i as int);
        let ghost before = slices(out@);
        let mut a: usize = i;
        while a < n && is_whitespace(v[a])
            invariant
                i <= a <= n == v.len(),
                trim_start(v@.skip(i as int)) == trim_start(v@.skip(a as int)),
            decreases n - a,
        {
            assert(v@.skip(a as int).drop_first() == v@.skip(a + 1));
            a += 1;
        }
        let ghost t = v@.skip(a as int);
        assert(trim_start(rest) == t);
        if a == n {
            assert(words(rest) == Seq::<Seq<char>>::empty());
            assert(before + words(rest) == before);
            return out;
        }
        let mut b: usize = a;
        while b < n && !is_whitespace(v[b])
            invariant
                a <= b <= n == v.len(),
                forall|j: int| a <= j < b ==> !is_space(#[trigger] v@[j]),
            decreases n - b,
        {
            b += 1;
        }
        proof {
            assert forall|j: int| 0 <= j < b - a implies !is_space(#[trigger] t[j]) by {
                assert(t[j] == v@[a + j]);
            }
            lemma_word_len_is(t, b - a);
        }
        out.push(s.substring_char(a, b));
        assert(t.take(b - a) == s@.subrange(a as int, b as int));
        assert(slices(out@) == before.push(t.take(b - a)));
        assert(t.skip(b - a) == v@.skip(b as int));
        assert(before + (seq![t.take(b - a)] + words(v@.skip(b as int))) == before.push(
            t.take(b - a),
        ) + words(v@.skip(b as int)));
        i = b;
    }
}

} // verus!
