//! What the text operations do.

use vstd::prelude::*;
use vstd::string::*;

use crate::lines::{
    lemma_lines_concat, lemma_one_line, lemma_word_len_is, lines_of, slices, texts, words, words_of,
};
use crate::order::{at_most, insert_ascending, is_at_most};
use crate::search::{
    contains, find_bytes, find_chars, find_from, has_text, lemma_find, lemma_find_is,
    lemma_replaced_absent, occurs_at, replace, replaced, split_once, strip_prefix, strip_suffix,
};
use crate::text::{
    blank, chars_of, code_point, decimal, decimal_of, equal_ignoring_case, has_char, is_space,
    is_whitespace, lemma_trim_start, lemma_trimmed, same_letter, same_text, trim, trim_end,
    trim_leading, trim_start, trim_trailing, trimmed, without_leading, without_trailing,
};

verus! {

// ---------------------------------------------------------------------------
// Trimming
// ---------------------------------------------------------------------------

/// `s` neither starts nor ends with white space.
pub open spec fn tight(s: Seq<char>) -> bool {
    s.len() > 0 ==> !is_space(s[0]) && !is_space(s.last())
}

proof fn lemma_trim_start_skips(a: Seq<char>, s: Seq<char>)
    requires
        blank(a),
    ensures
        trim_start(a + s) == trim_start(s),
    decreases a.len(),
{
    if a.len() == 0 {
        assert(a + s == s);
    } else {
        let t = a.drop_first();
        assert forall|i: int| 0 <= i < t.len() implies is_space(#[trigger] t[i]) by {
            assert(t[i] == a[i + 1]);
        }
        assert((a + s).drop_first() == t + s);
        assert((a + s)[0] == a[0]);
        lemma_trim_start_skips(t, s);
    }
}

proof fn lemma_trim_end_skips(s: Seq<char>, b: Seq<char>)
    requires
        blank(b),
    ensures
        trim_end(s + b) == trim_end(s),
    decreases b.len(),
{
    if b.len() == 0 {
        assert(s + b == s);
    } else {
        let t = b.drop_last();
        assert forall|i: int| 0 <= i < t.len() implies is_space(#[trigger] t[i]) by {
            assert(t[i] == b[i]);
        }
        assert((s + b).drop_last() == s + t);
        assert((s + b).last() == b[b.len() - 1]);
        lemma_trim_end_skips(s, t);
    }
}

/// Trimming a text with white space around it gives the text.
pub proof fn lemma_trimmed_middle(a: Seq<char>, m: Seq<char>, b: Seq<char>)
    requires
        blank(a),
        blank(b),
        tight(m),
    ensures
        trimmed(a + m + b) == m,
{
    assert(a + m + b == a + (m + b));
    lemma_trim_start_skips(a, m + b);
    if m.len() == 0 {
        assert(m + b == b);
        lemma_trim_start(b);
        assert(trim_start(b) =~= m);
    } else {
        assert((m + b)[0] == m[0]);
        assert(trim_start(m + b) == m + b);
        lemma_trim_end_skips(m, b);
    }
}

/// A text is its trimmed text with white space around it.
pub(crate) proof fn lemma_trim_decomposes(s: Seq<char>) -> (ab: (Seq<char>, Seq<char>))
    ensures
        s == ab.0 + trimmed(s) + ab.1,
        blank(ab.0) && blank(ab.1),
        tight(trimmed(s)),
    decreases s.len(),
{
    lemma_trimmed(s);
    if s.len() == 0 {
        assert(s == s + trimmed(s) + s);
        (s, s)
    } else if is_space(s[0]) {
        let t = s.drop_first();
        let (a, b) = lemma_trim_decomposes(t);
        assert(trimmed(s) == trimmed(t));
        assert(s == seq![s[0]] + t);
        let c = seq![s[0]] + a;
        assert(s == c + trimmed(s) + b);
        assert forall|i: int| 0 <= i < c.len() implies is_space(#[trigger] c[i]) by {
            if i > 0 {
                assert(c[i] == a[i - 1]);
            }
        }
        (c, b)
    } else {
        let b = lemma_trim_end_decomposes(s);
        assert(s == Seq::<char>::empty() + trimmed(s) + b);
        (seq![], b)
    }
}

proof fn lemma_trim_end_decomposes(s: Seq<char>) -> (b: Seq<char>)
    ensures
        s == trim_end(s) + b,
        blank(b),
    decreases s.len(),
{
    if s.len() > 0 && is_space(s.last()) {
        let t = s.drop_last();
        let b = lemma_trim_end_decomposes(t);
        assert(trim_end(s) == trim_end(t));
        assert(s == t.push(s.last()));
        assert(s == trim_end(s) + b.push(s.last()));
        assert(b.push(s.last()).last() == s.last());
        b.push(s.last())
    } else {
        assert(s == s + Seq::<char>::empty());
        seq![]
    }
}

/// `trim` gives back what white space stands around.
pub proof fn law_trim_gives_the_middle(
    a: Seq<char>,
    m: Seq<char>,
    b: Seq<char>,
    s: &str,
    r: &str,
)
    requires
        call_ensures(trim, (s,), r),
        s@ == a + m + b,
        blank(a),
        blank(b),
        tight(m),
    ensures
        r@ == m,
{
    lemma_trimmed_middle(a, m, b);
}

/// `n` times the character `c`.
pub open spec fn run_of(c: char, n: nat) -> Seq<char> {
    Seq::new(n, |i: int| c)
}

pub(crate) proof fn lemma_without_run_behind(m: Seq<char>, c: char, n: nat)
    requires
        m.len() > 0 ==> m.last() != c,
    ensures
        without_trailing(m + run_of(c, n), c) == m,
    decreases n,
{
    let s = m + run_of(c, n);
    if n == 0 {
        assert(s == m);
    } else {
        let k = (n - 1) as nat;
        assert(s.last() == c);
        assert(s.drop_last() == m + run_of(c, k));
        lemma_without_run_behind(m, c, k);
    }
}

pub(crate) proof fn lemma_without_run_before(m: Seq<char>, c: char, n: nat)
    requires
        m.len() > 0 ==> m[0] != c,
    ensures
        without_leading(run_of(c, n) + m, c) == m,
    decreases n,
{
    let s = run_of(c, n) + m;
    if n == 0 {
        assert(s == m);
    } else {
        let k = (n - 1) as nat;
        assert(s[0] == c);
        assert(s.drop_first() == run_of(c, k) + m);
        lemma_without_run_before(m, c, k);
    }
}

/// A text is what is left of it without the `c`s at its end, and those `c`s.
pub(crate) proof fn lemma_run_behind(s: Seq<char>, c: char) -> (n: nat)
    ensures
        s == without_trailing(s, c) + run_of(c, n),
        without_trailing(s, c).len() > 0 ==> without_trailing(s, c).last() != c,
    decreases s.len(),
{
    if s.len() > 0 && s.last() == c {
        let t = s.drop_last();
        let k = lemma_run_behind(t, c);
        assert(without_trailing(s, c) == without_trailing(t, c));
        assert(s == t.push(c));
        assert(s == without_trailing(s, c) + run_of(c, k + 1));
        k + 1
    } else {
        assert(s == s + run_of(c, 0));
        0
    }
}

/// `trim_trailing` and `trim_leading` take off every `c` at one end and nothing
/// else.
pub proof fn law_trimming_takes_the_whole_run(m: Seq<char>, c: char, n: nat, s: &str, r: &str)
    ensures
        call_ensures(trim_trailing, (s, c), r) && s@ == m + run_of(c, n) && (m.len() > 0
            ==> m.last() != c) ==> r@ == m,
        call_ensures(trim_leading, (s, c), r) && s@ == run_of(c, n) + m && (m.len() > 0 ==> m[0]
            != c) ==> r@ == m,
{
    if m.len() > 0 ==> m.last() != c {
        lemma_without_run_behind(m, c, n);
    }
    if m.len() > 0 ==> m[0] != c {
        lemma_without_run_before(m, c, n);
    }
}

/// The white space characters, by code point.
pub open spec fn space_codes() -> Seq<int> {
    seq![
        9, 10, 11, 12, 13, 32, 133, 160, 5760, 8192, 8193, 8194, 8195, 8196, 8197, 8198, 8199, 8200,
        8201, 8202, 8232, 8233, 8239, 8287, 12288,
    ]
}

/// A character is white space exactly if its code point is one of those.
pub proof fn law_white_space_has_a_code(c: char, r: bool)
    requires
        call_ensures(is_whitespace, (c,), r),
    ensures
        r <==> space_codes().contains(c as int),
{
    let t = space_codes();
    let u = c as int;
    if t.contains(u) {
        let i = choose|i: int| 0 <= i < t.len() && t[i] == u;
        assert(t.len() == 25);
    }
    if r {
        let i = if u <= 13 {
            u - 9
        } else if u == 32 {
            5
        } else if u == 133 {
            6
        } else if u == 160 {
            7
        } else if u == 5760 {
            8
        } else if u <= 8202 {
            u - 8192 + 9
        } else if u == 8232 {
            20
        } else if u == 8233 {
            21
        } else if u == 8239 {
            22
        } else if u == 8287 {
            23
        } else {
            24
        };
        assert(t[i] == u);
    }
}

/// The characters of a text come one by one and in order, with their code points.
pub proof fn law_characters_come_in_order(s: &str, v: Vec<char>, c: char, u: u32)
    requires
        call_ensures(chars_of, (s,), v),
        call_ensures(code_point, (c,), u),
    ensures
        v@.len() == s@.len(),
        forall|i: int| 0 <= i < v@.len() ==> #[trigger] v@[i] == s@[i],
        u as int == c as int,
{
}

/// Texts are the same if they agree in every character, and a text has a
/// character if it stands somewhere in it.
pub proof fn law_same_texts_agree_everywhere(a: &str, b: &str, same: bool, c: char, has: bool)
    requires
        call_ensures(same_text, (a, b), same),
        call_ensures(has_char, (a, c), has),
    ensures
        same <==> a@.len() == b@.len() && forall|i: int|
            0 <= i < a@.len() ==> #[trigger] a@[i] == b@[i],
        has <==> exists|i: int| 0 <= i < a@.len() && #[trigger] a@[i] == c,
{
    if a@.len() == b@.len() && (forall|i: int|
        0 <= i < a@.len() ==> #[trigger] a@[i] == b@[i]) {
        assert(a@ =~= b@);
    }
}

// ---------------------------------------------------------------------------
// Comparing and numerals
// ---------------------------------------------------------------------------

/// The code of `c` in lower case.
pub open spec fn folded(c: char) -> int {
    if 65 <= c as int <= 90 {
        c as int + 32
    } else {
        c as int
    }
}

/// Two characters are one letter exactly if their lower case is the same.
pub proof fn lemma_folded(a: char, b: char)
    ensures
        same_letter(a, b) <==> folded(a) == folded(b),
{
}

/// Texts are equal but for case exactly if their characters are equal in lower
/// case.
pub proof fn law_case_is_folded(a: &str, b: &str, r: bool)
    requires
        call_ensures(equal_ignoring_case, (a, b), r),
    ensures
        r <==> a@.len() == b@.len() && forall|i: int|
            0 <= i < a@.len() ==> folded(#[trigger] a@[i]) == folded(b@[i]),
{
    assert forall|x: char, y: char| same_letter(x, y) <==> folded(x) == folded(y) by {
        lemma_folded(x, y);
    }
}

/// The number that a numeral of decimal digits stands for.
pub open spec fn value_of(s: Seq<char>) -> int
    decreases s.len(),
{
    if s.len() == 0 {
        0
    } else {
        10 * value_of(s.drop_last()) + (s.last() as int - 48)
    }
}

pub(crate) proof fn lemma_value_of_decimal(n: nat)
    ensures
        value_of(decimal(n)) == n,
        decimal(n).len() > 0,
        decimal(n).len() > 1 ==> decimal(n)[0] != '0',
        n > 0 ==> decimal(n)[0] != '0',
        forall|i: int| 0 <= i < decimal(n).len() ==> 48 <= (#[trigger] decimal(n)[i]) as int <= 57,
    decreases n,
{
    let s = decimal(n);
    crate::text::lemma_decimal(n);
    if n < 10 {
        assert(s.drop_last() == Seq::<char>::empty());
        assert(value_of(Seq::<char>::empty()) == 0);
    } else {
        lemma_value_of_decimal(n / 10);
        assert(s.drop_last() == decimal(n / 10));
        assert(s[0] == decimal(n / 10)[0]);
    }
}

/// A numeral stands for its number and has no leading zeros.
pub proof fn law_numeral_stands_for_the_number(n: u64, r: String)
    requires
        call_ensures(decimal_of, (n,), r),
    ensures
        value_of(r@) == n,
        r@.len() > 0,
        r@.len() > 1 ==> r@[0] != '0',
        forall|i: int| 0 <= i < r@.len() ==> 48 <= (#[trigger] r@[i]) as int <= 57,
{
    lemma_value_of_decimal(n as nat);
}

/// One text stands before another exactly if it begins the other, or is smaller
/// at the first position at which they differ.
pub proof fn law_order_looks_at_the_first_difference(a: &str, b: &str, r: bool)
    requires
        call_ensures(is_at_most, (a, b), r),
    ensures
        r <==> exists|k: int|
            #![trigger a@.take(k)]
            0 <= k <= a@.len() && k <= b@.len() && a@.take(k) == b@.take(k) && (k == a@.len() || (k
                < b@.len() && (a@[k] as int) < (b@[k] as int))),
{
    lemma_order(a@, b@);
}

/// A text that is put into a list in order stands in it afterwards, with all that
/// stood there before and nothing else, and the list is still in order.
pub proof fn law_inserted_text_stands_in_order(v: &mut Vec<String>, s: String, x: Seq<char>)
    requires
        call_ensures(insert_ascending, (v, s), ()),
    ensures
        (exists|i: int| 0 <= i < final(v)@.len() && (#[trigger] final(v)@[i])@ == x) <==> x == s@
            || exists|i: int| 0 <= i < old(v)@.len() && (#[trigger] old(v)@[i])@ == x,
        forall|i: int, j: int|
            0 <= i < j < final(v)@.len() ==> (#[trigger] final(v)@[i])@ != (
            #[trigger] final(v)@[j])@ && at_most(final(v)@[i]@, final(v)@[j]@),
{
    let a = texts(old(v)@);
    let b = texts(final(v)@);
    assert(b.to_set().contains(x) <==> a.to_set().insert(s@).contains(x));
    assert forall|i: int| 0 <= i < final(v)@.len() implies b[i] == (#[trigger] final(v)@[i])@ by {}
    assert forall|i: int| 0 <= i < old(v)@.len() implies a[i] == (#[trigger] old(v)@[i])@ by {}
    if b.contains(x) {
        let i = choose|i: int| 0 <= i < b.len() && b[i] == x;
        assert(final(v)@[i]@ == x);
    }
    if a.contains(x) {
        let i = choose|i: int| 0 <= i < a.len() && a[i] == x;
        assert(old(v)@[i]@ == x);
    }
    if exists|i: int| 0 <= i < final(v)@.len() && (#[trigger] final(v)@[i])@ == x {
        let i = choose|i: int| 0 <= i < final(v)@.len() && (#[trigger] final(v)@[i])@ == x;
        assert(b[i] == x);
    }
    if exists|i: int| 0 <= i < old(v)@.len() && (#[trigger] old(v)@[i])@ == x {
        let i = choose|i: int| 0 <= i < old(v)@.len() && (#[trigger] old(v)@[i])@ == x;
        assert(a[i] == x);
    }
    assert forall|i: int, j: int| 0 <= i < j < final(v)@.len() implies (#[trigger] final(v)@[i])@
        != (#[trigger] final(v)@[j])@ && at_most(final(v)@[i]@, final(v)@[j]@) by {
        assert(b[i] == final(v)@[i]@ && b[j] == final(v)@[j]@);
    }
}

spec fn smaller_at(a: Seq<char>, b: Seq<char>, k: int) -> bool {
    0 <= k <= a.len() && k <= b.len() && a.take(k) == b.take(k) && (k == a.len() || (k < b.len()
        && (a[k] as int) < (b[k] as int)))
}

proof fn lemma_order(a: Seq<char>, b: Seq<char>)
    ensures
        at_most(a, b) <==> exists|k: int| #[trigger] smaller_at(a, b, k),
        at_most(a, b) <==> exists|k: int|
            #![trigger a.take(k)]
            0 <= k <= a.len() && k <= b.len() && a.take(k) == b.take(k) && (k == a.len() || (k
                < b.len() && (a[k] as int) < (b[k] as int))),
    decreases a.len(),
{
    if a.len() == 0 {
        assert(a.take(0) == b.take(0));
        assert(smaller_at(a, b, 0));
    } else if b.len() == 0 {
        assert(!at_most(a, b));
    } else if a[0] == b[0] {
        let x = a.drop_first();
        let y = b.drop_first();
        lemma_order(x, y);
        if at_most(a, b) {
            let k = choose|k: int| #[trigger] smaller_at(x, y, k);
            assert(a.take(k + 1) == seq![a[0]] + x.take(k));
            assert(b.take(k + 1) == seq![b[0]] + y.take(k));
            assert(smaller_at(a, b, k + 1));
        }
        if exists|k: int| #[trigger] smaller_at(a, b, k) {
            let k = choose|k: int| #[trigger] smaller_at(a, b, k);
            if k > 0 {
                assert(x.take(k - 1) == a.take(k).drop_first());
                assert(y.take(k - 1) == b.take(k).drop_first());
                assert(smaller_at(x, y, k - 1));
            }
        }
    } else {
        if at_most(a, b) {
            assert(a.take(0) == b.take(0));
            assert(smaller_at(a, b, 0));
        }
        if exists|k: int| #[trigger] smaller_at(a, b, k) {
            let k = choose|k: int| #[trigger] smaller_at(a, b, k);
            if k > 0 {
                assert(a.take(k)[0] == b.take(k)[0]);
            }
        }
    }
    if exists|k: int| #[trigger] smaller_at(a, b, k) {
        let k = choose|k: int| #[trigger] smaller_at(a, b, k);
        assert(a.take(k) == b.take(k));
    }
    if exists|k: int|
        #![trigger a.take(k)]
        0 <= k <= a.len() && k <= b.len() && a.take(k) == b.take(k) && (k == a.len() || (k
            < b.len() && (a[k] as int) < (b[k] as int))) {
        let k = choose|k: int|
            #![trigger a.take(k)]
            0 <= k <= a.len() && k <= b.len() && a.take(k) == b.take(k) && (k == a.len() || (k
                < b.len() && (a[k] as int) < (b[k] as int)));
        assert(smaller_at(a, b, k));
    }
}

// ---------------------------------------------------------------------------
// Searching
// ---------------------------------------------------------------------------

/// A text holds another exactly if the other is a part of it.
pub proof fn law_held_text_is_a_part(s: &str, p: &str, r: bool)
    requires
        call_ensures(has_text, (s, p), r),
    ensures
        r <==> exists|i: int|
            0 <= i <= s@.len() - p@.len() && #[trigger] s@.subrange(i, i + p@.len()) == p@,
{
    if r {
        let i = choose|i: int| occurs_at(s@, p@, i);
        assert(s@.subrange(i, i + p@.len()) == p@);
    }
    if exists|i: int|
        0 <= i <= s@.len() - p@.len() && #[trigger] s@.subrange(i, i + p@.len()) == p@ {
        let i = choose|i: int|
            0 <= i <= s@.len() - p@.len() && #[trigger] s@.subrange(i, i + p@.len()) == p@;
        assert(occurs_at(s@, p@, i));
    }
}

/// Splitting takes a text apart at the first place where the other stands, and
/// fails exactly if there is none.
pub proof fn law_split_is_at_the_first(s: &str, p: &str, r: Option<(&str, &str)>)
    requires
        call_ensures(split_once, (s, p), r),
    ensures
        match r {
            Some((a, b)) => s@ == a@ + p@ + b@ && forall|i: int|
                0 <= i < a@.len() ==> #[trigger] s@.subrange(i, i + p@.len()) != p@,
            None => forall|i: int|
                0 <= i <= s@.len() - p@.len() ==> #[trigger] s@.subrange(i, i + p@.len()) != p@,
        },
{
    lemma_find(s@, p@, 0);
    match find_from(s@, p@, 0) {
        Some(k) => {
            let (a, b) = r->0;
            assert(s@ =~= s@.take(k) + s@.subrange(k, k + p@.len()) + s@.skip(k + p@.len()));
            assert forall|i: int| 0 <= i < a@.len() implies #[trigger] s@.subrange(
                i,
                i + p@.len(),
            ) != p@ by {
                assert(!occurs_at(s@, p@, i));
            }
        },
        None => {
            assert forall|i: int| 0 <= i <= s@.len() - p@.len() implies #[trigger] s@.subrange(
                i,
                i + p@.len(),
            ) != p@ by {
                assert(!occurs_at(s@, p@, i));
            }
        },
    }
}

/// What `strip_prefix` leaves is what follows the prefix, and it leaves something
/// whenever the text begins with it; so with `strip_suffix` at the other end.
pub proof fn law_strip_leaves_the_rest(s: &str, p: &str, r: Option<&str>, t: Seq<char>)
    ensures
        call_ensures(strip_prefix, (s, p), r) ==> {
            &&& s@ == p@ + t ==> r is Some && r->0@ == t
            &&& r is Some ==> s@ == p@ + r->0@
        },
        call_ensures(strip_suffix, (s, p), r) ==> {
            &&& s@ == t + p@ ==> r is Some && r->0@ == t
            &&& r is Some ==> s@ == r->0@ + p@
        },
{
    let n = p@.len() as int;
    if s@ == p@ + t {
        assert(s@.take(n) == p@);
        assert(s@.skip(n) == t);
    }
    if s@ == t + p@ {
        assert(s@.skip(s@.len() - n) == p@);
        assert(s@.take(s@.len() - n) == t);
    }
    if n <= s@.len() {
        assert(s@ =~= s@.take(n) + s@.skip(n));
        assert(s@ =~= s@.take(s@.len() - n) + s@.skip(s@.len() - n));
    }
}

/// The found position is the first one at which the bytes stand.
pub proof fn law_found_position_is_the_first(v: &[u8], p: &[u8], from: usize, r: Option<usize>)
    requires
        call_ensures(find_bytes, (v, p, from), r),
    ensures
        match r {
            Some(k) => from <= k && k + p@.len() <= v@.len() && v@.subrange(
                k as int,
                k + p@.len(),
            ) == p@ && forall|i: int|
                from <= i < k ==> #[trigger] v@.subrange(i, i + p@.len()) != p@,
            None => forall|i: int|
                from <= i <= v@.len() - p@.len() ==> #[trigger] v@.subrange(i, i + p@.len()) != p@,
        },
{
    lemma_find(v@, p@, from as int);
    assert forall|i: int|
        from <= i <= v@.len() - p@.len() && (r is None || i < r->0) implies #[trigger] v@.subrange(
        i,
        i + p@.len(),
    ) != p@ by {
        assert(!occurs_at(v@, p@, i));
    }
}

/// The found position of characters is the first one at which they stand.
pub proof fn law_found_character_is_the_first(
    v: &Vec<char>,
    p: &Vec<char>,
    from: usize,
    r: Option<usize>,
)
    requires
        call_ensures(find_chars, (v, p, from), r),
    ensures
        match r {
            Some(k) => from <= k && k + p@.len() <= v@.len() && v@.subrange(
                k as int,
                k + p@.len(),
            ) == p@ && forall|i: int|
                from <= i < k ==> #[trigger] v@.subrange(i, i + p@.len()) != p@,
            None => forall|i: int|
                from <= i <= v@.len() - p@.len() ==> #[trigger] v@.subrange(i, i + p@.len()) != p@,
        },
{
    lemma_find(v@, p@, from as int);
    assert forall|i: int|
        from <= i <= v@.len() - p@.len() && (r is None || i < r->0) implies #[trigger] v@.subrange(
        i,
        i + p@.len(),
    ) != p@ by {
        assert(!occurs_at(v@, p@, i));
    }
}

/// Nothing stands before each character of a text and at its end: replacing it
/// puts the new text there.
pub proof fn law_replacing_nothing_interleaves(
    s: &str,
    p: &str,
    to: &str,
    r: String,
    c: char,
    rest: &str,
    rest_r: String,
)
    requires
        p@.len() == 0,
        call_ensures(replace, (s, p, to), r),
        call_ensures(replace, (rest, p, to), rest_r),
    ensures
        s@.len() == 0 ==> r@ == to@,
        s@ == seq![c] + rest@ ==> r@ == to@ + seq![c] + rest_r@,
{
    if s@ == seq![c] + rest@ {
        assert(s@.drop_first() == rest@);
    }
}

/// Replacing leaves what stands before the first occurrence, puts the new text in
/// its place, and goes on behind it; a text without an occurrence is kept.
pub proof fn law_replace_goes_from_one_to_the_next(
    s: &str,
    p: &str,
    to: &str,
    r: String,
    a: Seq<char>,
    rest: &str,
    rest_r: String,
)
    requires
        p@.len() > 0,
        call_ensures(replace, (s, p, to), r),
        call_ensures(replace, (rest, p, to), rest_r),
    ensures
        (forall|i: int|
            0 <= i <= s@.len() - p@.len() ==> #[trigger] s@.subrange(i, i + p@.len()) != p@) ==> r@
            == s@,
        s@ == a + p@ + rest@ && (forall|i: int|
            0 <= i < a.len() ==> #[trigger] s@.subrange(i, i + p@.len()) != p@) ==> r@ == a + to@
            + rest_r@,
{
    if forall|i: int|
        0 <= i <= s@.len() - p@.len() ==> #[trigger] s@.subrange(i, i + p@.len()) != p@ {
        assert(!contains(s@, p@)) by {
            if contains(s@, p@) {
                let i = choose|i: int| occurs_at(s@, p@, i);
                assert(s@.subrange(i, i + p@.len()) == p@);
            }
        }
        lemma_replaced_absent(s@, p@, to@);
    }
    if s@ == a + p@ + rest@ && (forall|i: int|
        0 <= i < a.len() ==> #[trigger] s@.subrange(i, i + p@.len()) != p@) {
        lemma_replaced_step(s@, p@, to@, a, rest@);
    }
}

pub(crate) proof fn lemma_replaced_step(
    s: Seq<char>,
    p: Seq<char>,
    to: Seq<char>,
    a: Seq<char>,
    rest: Seq<char>,
)
    requires
        p.len() > 0,
        s == a + p + rest,
        forall|i: int| 0 <= i < a.len() ==> #[trigger] s.subrange(i, i + p.len()) != p,
    ensures
        replaced(s, p, to) == a + to + replaced(rest, p, to),
{
    let n = a.len() as int;
    assert(s.subrange(n, n + p.len()) == p);
    assert forall|j: int| 0 <= j < n implies !#[trigger] occurs_at(s, p, j) by {
        if occurs_at(s, p, j) {
            assert(s.subrange(j, j + p.len()) == p);
        }
    }
    lemma_find_is(s, p, 0, n);
    assert(s.take(n) == a);
    assert(s.skip(n + p.len()) == rest);
}

// ---------------------------------------------------------------------------
// Lines and words
// ---------------------------------------------------------------------------

/// The lines of a text are its first line, without the carriage return before
/// its line feed, and the lines of what follows; a text without a line feed is
/// one line, and an empty one none.
pub proof fn law_lines_go_from_one_to_the_next(
    s: &str,
    r: Vec<&str>,
    x: Seq<char>,
    rest: &str,
    rest_r: Vec<&str>,
)
    requires
        call_ensures(lines_of, (s,), r),
        call_ensures(lines_of, (rest,), rest_r),
        !x.contains('\n'),
    ensures
        s@.len() == 0 ==> r@.len() == 0,
        s@ == x && x.len() > 0 ==> r@.len() == 1 && r@[0]@ == x,
        s@ == x.push('\n') + rest@ ==> {
            &&& r@.len() == rest_r@.len() + 1
            &&& r@[0]@ == if x.len() > 0 && x.last() == '\r' {
                x.drop_last()
            } else {
                x
            }
            &&& forall|i: int| 0 <= i < rest_r@.len() ==> (#[trigger] rest_r@[i])@ == r@[i + 1]@
        },
{
    lemma_one_line(x);
    assert(slices(r@).len() == r@.len());
    assert(slices(rest_r@).len() == rest_r@.len());
    if s@ == x && x.len() > 0 {
        assert(slices(r@)[0] == r@[0]@);
    }
    if s@ == x.push('\n') + rest@ {
        lemma_lines_concat(x.push('\n'), rest@);
        assert(slices(r@)[0] == r@[0]@);
        assert forall|i: int| 0 <= i < rest_r@.len() implies (#[trigger] rest_r@[i])@ == r@[i
            + 1]@ by {
            assert(slices(rest_r@)[i] == rest_r@[i]@);
            assert(slices(r@)[i + 1] == r@[i + 1]@);
        }
    }
}

proof fn lemma_words_skip(a: Seq<char>, s: Seq<char>)
    requires
        blank(a),
    ensures
        words(a + s) == words(s),
{
    lemma_trim_start_skips(a, s);
}

proof fn lemma_words_step(w: Seq<char>, sep: Seq<char>, s: Seq<char>)
    requires
        w.len() > 0,
        forall|i: int| 0 <= i < w.len() ==> !is_space(#[trigger] w[i]),
        sep.len() > 0 || s.len() == 0,
        blank(sep),
    ensures
        words(w + sep + s) == seq![w] + words(s),
{
    let t = w + sep + s;
    let n = w.len() as int;
    assert(t[0] == w[0]);
    assert(trim_start(t) == t);
    assert forall|i: int| 0 <= i < n implies !is_space(#[trigger] t[i]) by {
        assert(t[i] == w[i]);
    }
    if n < t.len() {
        assert(t[n] == sep[0]);
    }
    lemma_word_len_is(t, n);
    assert(t.take(n) == w);
    assert(t.skip(n) == sep + s);
    lemma_words_skip(sep, s);
}

/// The words of a text are its first word and the words of what follows the
/// white space behind it.
pub proof fn law_words_go_from_one_to_the_next(
    s: &str,
    r: Vec<&str>,
    lead: Seq<char>,
    w: Seq<char>,
    sep: Seq<char>,
    rest: &str,
    rest_r: Vec<&str>,
)
    requires
        call_ensures(words_of, (s,), r),
        call_ensures(words_of, (rest,), rest_r),
        blank(lead),
        blank(sep),
        w.len() > 0 && forall|i: int| 0 <= i < w.len() ==> !is_space(#[trigger] w[i]),
        sep.len() > 0 || rest@.len() == 0,
    ensures
        s@ == lead ==> r@.len() == 0,
        s@ == lead + (w + sep + rest@) ==> {
            &&& r@.len() == rest_r@.len() + 1
            &&& r@[0]@ == w
            &&& forall|i: int| 0 <= i < rest_r@.len() ==> (#[trigger] rest_r@[i])@ == r@[i + 1]@
        },
{
    assert(slices(r@).len() == r@.len());
    assert(slices(rest_r@).len() == rest_r@.len());
    if s@ == lead {
        lemma_trim_start(lead);
    }
    if s@ == lead + (w + sep + rest@) {
        lemma_words_skip(lead, w + sep + rest@);
        lemma_words_step(w, sep, rest@);
        assert(slices(r@)[0] == r@[0]@);
        assert forall|i: int| 0 <= i < rest_r@.len() implies (#[trigger] rest_r@[i])@ == r@[i
            + 1]@ by {
            assert(slices(rest_r@)[i] == rest_r@[i]@);
            assert(slices(r@)[i + 1] == r@[i + 1]@);
        }
    }
}

} // verus!
