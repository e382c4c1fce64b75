//! The frame of an HTTP message: head lines joined by carriage return and line
//! feed, an empty line, and a body.

use vstd::prelude::*;
use vstd::string::*;

use crate::lines::{lemma_lines_concat, lemma_one_line, lemma_word_len_is, lines, words};
use crate::search::{lemma_find_is, occurs_at, split_at_first, split_once};
use crate::text::{is_space, trim_start};

verus! {

/// What stands before and after the empty line that ends the head. It ends with
/// two CRLF or, if there are none, with two line feeds; a text without either is
/// all head.
pub open spec fn head_and_body(raw: Seq<char>) -> (Seq<char>, Seq<char>) {
    match split_at_first(raw, "\r\n\r\n"@) {
        Some(parts) => parts,
        None => match split_at_first(raw, "\n\n"@) {
            Some(parts) => parts,
            None => (raw, seq![]),
        },
    }
}

/// The head and the body of a message.
pub fn split_head(raw: &str) -> (r: (&str, &str))
    ensures
        (r.0@, r.1@) == head_and_body(raw@),
{
    match split_once(raw, "\r\n\r\n") {
        Some(parts) => parts,
        None => match split_once(raw, "\n\n") {
            Some(parts) => parts,
            None => {
                proof {
                    reveal_strlit("");
                    assert(""@ == Seq::<char>::empty());
                }
                (raw, "")
            },
        },
    }
}

/// `l` can stand as a line of a head: it is not empty and holds neither a
/// carriage return nor a line feed.
pub open spec fn head_line(l: Seq<char>) -> bool {
    l.len() > 0 && !l.contains('\r') && !l.contains('\n')
}

/// The lines, each but the last followed by CRLF.
pub open spec fn joined(ls: Seq<Seq<char>>) -> Seq<char>
    decreases ls.len(),
{
    if ls.len() == 0 {
        seq![]
    } else if ls.len() == 1 {
        ls[0]
    } else {
        ls[0] + "\r\n"@ + joined(ls.drop_first())
    }
}

/// The message with the head lines `ls` and the body `body`.
pub open spec fn message(ls: Seq<Seq<char>>, body: Seq<char>) -> Seq<char> {
    joined(ls) + "\r\n\r\n"@ + body
}

/// In a joined head something other than a carriage return follows each line
/// feed.
proof fn lemma_joined(ls: Seq<Seq<char>>)
    requires
        ls.len() > 0,
        forall|i: int| 0 <= i < ls.len() ==> head_line(#[trigger] ls[i]),
    ensures
        joined(ls).len() > 0,
        joined(ls)[0] != '\r',
        forall|j: int|
            0 <= j < joined(ls).len() && (#[trigger] joined(ls)[j]) == '\n' ==> {
                &&& j + 1 < joined(ls).len()
                &&& joined(ls)[j + 1] != '\r'
            },
        lines(joined(ls)) == ls,
    decreases ls.len(),
{
    reveal_strlit("\r\n");
    let h = joined(ls);
    let l = ls[0];
    assert(head_line(l));
    assert(l.contains(l[0]));
    if ls.len() == 1 {
        assert forall|j: int| 0 <= j < h.len() implies h[j] != '\n' by {
            assert(l.contains(l[j]));
        }
        lemma_one_line(l);
        assert(ls == seq![l]);
    } else {
        let rest = ls.drop_first();
        assert forall|i: int| 0 <= i < rest.len() implies head_line(#[trigger] rest[i]) by {
            assert(rest[i] == ls[i + 1]);
        }
        lemma_joined(rest);
        let t = joined(rest);
        let n = l.len() as int;
        assert forall|j: int| 0 <= j < h.len() && (#[trigger] h[j]) == '\n' implies j + 1
            < h.len() && h[j + 1] != '\r' by {
            if j < n {
                assert(l.contains(l[j]));
            } else if j >= n + 2 {
                assert(h[j] == t[j - n - 2]);
                assert(h[j + 1] == t[j + 1 - n - 2]);
            }
        }
        let first = l + "\r\n"@;
        assert(first == l.push('\r').push('\n'));
        assert(!l.push('\r').contains('\n')) by {
            assert forall|j: int| 0 <= j < n + 1 implies l.push('\r')[j] != '\n' by {
                if j < n {
                    assert(l.contains(l[j]));
                }
            }
        }
        lemma_one_line(l.push('\r'));
        assert(l.push('\r').drop_last() == l);
        lemma_lines_concat(first, t);
        assert(h == first + t);
        assert(seq![l] + rest == ls);
    }
}

/// A message splits into the head and the body that it was made of, and its
/// head into the lines.
pub proof fn law_message_splits(ls: Seq<Seq<char>>, body: Seq<char>)
    requires
        ls.len() > 0,
        forall|i: int| 0 <= i < ls.len() ==> head_line(#[trigger] ls[i]),
    ensures
        head_and_body(message(ls, body)) == (joined(ls), body),
        lines(joined(ls)) == ls,
{
    reveal_strlit("\r\n\r\n");
    lemma_joined(ls);
    let h = joined(ls);
    let n = h.len() as int;
    let p = "\r\n\r\n"@;
    let s = message(ls, body);
    assert(s.subrange(n, n + 4) == p);
    assert forall|j: int| 0 <= j < n implies !#[trigger] occurs_at(s, p, j) by {
        if occurs_at(s, p, j) {
            let w = s.subrange(j, j + 4);
            assert(w[1] == s[j + 1] && w[2] == s[j + 2]);
            assert(p[1] == '\n' && p[2] == '\r');
            if j + 1 < n {
                assert(h[j + 1] == '\n');
                assert(h[j + 2] == s[j + 2]);
            } else {
                assert(s[n] == p[0]);
            }
        }
    }
    lemma_find_is(s, p, 0, n);
    assert(s.take(n) == h);
    assert(s.skip(n + 4) == body);
}

/// Words that are set apart by single spaces are the words of the text.
pub proof fn lemma_three_words(a: Seq<char>, b: Seq<char>, c: Seq<char>)
    requires
        a.len() > 0 && b.len() > 0 && c.len() > 0,
        forall|i: int| 0 <= i < a.len() ==> !is_space(#[trigger] a[i]),
        forall|i: int| 0 <= i < b.len() ==> !is_space(#[trigger] b[i]),
        forall|i: int| 0 <= i < c.len() ==> !is_space(#[trigger] c[i]),
    ensures
        words(a + " "@ + b + " "@ + c) == seq![a, b, c],
{
    reveal_strlit(" ");
    let s = a + " "@ + b + " "@ + c;
    let bc = b + " "@ + c;
    lemma_first_word(a, bc);
    lemma_first_word(b, c);
    assert(s == a + " "@ + bc);
    lemma_word_len_is(c, c.len() as int);
    assert(trim_start(c) == c);
    assert(c.take(c.len() as int) == c);
    assert(words(c) == seq![c]) by {
        assert(c.skip(c.len() as int) == Seq::<char>::empty());
        assert(words(Seq::<char>::empty()) == Seq::<Seq<char>>::empty());
    }
    assert(seq![b] + seq![c] == seq![b, c]);
    assert(seq![a] + seq![b, c] == seq![a, b, c]);
}

/// The first word of a text is what stands before its first space.
proof fn lemma_first_word(a: Seq<char>, rest: Seq<char>)
    requires
        a.len() > 0,
        forall|i: int| 0 <= i < a.len() ==> !is_space(#[trigger] a[i]),
    ensures
        words(a + " "@ + rest) == seq![a] + words(rest),
{
    reveal_strlit(" ");
    let s = a + " "@ + rest;
    let n = a.len() as int;
    assert(s[0] == a[0]);
    assert(trim_start(s) == s);
    assert forall|i: int| 0 <= i < n implies !is_space(#[trigger] s[i]) by {
        assert(s[i] == a[i]);
    }
    assert(is_space(s[n]));
    lemma_word_len_is(s, n);
    assert(s.take(n) == a);
    let t = s.skip(n);
    assert(t.drop_first() == rest);
    assert(trim_start(t) == trim_start(rest));
    assert(words(t) == words(rest));
}

} // verus!
