//! Which keys are taken, and what taking one does to the file.

use vstd::prelude::*;
use vstd::string::*;

use crate::authorized_keys::{
    add_ssh_key, add_ssh_key_to, law_append_lists_the_key, listed, validated_key, KeyAppend,
};
use crate::contract::{CodeError, CodeErrorCode};
use crate::laws::text::{lemma_trim_decomposes, lemma_trimmed_middle, tight};
use crate::lines::{lemma_unfinished, lines, lines_of, slices, unfinished};
use crate::search::{contains, find_from, lemma_find, occurs_at, starts_with};
use crate::text::{blank, lemma_trim_end, lemma_trim_start, trim_start, trimmed};

verus! {

/// `p` is what keys of a known type begin with.
pub open spec fn key_type(p: Seq<char>) -> bool {
    ||| p == "ssh-ed25519 "@
    ||| p == "ssh-rsa "@
    ||| p == "ecdsa-sha2-"@
    ||| p == "sk-ssh-"@
    ||| p == "sk-ecdsa-"@
}

/// Every line that begins with the name of a known key type is accepted, whatever
/// follows the name and whatever white space stands around the line.
pub proof fn law_every_known_key_is_accepted(
    a: Seq<char>,
    p: Seq<char>,
    t: Seq<char>,
    b: Seq<char>,
    pubkey: &str,
    r: Result<&str, CodeError>,
)
    requires
        call_ensures(validated_key, (pubkey,), r),
        key_type(p),
        pubkey@ == a + (p + t) + b,
        blank(a),
        blank(b),
        tight(p + t),
        forall|i: int| 0 <= i < t.len() ==> #[trigger] t[i] != '\n' && t[i] != '\r',
    ensures
        r is Ok,
        r->Ok_0@ == p + t,
{
    reveal_strlit("ssh-ed25519 ");
    reveal_strlit("ssh-rsa ");
    reveal_strlit("ecdsa-sha2-");
    reveal_strlit("sk-ssh-");
    reveal_strlit("sk-ecdsa-");
    let key = p + t;
    lemma_trimmed_middle(a, key, b);
    assert(key.take(p.len() as int) == p);
    assert forall|i: int| 0 <= i < key.len() implies key[i] != '\n' && key[i] != '\r' by {
        if i >= p.len() {
            assert(key[i] == t[i - p.len()]);
        }
    }
}

/// A key that is not one line is refused as such, and one line that begins with
/// the name of no known key type is refused for its type.
pub proof fn law_other_keys_are_refused(
    a: Seq<char>,
    m: Seq<char>,
    b: Seq<char>,
    pubkey: &str,
    r: Result<&str, CodeError>,
)
    requires
        call_ensures(validated_key, (pubkey,), r),
        pubkey@ == a + m + b,
        blank(a),
        blank(b),
        tight(m),
    ensures
        m.len() == 0 || m.contains('\n') || m.contains('\r') ==> r is Err && r->Err_0.code
            == CodeErrorCode::Invalid && r->Err_0.message@ == "key must be one line"@,
        m.len() > 0 && !m.contains('\n') && !m.contains('\r') && (forall|p: Seq<char>, t: Seq<char>|
            #![trigger p + t]
            key_type(p) ==> m != p + t) ==> r is Err && r->Err_0.code == CodeErrorCode::Invalid
            && r->Err_0.message@ == "unrecognised key type"@,
        r matches Ok(key) ==> key@ == m && exists|p: Seq<char>, t: Seq<char>|
            #![trigger p + t]
            key_type(p) && m == p + t,
{
    lemma_trimmed_middle(a, m, b);
    if let Ok(key) = r {
        let p = if starts_with(m, "ssh-ed25519 "@) {
            "ssh-ed25519 "@
        } else if starts_with(m, "ssh-rsa "@) {
            "ssh-rsa "@
        } else if starts_with(m, "ecdsa-sha2-"@) {
            "ecdsa-sha2-"@
        } else if starts_with(m, "sk-ssh-"@) {
            "sk-ssh-"@
        } else {
            "sk-ecdsa-"@
        };
        assert(m == p + m.skip(p.len() as int));
    }
}

// ---------------------------------------------------------------------------
// Appending
// ---------------------------------------------------------------------------

/// What is appended is the accepted key on a line of its own: a line feed first
/// if the last line of the file is unfinished, then the key and a line feed. A
/// key that is refused is refused with the same error, whatever the file holds.
pub proof fn law_append_is_the_key_on_its_line(
    pubkey: &str,
    path: &str,
    existing: &str,
    r: Result<Option<KeyAppend>, CodeError>,
    v: Result<&str, CodeError>,
)
    requires
        call_ensures(add_ssh_key_to, (pubkey, path, existing), r),
        call_ensures(validated_key, (pubkey,), v),
    ensures
        match (v, r) {
            (Ok(key), Ok(Some(app))) => {
                &&& app.path@ == path@
                &&& app.line@ == (if existing@.len() == 0 || existing@.last() == '\n' {
                    key@ + seq!['\n']
                } else {
                    seq!['\n'] + key@ + seq!['\n']
                })
            },
            (Ok(_), Ok(None)) => true,
            (Err(e), Err(f)) => e.code == f.code && e.message@ == f.message@,
            _ => false,
        },
{
    lemma_unfinished(existing@);
    if let (Ok(key), Ok(Some(app))) = (v, r) {
        if existing@.len() == 0 || existing@.last() == '\n' {
            assert(app.line@ == key@ + seq!['\n']);
        } else {
            assert(unfinished(existing@).len() > 0);
            assert(app.line@ == seq!['\n'] + key@ + seq!['\n']);
        }
    }
}

/// A part of a text is one of its parts.
proof fn lemma_part(s: Seq<char>, i: int, j: int)
    requires
        0 <= i <= j <= s.len(),
    ensures
        contains(s, s.subrange(i, j)),
{
    assert(occurs_at(s, s.subrange(i, j), i));
}

proof fn lemma_trimmed_is_a_part(s: Seq<char>)
    ensures
        contains(s, trimmed(s)),
{
    lemma_trim_start(s);
    let t = trim_start(s);
    lemma_trim_end(t);
    let n = s.len() - t.len();
    let m = trimmed(s).len() as int;
    assert(trimmed(s) == s.subrange(n, n + m));
    lemma_part(s, n, n + m);
}

proof fn lemma_line_is_a_part(s: Seq<char>, k: int)
    requires
        0 <= k < lines(s).len(),
    ensures
        contains(s, lines(s)[k]),
    decreases s.len(),
{
    lemma_find(s, seq!['\n'], 0);
    match find_from(s, seq!['\n'], 0) {
        Some(i) => {
            let rest = s.skip(i + 1);
            if k == 0 {
                let l = lines(s)[0];
                assert(l == s.subrange(0, l.len() as int));
                lemma_part(s, 0, l.len() as int);
            } else {
                assert(lines(s)[k] == lines(rest)[k - 1]);
                lemma_line_is_a_part(rest, k - 1);
                let l = lines(rest)[k - 1];
                let j = choose|j: int| occurs_at(rest, l, j);
                assert(rest.subrange(j, j + l.len()) == s.subrange(
                    i + 1 + j,
                    i + 1 + j + l.len(),
                ));
                assert(occurs_at(s, l, i + 1 + j));
            }
        },
        None => {
            assert(lines(s)[k] == s);
            assert(s.subrange(0, s.len() as int) == s);
            lemma_part(s, 0, s.len() as int);
        },
    }
}

/// A key that stands nowhere in the file is appended.
pub proof fn law_absent_key_is_appended(
    pubkey: &str,
    path: &str,
    existing: &str,
    r: Result<Option<KeyAppend>, CodeError>,
    v: Result<&str, CodeError>,
)
    requires
        call_ensures(add_ssh_key_to, (pubkey, path, existing), r),
        call_ensures(validated_key, (pubkey,), v),
        v is Ok,
        forall|i: int|
            0 <= i <= existing@.len() - v->Ok_0@.len() ==> #[trigger] existing@.subrange(
                i,
                i + v->Ok_0@.len(),
            ) != v->Ok_0@,
    ensures
        r is Ok,
        r->Ok_0 is Some,
{
    let s = existing@;
    let key = v->Ok_0@;
    if r->Ok_0 is None {
        let k = choose|k: int| 0 <= k < lines(s).len() && trimmed(#[trigger] lines(s)[k]) == key;
        let l = lines(s)[k];
        lemma_line_is_a_part(s, k);
        lemma_trimmed_is_a_part(l);
        let i = choose|i: int| occurs_at(s, l, i);
        let j = choose|j: int| occurs_at(l, key, j);
        assert(s.subrange(i, i + l.len()).subrange(j, j + key.len()) == s.subrange(
            i + j,
            i + j + key.len(),
        ));
    }
}

/// There is nothing to append exactly if some line of the file is the key, white
/// space around it aside; a line that merely holds the key is not.
pub proof fn law_only_a_whole_line_lists_the_key(
    pubkey: &str,
    path: &str,
    existing: &str,
    r: Option<KeyAppend>,
    v: &str,
    ls: Vec<&str>,
)
    requires
        call_ensures(
            add_ssh_key_to,
            (pubkey, path, existing),
            Ok::<Option<KeyAppend>, CodeError>(r),
        ),
        call_ensures(validated_key, (pubkey,), Ok::<&str, CodeError>(v)),
        call_ensures(lines_of, (existing,), ls),
    ensures
        r is None <==> exists|i: int, a: Seq<char>, b: Seq<char>|
            0 <= i < ls@.len() && blank(a) && blank(b) && #[trigger] ls@[i]@ == #[trigger] (a + v@
                + b),
{
    let all = slices(ls@);
    assert(all.len() == ls@.len());
    crate::text::lemma_trimmed(pubkey@);
    if r is None {
        let i = choose|i: int|
            0 <= i < lines(existing@).len() && trimmed(#[trigger] lines(existing@)[i]) == v@;
        assert(all[i] == ls@[i]@);
        let (a, b) = lemma_trim_decomposes(ls@[i]@);
        assert(ls@[i]@ == a + v@ + b);
    }
    if exists|i: int, a: Seq<char>, b: Seq<char>|
        0 <= i < ls@.len() && blank(a) && blank(b) && #[trigger] ls@[i]@ == #[trigger] (a + v@
            + b) {
        let (i, a, b) = choose|i: int, a: Seq<char>, b: Seq<char>|
            0 <= i < ls@.len() && blank(a) && blank(b) && #[trigger] ls@[i]@ == #[trigger] (a + v@
                + b);
        lemma_trimmed_middle(a, v@, b);
        assert(all[i] == ls@[i]@);
        assert(trimmed(lines(existing@)[i]) == v@);
    }
}

/// Adding a key twice appends it once: after it was appended, or was there, there
/// is nothing to append, also when other keys were appended in between.
pub proof fn law_key_is_appended_once(
    pubkey: &str,
    path: &str,
    existing: &str,
    first: Option<KeyAppend>,
    other: &str,
    between: &str,
    second: Option<KeyAppend>,
    later: &str,
    again: Result<Option<KeyAppend>, CodeError>,
)
    requires
        call_ensures(
            add_ssh_key_to,
            (pubkey, path, existing),
            Ok::<Option<KeyAppend>, CodeError>(first),
        ),
        between@ == (match first {
            Some(app) => existing@ + app.line@,
            None => existing@,
        }),
        call_ensures(
            add_ssh_key_to,
            (other, path, between),
            Ok::<Option<KeyAppend>, CodeError>(second),
        ),
        later@ == (match second {
            Some(app) => between@ + app.line@,
            None => between@,
        }),
        call_ensures(add_ssh_key_to, (pubkey, path, later), again),
    ensures
        again is Ok,
        again->Ok_0 is None,
{
    law_append_lists_the_key(existing@, pubkey@);
    law_append_lists_the_key(between@, other@);
    assert(listed(between@, trimmed(pubkey@)));
    assert(listed(later@, trimmed(pubkey@)));
}

/// The file of the workspace login user is treated as any other.
pub proof fn law_login_user_has_one_file(
    pubkey: &str,
    existing: &str,
    path: &str,
    r: Result<Option<KeyAppend>, CodeError>,
    to: Result<Option<KeyAppend>, CodeError>,
)
    requires
        call_ensures(add_ssh_key, (pubkey, existing), r),
        call_ensures(add_ssh_key_to, (pubkey, path, existing), to),
        path@ == "/home/agent/.ssh/authorized_keys"@,
    ensures
        match (r, to) {
            (Ok(Some(a)), Ok(Some(b))) => a.path@ == b.path@ && a.line@ == b.line@,
            (Ok(None), Ok(None)) => true,
            (Err(e), Err(f)) => e.code == f.code && e.message@ == f.message@,
            _ => false,
        },
{
}

} // verus!
