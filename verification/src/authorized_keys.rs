//! Appending an SSH public key to the `authorized_keys` file of the workspace
//! login user. A key is checked before it is appended, and a key that the file
//! already lists is not appended again.

use vstd::prelude::*;
use vstd::string::*;

use crate::contract::{CodeError, CodeErrorCode};
use crate::lines::{
    lemma_lines_concat, lemma_one_line, lemma_unfinished, lines, lines_of, slices, unfinished,
};
use crate::search::{starts_with, strip_prefix};
use crate::text::{
    chars_of, has_char, is_space, lemma_trimmed, lemma_trimmed_before_space, lemma_trimmed_is,
    same_text, trim, trimmed,
};

verus! {

/// The `authorized_keys` file of the workspace login user.
pub const AGENT_AUTH_KEYS: &'static str = "/home/agent/.ssh/authorized_keys";

/// `key` is a single line.
pub open spec fn one_line(key: Seq<char>) -> bool {
    key.len() > 0 && !key.contains('\n') && !key.contains('\r')
}

/// `key` begins with the name of a key type.
pub open spec fn recognised(key: Seq<char>) -> bool {
    ||| starts_with(key, "ssh-ed25519 "@)
    ||| starts_with(key, "ssh-rsa "@)
    ||| starts_with(key, "ecdsa-sha2-"@)
    ||| starts_with(key, "sk-ssh-"@)
    ||| starts_with(key, "sk-ecdsa-"@)
}

/// `key` may be appended.
pub open spec fn acceptable(key: Seq<char>) -> bool {
    one_line(key) && recognised(key)
}

/// `key` may not be appended, and `e` says why.
pub open spec fn refused(key: Seq<char>, e: CodeError) -> bool {
    if !one_line(key) {
        e.says(CodeErrorCode::Invalid, "key must be one line"@)
    } else {
        !recognised(key) && e.says(CodeErrorCode::Invalid, "unrecognised key type"@)
    }
}

/// A line of `existing` is `key`, white space around it aside.
pub open spec fn listed(existing: Seq<char>, key: Seq<char>) -> bool {
    exists|i: int| 0 <= i < lines(existing).len() && trimmed(#[trigger] lines(existing)[i]) == key
}

/// What to append to a file that holds `existing`, so that `key` stands on a
/// line of its own: the key and a line feed, after the line feed that an
/// unfinished last line lacks.
pub open spec fn key_line(existing: Seq<char>, key: Seq<char>) -> Seq<char> {
    (if unfinished(existing).len() == 0 {
        seq![]
    } else {
        seq!['\n']
    }) + key.push('\n')
}

/// A text to append to a file.
#[derive(Debug, Clone)]
pub struct KeyAppend {
    pub path: String,
    /// The line, with the line feeds that it needs.
    pub line: String,
}

/// The key that `pubkey` submits, if it may be appended.
pub fn validated_key(pubkey: &str) -> (r: Result<&str, CodeError>)
    ensures
        match r {
            Ok(key) => key@ == trimmed(pubkey@) && acceptable(key@),
            Err(e) => refused(trimmed(pubkey@), e),
        },
{
    let key = trim(pubkey);
    if key.is_empty() || has_char(key, '\n') || has_char(key, '\r') {
        return Err(CodeError::new(CodeErrorCode::Invalid, "key must be one line"));
    }
    let known = strip_prefix(key, "ssh-ed25519 ").is_some() || strip_prefix(
        key,
        "ssh-rsa ",
    ).is_some() || strip_prefix(key, "ecdsa-sha2-").is_some() || strip_prefix(
        key,
        "sk-ssh-",
    ).is_some() || strip_prefix(key, "sk-ecdsa-").is_some();
    if !known {
        return Err(CodeError::new(CodeErrorCode::Invalid, "unrecognised key type"));
    }
    Ok(key)
}

/// Whether a line of `existing` is `key`, white space around it aside.
fn is_listed(existing: &str, key: &str) -> (r: bool)
    ensures
        r == listed(existing@, key@),
{
    let all = lines_of(existing);
    let mut i: usize = 0;
    while i < all.len()
        invariant
            i <= all.len(),
            slices(all@) == lines(existing@),
            forall|j: int| 0 <= j < i ==> trimmed(#[trigger] lines(existing@)[j]) != key@,
        decreases all.len() - i,
    {
        assert(slices(all@)[i as int] == all@[i as int]@);
        if same_text(trim(all[i]), key) {
            return true;
        }
        i += 1;
    }
    false
}

/// What to append to the file at `path`, which holds `existing`, so that it
/// lists the key that `pubkey` submits: nothing if it lists it already.
pub fn add_ssh_key_to(pubkey: &str, path: &str, existing: &str) -> (r: Result<
    Option<KeyAppend>,
    CodeError,
>)
    ensures
        match r {
            Ok(None) => acceptable(trimmed(pubkey@)) && listed(existing@, trimmed(pubkey@)),
            Ok(Some(a)) => {
                &&& acceptable(trimmed(pubkey@))
                &&& !listed(existing@, trimmed(pubkey@))
                &&& a.path@ == path@
                &&& a.line@ == key_line(existing@, trimmed(pubkey@))
            },
            Err(e) => refused(trimmed(pubkey@), e),
        },
{
    let key = match validated_key(pubkey) {
        Ok(k) => k,
        Err(e) => {
            return Err(e);
        },
    };
    if is_listed(existing, key) {
        return Ok(None);
    }
    let mut line = String::new();
    let all = chars_of(existing);
    if all.len() > 0 && all[all.len() - 1] != '\n' {
        line.push('\n');
    }
    line.append(key);
    line.push('\n');
    assert(line@ == key_line(existing@, key@));
    Ok(Some(KeyAppend { path: path.to_owned(), line }))
}

/// [`add_ssh_key_to`] for the file of the workspace login user.
pub fn add_ssh_key(pubkey: &str, existing: &str) -> (r: Result<Option<KeyAppend>, CodeError>)
    ensures
        match r {
            Ok(None) => acceptable(trimmed(pubkey@)) && listed(existing@, trimmed(pubkey@)),
            Ok(Some(a)) => {
                &&& acceptable(trimmed(pubkey@))
                &&& !listed(existing@, trimmed(pubkey@))
                &&& a.path@ == "/home/agent/.ssh/authorized_keys"@
                &&& a.line@ == key_line(existing@, trimmed(pubkey@))
            },
            Err(e) => refused(trimmed(pubkey@), e),
        },
{
    add_ssh_key_to(pubkey, AGENT_AUTH_KEYS, existing)
}

/// `existing` with its last line finished.
spec fn finished(existing: Seq<char>) -> Seq<char> {
    if unfinished(existing).len() == 0 {
        existing
    } else {
        existing.push('\n')
    }
}

/// Finishing the last line keeps the lines, but for a carriage return at the end
/// of the last one.
proof fn lemma_finished(existing: Seq<char>)
    ensures
        finished(existing).len() == 0 || finished(existing).last() == '\n',
        lines(finished(existing)).len() == lines(existing).len(),
        forall|i: int|
            0 <= i < lines(existing).len() ==> trimmed(#[trigger] lines(finished(existing))[i])
                == trimmed(lines(existing)[i]),
        existing.len() == 0 || existing.last() != '\r' ==> lines(finished(existing)) == lines(
            existing,
        ),
{
    let u = unfinished(existing);
    lemma_unfinished(existing);
    if u.len() > 0 {
        let head = existing.take(existing.len() - u.len());
        assert(existing == head + u);
        assert(finished(existing) == head + u.push('\n'));
        lemma_lines_concat(head, u);
        lemma_lines_concat(head, u.push('\n'));
        lemma_one_line(u);
        assert(u.last() == existing.last());
        if u.last() == '\r' {
            assert(is_space('\r'));
            lemma_trimmed_before_space(u.drop_last(), '\r');
            assert(u.drop_last().push('\r') == u);
        }
    }
}

/// An appended key is listed, whatever the file held. So adding it again changes
/// nothing, and what else is listed stays as it was.
pub proof fn law_append_lists_the_key(existing: Seq<char>, pubkey: Seq<char>)
    requires
        acceptable(trimmed(pubkey)),
    ensures
        forall|k: Seq<char>| #[trigger]
            listed(existing + key_line(existing, trimmed(pubkey)), k) <==> listed(existing, k) || k
                == trimmed(pubkey),
{
    let key = trimmed(pubkey);
    let after = existing + key_line(existing, key);
    lemma_trimmed(pubkey);
    lemma_trimmed_is(key);
    lemma_finished(existing);
    lemma_added(existing, key);
    let old_lines = lines(existing);
    let n = old_lines.len() as int;
    assert forall|k: Seq<char>| #[trigger] listed(after, k) <==> listed(existing, k) || k == key by {
        if listed(after, k) {
            let i = choose|i: int|
                0 <= i < lines(after).len() && trimmed(#[trigger] lines(after)[i]) == k;
            if i < n {
                assert(lines(after)[i] == lines(finished(existing))[i]);
                assert(trimmed(old_lines[i]) == k);
            }
        }
        if listed(existing, k) {
            let i = choose|i: int| 0 <= i < n && trimmed(#[trigger] lines(existing)[i]) == k;
            assert(lines(after)[i] == lines(finished(existing))[i]);
        }
        if k == key {
            assert(trimmed(lines(after)[n]) == key);
        }
    }
}

/// Appending adds the key as one line after those of the finished file.
proof fn lemma_added(existing: Seq<char>, key: Seq<char>)
    requires
        one_line(key),
    ensures
        lines(existing + key_line(existing, key)) == lines(finished(existing)).push(key),
{
    lemma_finished(existing);
    let f = finished(existing);
    assert(existing + key_line(existing, key) == f + key.push('\n'));
    lemma_lines_concat(f, key.push('\n'));
    lemma_one_line(key);
    assert(key.contains(key.last()));
    assert(lines(key.push('\n')) == seq![key]);
    assert(lines(f) + seq![key] == lines(f).push(key));
}

/// Appending adds the key as a new last line and keeps the lines before it as
/// they were, finished or not. Only a carriage return at the very end of the
/// file becomes part of the line feed that it then stands before.
pub proof fn law_append_keeps_the_lines(existing: Seq<char>, key: Seq<char>)
    requires
        acceptable(key),
        existing.len() == 0 || existing.last() != '\r',
    ensures
        lines(existing + key_line(existing, key)) == lines(existing).push(key),
{
    lemma_finished(existing);
    lemma_added(existing, key);
}

} // verus!
