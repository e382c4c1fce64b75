//! What is loaded, listed and dropped.

use vstd::prelude::*;
use vstd::string::*;
use vstd::utf8::*;

use crate::contract::{CodeError, CodeErrorCode, CodeResponse};
use crate::creds::{
    cap_of, caps_of, constant_time_eq, filled_text, law_nothing_held_lists_nothing, wiped, CapFile,
    Creds, ForgeOwnerCreds,
};
use crate::laws::git::lemma_texts;
use crate::laws::text::{lemma_trimmed_middle, tight};
use crate::lines::texts;
use crate::order::at_most;
use crate::text::{blank, lemma_trimmed, trimmed};

verus! {

// ---------------------------------------------------------------------------
// Loading
// ---------------------------------------------------------------------------

/// The capability of the last file for a repository counts.
proof fn lemma_last_cap(files: Seq<CapFile>, repo: Seq<char>, i: int)
    requires
        0 <= i < files.len(),
        cap_of(files[i]) is Some,
        (cap_of(files[i])->0).0 == repo,
        forall|j: int|
            i < j < files.len() ==> (cap_of(#[trigger] files[j]) matches Some(c) ==> c.0 != repo),
    ensures
        caps_of(files).contains_key(repo),
        caps_of(files)[repo] == (cap_of(files[i])->0).1,
    decreases files.len(),
{
    if i < files.len() - 1 {
        let t = files.drop_last();
        assert(t[i] == files[i]);
        assert forall|j: int| i < j < t.len() implies (cap_of(#[trigger] t[j]) matches Some(c)
            ==> c.0 != repo) by {
            assert(t[j] == files[j]);
        }
        lemma_last_cap(t, repo, i);
        assert(cap_of(files[files.len() - 1]) matches Some(c) ==> c.0 != repo);
    }
}

/// A loaded capability comes from some file.
proof fn lemma_some_cap(files: Seq<CapFile>, repo: Seq<char>) -> (i: int)
    requires
        caps_of(files).contains_key(repo),
    ensures
        0 <= i < files.len(),
        cap_of(files[i]) == Some((repo, caps_of(files)[repo])),
    decreases files.len(),
{
    let n = files.len() - 1;
    if cap_of(files.last()) is Some && (cap_of(files.last())->0).0 == repo {
        n
    } else {
        let i = lemma_some_cap(files.drop_last(), repo);
        assert(files.drop_last()[i] == files[i]);
        i
    }
}

proof fn lemma_cap_name(f: CapFile, repo: Seq<char>)
    requires
        f.name@ == repo + ".url"@,
    ensures
        f.contents is Some && !blank(f.contents->0@) ==> cap_of(f) == Some(
            (repo, trimmed(f.contents->0@)),
        ),
        f.contents is None || blank(f.contents->0@) ==> cap_of(f) is None,
{
    reveal_strlit(".url");
    assert(f.name@.skip(f.name@.len() - 4) == ".url"@);
    assert(f.name@.take(f.name@.len() - 4) == repo);
    if f.contents is Some {
        lemma_trimmed(f.contents->0@);
    }
}

/// The file of a repository gives its capability URL: what it holds, without the
/// white space around it, if it holds more than that and no later file for the
/// repository does.
pub proof fn law_cap_file_is_loaded(
    files: &Vec<CapFile>,
    forge_admin: Option<&str>,
    owner: Option<ForgeOwnerCreds>,
    c: Creds,
    repo: &str,
    r: Option<&str>,
    i: int,
    a: Seq<char>,
    m: Seq<char>,
    b: Seq<char>,
)
    requires
        call_ensures(Creds::load, (files, forge_admin, owner), c),
        call_ensures(Creds::git_cap_url, (&c, repo), r),
        0 <= i < files@.len(),
        files@[i].name@ == repo@ + ".url"@,
        files@[i].contents is Some,
        files@[i].contents->0@ == a + m + b,
        blank(a),
        blank(b),
        tight(m),
        m.len() > 0,
        forall|j: int|
            i < j < files@.len() && (#[trigger] files@[j]).name@ == repo@ + ".url"@
                ==> files@[j].contents is None || blank(files@[j].contents->0@),
    ensures
        r is Some,
        r->0@ == m,
{
    reveal_strlit(".url");
    lemma_trimmed_middle(a, m, b);
    lemma_trimmed(a + m + b);
    lemma_cap_name(files@[i], repo@);
    assert forall|j: int| i < j < files@.len() implies (cap_of(#[trigger] files@[j]) matches Some(x)
        ==> x.0 != repo@) by {
        let f = files@[j];
        if f.name@ == repo@ + ".url"@ {
            lemma_cap_name(f, repo@);
        } else if cap_of(f) is Some && (cap_of(f)->0).0 == repo@ {
            assert(f.name@ == f.name@.take(f.name@.len() - 4) + f.name@.skip(f.name@.len() - 4));
        }
    }
    lemma_last_cap(files@, repo@, i);
}

/// Nothing but such a file gives a capability URL.
pub proof fn law_only_cap_files_are_loaded(
    files: &Vec<CapFile>,
    forge_admin: Option<&str>,
    owner: Option<ForgeOwnerCreds>,
    c: Creds,
    repo: &str,
    r: Option<&str>,
)
    requires
        call_ensures(Creds::load, (files, forge_admin, owner), c),
        call_ensures(Creds::git_cap_url, (&c, repo), r),
        r is Some,
    ensures
        exists|i: int|
            0 <= i < files@.len() && (#[trigger] files@[i]).name@ == repo@ + ".url"@
                && files@[i].contents is Some && trimmed(files@[i].contents->0@) == r->0@,
        r->0@.len() > 0,
{
    reveal_strlit(".url");
    let i = lemma_some_cap(files@, repo@);
    let f = files@[i];
    assert(f.name@ == f.name@.take(f.name@.len() - 4) + f.name@.skip(f.name@.len() - 4));
}

/// A forge-admin file with owner credentials gives them and their admin token;
/// one with anything else is the admin token, without the white space around it.
/// No file, and one with white space alone, give neither.
pub proof fn law_forge_admin_file_is_loaded(
    files: &Vec<CapFile>,
    forge_admin: Option<&str>,
    owner: Option<ForgeOwnerCreds>,
    c: Creds,
    token: Option<&str>,
    held: Option<&ForgeOwnerCreds>,
    a: Seq<char>,
    m: Seq<char>,
    b: Seq<char>,
)
    requires
        call_ensures(Creds::load, (files, forge_admin, owner), c),
        call_ensures(Creds::forge_admin_token, (&c,), token),
        call_ensures(Creds::forge_owner, (&c,), held),
        forge_admin matches Some(s) ==> s@ == a + m + b && blank(a) && blank(b) && tight(m),
    ensures
        forge_admin is None || m.len() == 0 ==> token is None && held is None,
        forge_admin is Some && m.len() > 0 ==> match owner {
            Some(o) => {
                &&& token is Some && token->0@ == o.admin_token@
                &&& held is Some
                &&& held->0.owner_user@ == o.owner_user@
                &&& held->0.owner_password@ == o.owner_password@
                &&& held->0.admin_token@ == o.admin_token@
            },
            None => token is Some && token->0@ == m && held is None,
        },
{
    if forge_admin is Some {
        lemma_trimmed_middle(a, m, b);
    }
}

/// The text of a file is given without the white space around it, and not at all
/// if there is nothing else.
pub proof fn law_filled_text_is_trimmed(
    contents: Option<&str>,
    r: Option<String>,
    a: Seq<char>,
    m: Seq<char>,
    b: Seq<char>,
)
    requires
        call_ensures(filled_text, (contents,), r),
        contents matches Some(s) ==> s@ == a + m + b && blank(a) && blank(b) && tight(m),
    ensures
        r is Some <==> contents is Some && m.len() > 0,
        r is Some ==> r->0@ == m,
{
    if contents is Some {
        lemma_trimmed_middle(a, m, b);
    }
}

// ---------------------------------------------------------------------------
// Listing
// ---------------------------------------------------------------------------

/// Each repository with a capability is listed behind `git:`, and the forge if an
/// admin token is held; nothing else is listed, and each name once and in order.
pub proof fn law_every_cap_is_listed(
    c: &Creds,
    names: Vec<String>,
    repo: &str,
    url: Option<&str>,
    token: Option<&str>,
)
    requires
        call_ensures(Creds::cap_names, (c,), names),
        call_ensures(Creds::git_cap_url, (c, repo), url),
        call_ensures(Creds::forge_admin_token, (c,), token),
    ensures
        url is Some <==> exists|i: int|
            0 <= i < names@.len() && (#[trigger] names@[i])@ == "git:"@ + repo@,
        token is Some <==> exists|i: int|
            0 <= i < names@.len() && (#[trigger] names@[i])@ == "forge"@,
        forall|i: int|
            0 <= i < names@.len() ==> (#[trigger] names@[i])@ == "forge"@ || exists|r: Seq<char>|
                c@.caps.contains_key(r) && names@[i]@ == #[trigger] ("git:"@ + r),
        forall|i: int, j: int|
            0 <= i < j < names@.len() ==> (#[trigger] names@[i])@ != (#[trigger] names@[j])@
                && at_most(names@[i]@, names@[j]@),
{
    reveal_strlit("git:");
    reveal_strlit("forge");
    let t = texts(names@);
    lemma_texts(names@, t);
    let g = "git:"@ + repo@;
    assert(g[0] == 'g' && "forge"@[0] == 'f');
    if url is Some {
        assert(c@.names().contains(g));
        assert(t.to_set().contains(g));
        let i = choose|i: int| 0 <= i < t.len() && t[i] == g;
        assert(names@[i]@ == g);
    }
    if exists|i: int| 0 <= i < names@.len() && (#[trigger] names@[i])@ == g {
        let i = choose|i: int| 0 <= i < names@.len() && (#[trigger] names@[i])@ == g;
        assert(t[i] == g);
        assert(t.to_set().contains(g));
        assert(c@.names().contains(g));
        let r = choose|r: Seq<char>| c@.caps.contains_key(r) && g == "git:"@ + r;
        assert(g.skip(4) == r);
        assert(g.skip(4) == repo@);
    }
    if token is Some {
        assert(c@.names().contains("forge"@));
        assert(t.to_set().contains("forge"@));
        let i = choose|i: int| 0 <= i < t.len() && t[i] == "forge"@;
        assert(names@[i]@ == "forge"@);
    }
    if exists|i: int| 0 <= i < names@.len() && (#[trigger] names@[i])@ == "forge"@ {
        let i = choose|i: int| 0 <= i < names@.len() && (#[trigger] names@[i])@ == "forge"@;
        assert(t[i] == "forge"@);
        assert(t.to_set().contains("forge"@));
        assert(c@.names().contains("forge"@));
        if token is None {
            let r = choose|r: Seq<char>| c@.caps.contains_key(r) && "forge"@ == "git:"@ + r;
            assert("forge"@[0] == ("git:"@ + r)[0]);
        }
    }
    assert forall|i: int| 0 <= i < names@.len() implies (#[trigger] names@[i])@ == "forge"@
        || exists|r: Seq<char>|
        c@.caps.contains_key(r) && names@[i]@ == #[trigger] ("git:"@ + r) by {
        assert(t[i] == names@[i]@);
        assert(t.to_set().contains(t[i]));
        assert(c@.names().contains(t[i]));
    }
    assert forall|i: int, j: int| 0 <= i < j < names@.len() implies (#[trigger] names@[i])@ != (
    #[trigger] names@[j])@ && at_most(names@[i]@, names@[j]@) by {
        assert(t[i] == names@[i]@ && t[j] == names@[j]@);
    }
}

// ---------------------------------------------------------------------------
// Dropping
// ---------------------------------------------------------------------------

/// `b` is as long as `text` in UTF-8, and holds zeros alone.
pub open spec fn zeroed(b: Vec<u8>, text: Seq<char>) -> bool {
    b@.len() == encode_utf8(text).len() && forall|i: int|
        0 <= i < b@.len() ==> #[trigger] b@[i] == 0
}

/// Some buffer is as long as `text` in UTF-8, and holds zeros alone.
pub open spec fn some_zeroed(v: Seq<Vec<u8>>, text: Seq<char>) -> bool {
    exists|k: int| 0 <= k < v.len() && zeroed(#[trigger] v[k], text)
}

/// A wiped string is a buffer of its length that holds zeros alone.
pub proof fn law_wiped_holds_zeros(s: String, r: Vec<u8>)
    requires
        call_ensures(wiped, (s,), r),
    ensures
        zeroed(r, s@),
{
}

/// Once everything was dropped there is no capability, no admin token, no owner
/// and no name. Every text that was held as a secret comes back as a buffer of its
/// length, and whatever comes back holds zeros alone.
pub proof fn law_scrub_drops_everything(
    c: &mut Creds,
    r: Vec<Vec<u8>>,
    repo: &str,
    url: Option<&str>,
    token: Option<&str>,
    owner: Option<&ForgeOwnerCreds>,
    url_after: Option<&str>,
    token_after: Option<&str>,
    owner_after: Option<&ForgeOwnerCreds>,
    names_after: Vec<String>,
)
    requires
        call_ensures(Creds::git_cap_url, (&*old(c), repo), url),
        call_ensures(Creds::forge_admin_token, (&*old(c),), token),
        call_ensures(Creds::forge_owner, (&*old(c),), owner),
        call_ensures(Creds::scrub, (c,), r),
        call_ensures(Creds::git_cap_url, (&*final(c), repo), url_after),
        call_ensures(Creds::forge_admin_token, (&*final(c),), token_after),
        call_ensures(Creds::forge_owner, (&*final(c),), owner_after),
        call_ensures(Creds::cap_names, (&*final(c),), names_after),
    ensures
        url_after is None,
        token_after is None,
        owner_after is None,
        names_after@.len() == 0,
        url matches Some(u) ==> some_zeroed(r@, u@),
        token matches Some(t) ==> some_zeroed(r@, t@),
        owner matches Some(o) ==> some_zeroed(r@, o.owner_user@) && some_zeroed(
            r@,
            o.owner_password@,
        ) && some_zeroed(r@, o.admin_token@),
        forall|k: int, i: int|
            0 <= k < r@.len() && 0 <= i < r@[k]@.len() ==> #[trigger] r@[k]@[i] == 0,
{
    lemma_texts(names_after@, texts(names_after@));
    law_nothing_held_lists_nothing(texts(names_after@));
    let all = old(c).secrets();
    if let Some(u) = url {
        assert(old(c)@.caps.contains_key(repo@));
        let k = choose|k: int| 0 <= k < all.len() && all[k] == u@;
        assert(zeroed(r@[k], u@));
    }
    if let Some(t) = token {
        let k = choose|k: int| 0 <= k < all.len() && all[k] == t@;
        assert(zeroed(r@[k], t@));
    }
    if let Some(o) = owner {
        let k = choose|k: int| 0 <= k < all.len() && all[k] == o.owner_user@;
        assert(zeroed(r@[k], o.owner_user@));
        let k = choose|k: int| 0 <= k < all.len() && all[k] == o.owner_password@;
        assert(zeroed(r@[k], o.owner_password@));
        let k = choose|k: int| 0 <= k < all.len() && all[k] == o.admin_token@;
        assert(zeroed(r@[k], o.admin_token@));
    }
}

/// A copy of the credentials holds the same.
pub proof fn law_copies_hold_the_same(
    c: &Creds,
    d: Creds,
    repo: &str,
    url: Option<&str>,
    url_d: Option<&str>,
    token: Option<&str>,
    token_d: Option<&str>,
    owner: Option<&ForgeOwnerCreds>,
    owner_d: Option<&ForgeOwnerCreds>,
)
    requires
        call_ensures(Creds::clone, (c,), d),
        call_ensures(Creds::git_cap_url, (c, repo), url),
        call_ensures(Creds::git_cap_url, (&d, repo), url_d),
        call_ensures(Creds::forge_admin_token, (c,), token),
        call_ensures(Creds::forge_admin_token, (&d,), token_d),
        call_ensures(Creds::forge_owner, (c,), owner),
        call_ensures(Creds::forge_owner, (&d,), owner_d),
    ensures
        url is Some == url_d is Some && (url is Some ==> url->0@ == url_d->0@),
        token is Some == token_d is Some && (token is Some ==> token->0@ == token_d->0@),
        owner is Some == owner_d is Some,
        owner is Some ==> owner->0.owner_user@ == owner_d->0.owner_user@ && owner->0.owner_password@
            == owner_d->0.owner_password@ && owner->0.admin_token@ == owner_d->0.admin_token@,
{
}

/// Before anything is loaded, nothing is held.
pub proof fn law_default_holds_nothing(
    c: Creds,
    repo: &str,
    url: Option<&str>,
    token: Option<&str>,
    owner: Option<&ForgeOwnerCreds>,
)
    requires
        call_ensures(Creds::default, (), c),
        call_ensures(Creds::git_cap_url, (&c, repo), url),
        call_ensures(Creds::forge_admin_token, (&c,), token),
        call_ensures(Creds::forge_owner, (&c,), owner),
    ensures
        url is None && token is None && owner is None,
{
}

/// Two byte strings compare as equal exactly if they are.
pub proof fn law_constant_time_eq_is_equality(a: &[u8], b: &[u8], r: bool)
    requires
        call_ensures(constant_time_eq, (a, b), r),
    ensures
        r <==> a@.len() == b@.len() && forall|i: int|
            0 <= i < a@.len() ==> #[trigger] a@[i] == b@[i],
{
    if a@.len() == b@.len() && (forall|i: int|
        0 <= i < a@.len() ==> #[trigger] a@[i] == b@[i]) {
        assert(a@ =~= b@);
    }
}

// ---------------------------------------------------------------------------
// Errors and answers
// ---------------------------------------------------------------------------

/// An error has the code and the message that it was made with, and a detail
/// follows its context behind a colon.
pub proof fn law_error_says_what_it_was_made_with(
    code: CodeErrorCode,
    context: &str,
    detail: &str,
    plain: CodeError,
    detailed: CodeError,
)
    requires
        call_ensures(CodeError::new, (code, context), plain),
        call_ensures(CodeError::with_detail, (code, context, detail), detailed),
    ensures
        plain.code == code,
        plain.message@ == context@,
        detailed.code == code,
        detailed.message@ == context@ + ": "@ + detail@,
{
}

/// An answer is either a result or an error, and gives back what it was made with.
pub proof fn law_answer_gives_back_what_it_holds<T>(
    v: T,
    e: CodeError,
    good: CodeResponse<T>,
    bad: CodeResponse<T>,
    good_r: Result<T, CodeError>,
    bad_r: Result<T, CodeError>,
)
    requires
        call_ensures(CodeResponse::<T>::ok, (v,), good),
        call_ensures(CodeResponse::<T>::err, (e,), bad),
        call_ensures(CodeResponse::<T>::into_result, (good,), good_r),
        call_ensures(CodeResponse::<T>::into_result, (bad,), bad_r),
    ensures
        good.ok && good.result == Some(v) && good.error is None,
        !bad.ok && bad.result is None && bad.error == Some(e),
        good_r == Ok::<T, CodeError>(v),
        bad_r == Err::<T, CodeError>(e),
{
}

} // verus!
