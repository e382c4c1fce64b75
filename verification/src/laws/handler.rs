//! What the forge operations of a workspace come to, and what a push capability
//! stands for.

use vstd::prelude::*;
use vstd::string::*;
use vstd::utf8::*;

use crate::contract::{
    CodeError, CodeErrorCode, CodeResponse, ForgeFileUrlReq, ForgeListReposResp, ForgeOpenPrReq,
    ForgePrResp, ForgeRepoInfo, ForgeUrlResp,
};
use crate::forge::client::{
    branch_read, named, pr_opened, repos_listed, token_minted, ForgeCall, ForgeError, ForgeMethod,
    ForgeReply, ForgejoPr, ForgejoRepo, ForgejoToken, Minting,
};
use crate::forge::git_session::{GitSessionEntry, GitSessions};
use crate::forge::handler::{
    ensure_same_tenant, forge_file_url, forge_list_repos, forge_open_pr, internal,
    list_repos_answer, pr_answer, pr_branch_read, push_cap_minted, push_token_listed, register_cap,
    register_forge_push_cap, url_branch_read, ForgeContext, PrStep, PushCap, UrlStep,
};
use crate::forge::path::{lemma_plain, plain};
use crate::forge::push_cap::{
    blake3_digest, cap_of_digest, cap_text, forge_cap_from, generate_forge_cap, hex_digit, hex_text,
    random_uuid,
};
use crate::laws::forge::Forge;
use crate::laws::git::lemma_texts;
use crate::laws::text::{lemma_without_run_before, lemma_without_run_behind, run_of};
use crate::lines::texts;
use crate::search::{lemma_find, lemma_find_is, occurs_at, split_at_first};

verus! {

// ---------------------------------------------------------------------------
// The organisation
// ---------------------------------------------------------------------------

/// `s` holds no slash.
pub open spec fn slashless(s: Seq<char>) -> bool {
    forall|i: int| 0 <= i < s.len() ==> #[trigger] s[i] != '/'
}

pub(crate) proof fn lemma_split_at_slash(a: Seq<char>, b: Seq<char>)
    requires
        slashless(a),
    ensures
        split_at_first(a + "/"@ + b, "/"@) == Some((a, b)),
        split_at_first(a, "/"@) is None,
{
    reveal_strlit("/");
    let s = a + "/"@ + b;
    let n = a.len() as int;
    assert(s.subrange(n, n + 1) == "/"@);
    assert forall|j: int| 0 <= j < n implies !#[trigger] occurs_at(s, "/"@, j) by {
        assert(s.subrange(j, j + 1)[0] == a[j]);
    }
    lemma_find_is(s, "/"@, 0, n);
    assert(s.take(n) == a);
    assert(s.skip(n + 1) == b);
    lemma_find(a, "/"@, 0);
    assert forall|j: int| !#[trigger] occurs_at(a, "/"@, j) by {
        if occurs_at(a, "/"@, j) {
            assert(a.subrange(j, j + 1)[0] == a[j]);
        }
    }
}

/// Every plain name is taken for a repository of the organisation, as it is or
/// behind the organisation and a slash; behind any other prefix every name is
/// refused.
pub proof fn law_own_names_are_taken(
    ctx: &ForgeContext,
    repo: &str,
    r: Result<String, CodeError>,
    name: Seq<char>,
    prefix: Seq<char>,
)
    requires
        call_ensures(ensure_same_tenant, (ctx, repo), r),
    ensures
        repo@ == name && plain(name) ==> r is Ok && r->Ok_0@ == name,
        repo@ == ctx.org_slug@ + "/"@ + name && plain(name) && slashless(ctx.org_slug@)
            ==> r is Ok && r->Ok_0@ == name,
        repo@ == prefix + "/"@ + name && slashless(prefix) && prefix != ctx.org_slug@ ==> r is Err,
        r matches Err(e) ==> e.code == CodeErrorCode::Forbidden && e.message@
            == "forge repo resolves under another org — cross-tenant access forbidden"@,
{
    if plain(name) {
        lemma_plain(name);
        assert forall|i: int| 0 <= i < name.len() implies #[trigger] name[i] != '/' by {}
        lemma_split_at_slash(name, seq![]);
    }
    if slashless(ctx.org_slug@) {
        lemma_split_at_slash(ctx.org_slug@, name);
    }
    if slashless(prefix) {
        lemma_split_at_slash(prefix, name);
    }
}

// ---------------------------------------------------------------------------
// Operations
// ---------------------------------------------------------------------------

/// A failed call is an error that is not the caller's, and tells the reason.
pub proof fn law_failed_call_is_internal(e: &ForgeError, r: CodeError)
    requires
        call_ensures(internal, (e,), r),
    ensures
        r.code == CodeErrorCode::Internal,
        r.message@ == "forge"@ + ": "@ + e.message@,
{
}

/// The repositories of the organisation of the workspace are listed with the
/// admin token, and answered as they were listed.
pub proof fn law_own_repos_are_listed(
    f: Forge,
    ctx: &ForgeContext,
    call: ForgeCall,
    reply: ForgeReply<Vec<ForgejoRepo>>,
    answer: CodeResponse<ForgeListReposResp>,
    read: Result<Vec<ForgeRepoInfo>, ForgeError>,
)
    requires
        f.made(),
        ctx.client == f.client,
        call_ensures(forge_list_repos, (ctx,), call),
        call_ensures(list_repos_answer, (reply,), answer),
        call_ensures(repos_listed, (reply,), read),
    ensures
        f.as_admin(call, ForgeMethod::Get, "/orgs/"@ + ctx.org_slug@ + "/repos"@),
        call.query_ref is None && call.body is Nothing,
        match read {
            Ok(repos) => {
                &&& answer.ok && answer.error is None && answer.result is Some
                &&& answer.result->0.repos@.len() == repos@.len()
                &&& forall|i: int|
                    0 <= i < repos@.len() ==> (#[trigger] repos@[i]).name@
                        == answer.result->0.repos@[i].name@ && repos@[i].full_name@
                        == answer.result->0.repos@[i].full_name@ && repos@[i].clone_url@
                        == answer.result->0.repos@[i].clone_url@ && repos@[i].web_url@
                        == answer.result->0.repos@[i].web_url@ && repos@[i].default_branch@
                        == answer.result->0.repos@[i].default_branch@ && repos@[i].private
                        == answer.result->0.repos@[i].private
            },
            Err(e) => {
                &&& !answer.ok && answer.result is None && answer.error is Some
                &&& answer.error->0.code == CodeErrorCode::Internal
                &&& answer.error->0.message@ == "forge"@ + ": "@ + e.message@
            },
        },
{
    lemma_without_run_behind(f.base, '/', f.base_slashes);
}

/// `call` opens the pull request `req` in `repo`, on the branch `base`: each part
/// of the request stands where the forge reads it.
pub open spec fn opens(
    f: Forge,
    org: Seq<char>,
    repo: Seq<char>,
    req: ForgeOpenPrReq,
    base: Seq<char>,
    call: ForgeCall,
) -> bool {
    &&& f.as_admin(call, ForgeMethod::Post, "/repos/"@ + org + "/"@ + repo + "/pulls"@)
    &&& call.query_ref is None
    &&& call.body is Pull
    &&& call.body->title@ == req.title@
    &&& call.body->head@ == req.head@
    &&& call.body->base@ == base
    &&& req.body matches Some(b) ==> call.body->body@ == b@
    &&& req.body is None ==> call.body->body@.len() == 0
}

/// A pull request with a base is opened at once, with the title, the head, the
/// base and the text of the request; without a base the repository is read first.
/// A repository of another organisation is refused before any call.
pub proof fn law_pull_carries_the_request(
    f: Forge,
    ctx: &ForgeContext,
    req: &ForgeOpenPrReq,
    step: PrStep,
    repo: &str,
    own: Result<String, CodeError>,
)
    requires
        f.made(),
        ctx.client == f.client,
        call_ensures(forge_open_pr, (ctx, req), step),
        call_ensures(ensure_same_tenant, (ctx, repo), own),
        repo@ == req.repo@,
    ensures
        match own {
            Ok(name) => {
                &&& req.base matches Some(base) ==> step is Open && opens(
                    f,
                    ctx.org_slug@,
                    name@,
                    *req,
                    base@,
                    step->Open_0,
                )
                &&& req.base is None ==> step is ReadRepo && f.as_admin(
                    step->ReadRepo_0,
                    ForgeMethod::Get,
                    "/repos/"@ + ctx.org_slug@ + "/"@ + name@,
                ) && step->ReadRepo_0.query_ref is None && step->ReadRepo_0.body is Nothing
            },
            Err(e) => {
                &&& step is Answer
                &&& !step->Answer_0.ok && step->Answer_0.result is None
                &&& step->Answer_0.error is Some
                &&& step->Answer_0.error->0.code == e.code
                &&& step->Answer_0.error->0.message@ == e.message@
            },
        },
{
    lemma_without_run_behind(f.base, '/', f.base_slashes);
}

/// Once the repository was read, the pull request is opened on its default
/// branch, with the title, the head and the text of the request.
pub proof fn law_pull_falls_back_to_the_default_branch(
    f: Forge,
    ctx: &ForgeContext,
    req: &ForgeOpenPrReq,
    reply: ForgeReply<ForgejoRepo>,
    r: Result<ForgeCall, CodeError>,
    repo: &str,
    own: Result<String, CodeError>,
    branch: Result<String, ForgeError>,
)
    requires
        f.made(),
        ctx.client == f.client,
        call_ensures(pr_branch_read, (ctx, req, reply), r),
        call_ensures(ensure_same_tenant, (ctx, repo), own),
        call_ensures(branch_read, (reply,), branch),
        repo@ == req.repo@,
    ensures
        match (own, branch) {
            (Ok(name), Ok(base)) => r is Ok && opens(
                f,
                ctx.org_slug@,
                name@,
                *req,
                base@,
                r->Ok_0,
            ),
            (Ok(_), Err(e)) => r is Err && r->Err_0.code == CodeErrorCode::Internal
                && r->Err_0.message@ == "forge"@ + ": "@ + e.message@,
            (Err(e), _) => r is Err && r->Err_0.code == e.code && r->Err_0.message@ == e.message@,
        },
{
    lemma_without_run_behind(f.base, '/', f.base_slashes);
}

/// The answer to an opened pull request is its number and address, or the failure.
pub proof fn law_pull_is_answered(
    reply: ForgeReply<ForgejoPr>,
    answer: CodeResponse<ForgePrResp>,
    read: Result<ForgePrResp, ForgeError>,
)
    requires
        call_ensures(pr_answer, (reply,), answer),
        call_ensures(pr_opened, (reply,), read),
    ensures
        match read {
            Ok(pr) => {
                &&& answer.ok && answer.error is None && answer.result is Some
                &&& answer.result->0.number == pr.number
                &&& answer.result->0.web_url@ == pr.web_url@
            },
            Err(e) => {
                &&& !answer.ok && answer.result is None && answer.error is Some
                &&& answer.error->0.code == CodeErrorCode::Internal
                &&& answer.error->0.message@ == "forge"@ + ": "@ + e.message@
            },
        },
{
}

/// `a` answers with the link to `path` in `repo` at `git_ref`.
pub open spec fn answers_link(
    f: Forge,
    org: Seq<char>,
    repo: Seq<char>,
    git_ref: Seq<char>,
    path: Seq<char>,
    a: CodeResponse<ForgeUrlResp>,
) -> bool {
    &&& a.ok && a.error is None && a.result is Some
    &&& a.result->0.web_url@ == f.root + "/"@ + org + "/"@ + repo + "/src/"@ + git_ref + "/"@ + path
}

/// A link with a ref is answered at once, with the organisation, the repository,
/// the ref and the path of the request; without a ref the repository is read
/// first. A repository of another organisation is refused before any call.
pub proof fn law_link_carries_the_request(
    f: Forge,
    ctx: &ForgeContext,
    req: &ForgeFileUrlReq,
    step: UrlStep,
    repo: &str,
    own: Result<String, CodeError>,
    inner: Seq<char>,
    n: nat,
)
    requires
        f.made(),
        ctx.client == f.client,
        call_ensures(forge_file_url, (ctx, req), step),
        call_ensures(ensure_same_tenant, (ctx, repo), own),
        repo@ == req.repo@,
        req.path@ == run_of('/', n) + inner,
        inner.len() > 0 ==> inner[0] != '/',
    ensures
        match own {
            Ok(name) => {
                &&& req.git_ref matches Some(g) ==> step is Answer && answers_link(
                    f,
                    ctx.org_slug@,
                    name@,
                    g@,
                    inner,
                    step->Answer_0,
                )
                &&& req.git_ref is None ==> step is ReadRepo && f.as_admin(
                    step->ReadRepo_0,
                    ForgeMethod::Get,
                    "/repos/"@ + ctx.org_slug@ + "/"@ + name@,
                ) && step->ReadRepo_0.query_ref is None && step->ReadRepo_0.body is Nothing
            },
            Err(e) => {
                &&& step is Answer
                &&& !step->Answer_0.ok && step->Answer_0.result is None
                &&& step->Answer_0.error is Some
                &&& step->Answer_0.error->0.code == e.code
                &&& step->Answer_0.error->0.message@ == e.message@
            },
        },
{
    lemma_without_run_behind(f.base, '/', f.base_slashes);
    lemma_without_run_behind(f.root, '/', f.root_slashes);
    lemma_without_run_before(inner, '/', n);
}

/// Once the repository was read, the link leads to the file at its default branch.
pub proof fn law_link_falls_back_to_the_default_branch(
    f: Forge,
    ctx: &ForgeContext,
    req: &ForgeFileUrlReq,
    reply: ForgeReply<ForgejoRepo>,
    r: CodeResponse<ForgeUrlResp>,
    repo: &str,
    own: Result<String, CodeError>,
    branch: Result<String, ForgeError>,
    inner: Seq<char>,
    n: nat,
)
    requires
        f.made(),
        ctx.client == f.client,
        call_ensures(url_branch_read, (ctx, req, reply), r),
        call_ensures(ensure_same_tenant, (ctx, repo), own),
        call_ensures(branch_read, (reply,), branch),
        repo@ == req.repo@,
        req.path@ == run_of('/', n) + inner,
        inner.len() > 0 ==> inner[0] != '/',
    ensures
        match (own, branch) {
            (Ok(name), Ok(g)) => answers_link(f, ctx.org_slug@, name@, g@, inner, r),
            (Ok(_), Err(e)) => !r.ok && r.result is None && r.error is Some && r.error->0.code
                == CodeErrorCode::Internal && r.error->0.message@ == "forge"@ + ": "@ + e.message@,
            (Err(e), _) => !r.ok && r.result is None && r.error is Some && r.error->0.code == e.code
                && r.error->0.message@ == e.message@,
        },
{
    lemma_without_run_behind(f.root, '/', f.root_slashes);
    lemma_without_run_before(inner, '/', n);
}

// ---------------------------------------------------------------------------
// Push capabilities
// ---------------------------------------------------------------------------

/// The token for pushing is named after the organisation and the repository, and
/// the listing of the owner's tokens comes first.
pub proof fn law_push_token_is_named_after_the_repo(
    f: Forge,
    ctx: &ForgeContext,
    repo: &str,
    r: Result<PushCap, CodeError>,
    own: Result<String, CodeError>,
)
    requires
        f.made(),
        ctx.client == f.client,
        call_ensures(register_forge_push_cap, (ctx, repo), r),
        call_ensures(ensure_same_tenant, (ctx, repo), own),
    ensures
        match (own, r) {
            (Ok(name), Ok(push)) => {
                &&& push.repo@ == name@
                &&& push.token_name@ == "broker-push-"@ + ctx.org_slug@ + "-"@ + name@
                &&& f.as_owner(
                    push.call,
                    ForgeMethod::Get,
                    "/users/"@ + f.owner_user@ + "/tokens"@,
                )
                &&& push.call.body is Nothing
            },
            (Err(e), Err(g)) => e.code == g.code && e.message@ == g.message@,
            _ => false,
        },
{
    lemma_without_run_behind(f.base, '/', f.base_slashes);
}

/// The token for pushing is minted anew: wherever in the listing a token has its
/// name, that name is deleted first, and without one nothing is deleted.
pub proof fn law_stale_push_token_is_deleted(
    f: Forge,
    ctx: &ForgeContext,
    push: &PushCap,
    reply: &ForgeReply<Vec<ForgejoToken>>,
    r: Result<Minting, CodeError>,
    i: int,
)
    requires
        f.made(),
        ctx.client == f.client,
        call_ensures(push_token_listed, (ctx, push, reply), r),
    ensures
        *reply matches ForgeReply::Answer { code, body, .. } ==> {
            &&& r is Ok
            &&& f.as_owner(
                r->Ok_0.mint,
                ForgeMethod::Post,
                "/users/"@ + f.owner_user@ + "/tokens"@,
            )
            &&& r->Ok_0.mint.body is Token
            &&& r->Ok_0.mint.body->Token_name@ == push.token_name@
            &&& r->Ok_0.mint.body->scopes@.len() == 2
            &&& r->Ok_0.mint.body->scopes@[0]@ == "write:organization"@
            &&& r->Ok_0.mint.body->scopes@[1]@ == "write:repository"@
            &&& r->Ok_0.delete matches Some(del) ==> f.as_owner(
                del,
                ForgeMethod::Delete,
                "/users/"@ + f.owner_user@ + "/tokens"@ + "/"@ + push.token_name@,
            ) && del.body is Nothing
            &&& !(200 <= code <= 299) || body is Err ==> r->Ok_0.delete is None
            &&& body matches Ok(tokens) ==> {
                &&& 200 <= code <= 299 && 0 <= i < tokens@.len() && tokens@[i].name@
                    == push.token_name@ ==> r->Ok_0.delete is Some
                &&& (forall|j: int| 0 <= j < tokens@.len() ==> (#[trigger] tokens@[j]).name@
                    != push.token_name@) ==> r->Ok_0.delete is None
            }
        },
        *reply matches ForgeReply::Failed(why) ==> r is Err && r->Err_0.code
            == CodeErrorCode::Internal && r->Err_0.message@ == "forge"@ + ": "@ + why@,
{
    lemma_without_run_behind(f.base, '/', f.base_slashes);
    if let ForgeReply::Answer { code, body, .. } = *reply {
        let scopes = r->Ok_0.mint.body->scopes@;
        lemma_texts(scopes, texts(scopes));
        if let Ok(tokens) = body {
            if 0 <= i < tokens@.len() && tokens@[i].name@ == push.token_name@ {
                assert(named(tokens@, push.token_name@));
            }
        }
    }
}

/// `r` is what a lookup gives, and `was` what it gave before.
pub open spec fn same_lookup(
    r: Option<(String, String)>,
    was: Option<(String, String)>,
) -> bool {
    match (r, was) {
        (Some(x), Some(y)) => x.0@ == y.0@ && x.1@ == y.1@,
        (None, None) => true,
        _ => false,
    }
}

/// A registered capability gives back its URL and its token up to the moment at
/// which it expires, and nothing after that; every other capability gives back
/// what it gave before.
pub proof fn law_registered_cap_is_looked_up(
    sessions: &mut GitSessions,
    cap: String,
    entry: GitSessionEntry,
    key: &str,
    now: u64,
    r: Option<(String, String)>,
    other: &str,
    before: Option<(String, String)>,
    after: Option<(String, String)>,
)
    requires
        call_ensures(GitSessions::lookup, (&*old(sessions), other, now), before),
        call_ensures(GitSessions::register, (sessions, cap, entry), ()),
        call_ensures(GitSessions::lookup, (&*final(sessions), key, now), r),
        call_ensures(GitSessions::lookup, (&*final(sessions), other, now), after),
        key@ == cap@,
    ensures
        now <= entry.expires_at ==> r is Some && (r->0).0@ == entry.upstream_url@ && (r->0).1@
            == entry.token@,
        now > entry.expires_at ==> r is None,
        other@ != cap@ ==> same_lookup(after, before),
{
}

/// Where nothing was registered, nothing is given back.
pub proof fn law_empty_registry_gives_nothing(
    sessions: GitSessions,
    cap: &str,
    now: u64,
    r: Option<(String, String)>,
)
    requires
        call_ensures(GitSessions::default, (), sessions),
        call_ensures(GitSessions::lookup, (&sessions, cap, now), r),
    ensures
        r is None,
{
}

/// A revoked capability gives back nothing from then on; every other one gives
/// back what it gave before.
pub proof fn law_revoked_cap_is_gone(
    sessions: &mut GitSessions,
    cap: &str,
    now: u64,
    r: Option<(String, String)>,
    other: &str,
    before: Option<(String, String)>,
    after: Option<(String, String)>,
)
    requires
        call_ensures(GitSessions::lookup, (&*old(sessions), other, now), before),
        call_ensures(GitSessions::revoke, (sessions, cap), ()),
        call_ensures(GitSessions::lookup, (&*final(sessions), cap, now), r),
        call_ensures(GitSessions::lookup, (&*final(sessions), other, now), after),
    ensures
        r is None,
        other@ != cap@ ==> same_lookup(after, before),
{
}

/// A capability that is looked up at two moments gives back the same as long as
/// it gives back anything, and what it once stopped giving does not come back.
pub proof fn law_lookup_only_expires(
    sessions: &GitSessions,
    cap: &str,
    now: u64,
    later: u64,
    first: Option<(String, String)>,
    second: Option<(String, String)>,
)
    requires
        call_ensures(GitSessions::lookup, (sessions, cap, now), first),
        call_ensures(GitSessions::lookup, (sessions, cap, later), second),
        now <= later,
    ensures
        second is Some ==> same_lookup(first, second),
{
}

/// A push capability gives back the clone URL and the scoped token for an hour
/// after it was registered.
pub proof fn law_push_cap_is_good_for_an_hour(
    sessions: &mut GitSessions,
    cap: String,
    clone_url: &str,
    token: String,
    now: u64,
    key: &str,
    later: u64,
    r: Option<(String, String)>,
)
    requires
        now + 3_600_000_000_000 <= u64::MAX,
        call_ensures(register_cap, (sessions, cap, clone_url, token, now), ()),
        call_ensures(GitSessions::lookup, (&*final(sessions), key, later), r),
        key@ == cap@,
    ensures
        later <= now + 3_600_000_000_000 ==> r is Some && (r->0).0@ == clone_url@ && (r->0).1@
            == token@,
        later > now + 3_600_000_000_000 ==> r is None,
{
}

/// Once its token is minted, a push capability is registered: the capability that
/// is returned gives back the clone URL and the secret of the token for an hour.
/// Without a secret nothing is registered, and the failure is told.
pub proof fn law_minted_push_cap_works(
    sessions: &mut GitSessions,
    ctx: &ForgeContext,
    push: &PushCap,
    clone_url: &str,
    now: u64,
    reply: ForgeReply<ForgejoToken>,
    r: Result<String, CodeError>,
    secret: Result<String, ForgeError>,
    key: &str,
    later: u64,
    found: Option<(String, String)>,
    before: Option<(String, String)>,
)
    requires
        now + 3_600_000_000_000 <= u64::MAX,
        call_ensures(push_cap_minted, (sessions, ctx, push, clone_url, now, reply), r),
        call_ensures(token_minted, (reply,), secret),
        call_ensures(GitSessions::lookup, (&*old(sessions), key, later), before),
        call_ensures(GitSessions::lookup, (&*final(sessions), key, later), found),
    ensures
        match (secret, r) {
            (Ok(token), Ok(cap)) => {
                &&& key@ == cap@ && later <= now + 3_600_000_000_000 ==> found is Some
                    && (found->0).0@ == clone_url@ && (found->0).1@ == token@
                &&& key@ == cap@ && later > now + 3_600_000_000_000 ==> found is None
                &&& key@ != cap@ ==> same_lookup(found, before)
                &&& exists|a: Seq<char>, b: Seq<char>|
                    random_uuid(a) && random_uuid(b) && cap@ == #[trigger] cap_text(
                        ctx.org_slug@,
                        push.repo@,
                        a,
                        b,
                    )
            },
            (Err(e), Err(g)) => {
                &&& g.code == CodeErrorCode::Internal
                &&& g.message@ == "forge"@ + ": "@ + e.message@
                &&& same_lookup(found, before)
            },
            _ => false,
        },
{
}

/// The number that a hexadecimal digit stands for.
pub open spec fn hex_value(c: char) -> int {
    if c as int <= 57 {
        c as int - 48
    } else {
        c as int - 87
    }
}

/// A capability is its digest in hexadecimal, two lower-case digits for each
/// byte, the higher one first.
pub proof fn law_cap_is_the_digest_in_hex(digest: &[u8], r: String)
    requires
        call_ensures(cap_of_digest, (digest,), r),
    ensures
        r@.len() == 2 * digest@.len(),
        forall|i: int|
            0 <= i < digest@.len() ==> (#[trigger] digest@[i]) as int == 16 * hex_value(
                r@[2 * i],
            ) + hex_value(r@[2 * i + 1]),
        forall|i: int|
            0 <= i < r@.len() ==> 48 <= (#[trigger] r@[i]) as int <= 57 || 97 <= r@[i] as int
                <= 102,
{
    let d = digest@;
    assert forall|i: int| 0 <= i < d.len() implies (#[trigger] d[i]) as int == 16 * hex_value(
        r@[2 * i],
    ) + hex_value(r@[2 * i + 1]) by {
        let b = d[i] as int;
        assert((2 * i) / 2 == i && (2 * i) % 2 == 0);
        assert((2 * i + 1) / 2 == i && (2 * i + 1) % 2 == 1);
        assert(r@[2 * i] == hex_digit(b / 16));
        assert(r@[2 * i + 1] == hex_digit(b % 16));
    }
    assert forall|i: int| 0 <= i < r@.len() implies 48 <= (#[trigger] r@[i]) as int <= 57 || 97
        <= r@[i] as int <= 102 by {
        let b = d[i / 2] as int;
        assert(0 <= b < 256);
    }
}

/// The capability with two salts is that of the digest of the organisation, the
/// repository and both salts; a fresh one has random salts.
pub proof fn law_cap_is_made_of_repo_and_salts(
    org: &str,
    repo: &str,
    salt_a: &str,
    salt_b: &str,
    r: String,
    digest: &[u8],
    hex: String,
    fresh: String,
)
    requires
        call_ensures(forge_cap_from, (org, repo, salt_a, salt_b), r),
        call_ensures(cap_of_digest, (digest,), hex),
        digest@ == blake3_digest(
            encode_utf8(org@ + "/"@ + repo@ + ":"@ + salt_a@ + ":"@ + salt_b@),
        ),
        call_ensures(generate_forge_cap, (org, repo), fresh),
    ensures
        r@ == hex@,
        exists|a: Seq<char>, b: Seq<char>|
            #![trigger random_uuid(a), random_uuid(b)]
            random_uuid(a) && random_uuid(b) && fresh@ == hex_text(
                blake3_digest(encode_utf8(org@ + "/"@ + repo@ + ":"@ + a + ":"@ + b)),
            ),
{
    let (a, b) = choose|a: Seq<char>, b: Seq<char>|
        random_uuid(a) && random_uuid(b) && fresh@ == #[trigger] cap_text(org@, repo@, a, b);
    assert(random_uuid(a) && random_uuid(b));
}

} // verus!
