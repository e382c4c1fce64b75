//! The forge operations of a workspace. Each one stays in the organisation of
//! the workspace: a repository that is named under another one is refused before
//! any call.

use vstd::prelude::*;
use vstd::string::*;

use crate::contract::{
    opt_text, CodeError, CodeErrorCode, CodeResponse, ForgeFileUrlReq, ForgeListReposResp,
    ForgeOpenPrReq, ForgePrResp, ForgeUrlResp,
};
use crate::forge::client::{
    accepted, branch_read, file_link, infos, lists, org_repos_path, pr_opened, repo_path,
    repos_listed, text_or_empty, token_minted, BodyView, CallView, ForgeCall, ForgeClient,
    ForgeError, ForgeReply, ForgejoPr, ForgejoRepo, ForgejoToken, Minting,
};
use crate::forge::git_session::{
    resolved, EntryView, FORGE_PUSH_CAP_TTL, GitSessionEntry, GitSessions,
};
use crate::forge::path::{
    does_stay_put, dot_segment, has_query, lemma_plain, lemma_read_join, no_dots, plain,
    read_at_end, read_inside, segments, stays_put, without_blank_end,
};
use crate::forge::push_cap::{cap_shaped, cap_text, generate_forge_cap, random_uuid};
use crate::search::{split_at_first, split_once};
use crate::text::{same_text, without_leading, without_trailing};

verus! {

/// The forge of a workspace: its organisation, and the client with the owner
/// credentials of that organisation.
pub struct ForgeContext {
    pub org_slug: String,
    pub client: ForgeClient,
}

/// The name of a repository in `org`, if `repo` names one: `repo` itself or what
/// follows `org` and a slash, unless it leads out of the organisation again.
pub open spec fn own_repo(org: Seq<char>, repo: Seq<char>) -> Option<Seq<char>> {
    let name = match split_at_first(repo, "/"@) {
        None => Some(repo),
        Some((prefix, rest)) => if prefix == org {
            Some(rest)
        } else {
            None
        },
    };
    match name {
        Some(n) => if stays_put(n) {
            Some(n)
        } else {
            None
        },
        None => None,
    }
}

/// `e` refuses a repository of another organisation.
pub open spec fn cross_tenant(e: CodeError) -> bool {
    e.says(
        CodeErrorCode::Forbidden,
        "forge repo resolves under another org — cross-tenant access forbidden"@,
    )
}

/// The name of `repo` in the organisation of the workspace.
pub fn ensure_same_tenant(ctx: &ForgeContext, repo: &str) -> (r: Result<String, CodeError>)
    ensures
        match r {
            Ok(name) => own_repo(ctx.org_slug@, repo@) == Some(name@),
            Err(e) => own_repo(ctx.org_slug@, repo@) is None && cross_tenant(e),
        },
{
    let name = match split_once(repo, "/") {
        None => Some(repo),
        Some((org, rest)) => if same_text(org, ctx.org_slug.as_str()) {
            Some(rest)
        } else {
            None
        },
    };
    if let Some(n) = name {
        if does_stay_put(n) {
            return Ok(n.to_owned());
        }
    }
    Err(
        CodeError::new(
            CodeErrorCode::Forbidden,
            "forge repo resolves under another org — cross-tenant access forbidden",
        ),
    )
}

/// `e` reports a failed call.
pub open spec fn call_failed(why: Seq<char>, e: CodeError) -> bool {
    e.says(CodeErrorCode::Internal, "forge"@ + ": "@ + why)
}

/// The error that reports a failed call.
pub fn internal(e: &ForgeError) -> (r: CodeError)
    ensures
        call_failed(e.message@, r),
{
    CodeError::with_detail(CodeErrorCode::Internal, "forge", e.message.as_str())
}

// ---------------------------------------------------------------------------
// Listing repositories
// ---------------------------------------------------------------------------

/// The call that lists the repositories of the organisation.
pub fn forge_list_repos(ctx: &ForgeContext) -> (r: ForgeCall)
    ensures
        r@ == ctx.client@.read(org_repos_path(ctx.org_slug@)),
{
    ctx.client.list_org_repos(ctx.org_slug.as_str())
}

/// The answer for the reply to [`forge_list_repos`].
pub fn list_repos_answer(reply: ForgeReply<Vec<ForgejoRepo>>) -> (r: CodeResponse<
    ForgeListReposResp,
>)
    ensures
        r.wf(),
        match accepted(reply, "forge list_org_repos"@) {
            Ok(repos) => r.result matches Some(l) && l.repos@ == infos(repos@),
            Err(why) => r.error matches Some(e) && call_failed(why, e),
        },
{
    match repos_listed(reply) {
        Ok(repos) => CodeResponse::ok(ForgeListReposResp { repos }),
        Err(e) => CodeResponse::err(internal(&e)),
    }
}

// ---------------------------------------------------------------------------
// Opening a pull request
// ---------------------------------------------------------------------------

/// What opening a pull request comes to next.
#[derive(Debug)]
pub enum PrStep {
    Answer(CodeResponse<ForgePrResp>),
    /// Read the repository, for [`pr_branch_read`].
    ReadRepo(ForgeCall),
    /// Open the pull request, for [`pr_answer`].
    Open(ForgeCall),
}

/// The call that opens the pull request `req` in `repo` on the branch `base`.
pub open spec fn pull_call(
    ctx: ForgeContext,
    req: ForgeOpenPrReq,
    repo: Seq<char>,
    base: Seq<char>,
) -> CallView {
    ctx.client@.post(
        repo_path(ctx.org_slug@, repo) + "/pulls"@,
        BodyView::Pull {
            title: req.title@,
            head: req.head@,
            base,
            body: text_or_empty(opt_text(req.body)),
        },
    )
}

fn open_pull(ctx: &ForgeContext, req: &ForgeOpenPrReq, repo: &str, base: &str) -> (r: ForgeCall)
    ensures
        r@ == pull_call(*ctx, *req, repo@, base@),
{
    let body = match &req.body {
        Some(b) => Some(b.as_str()),
        None => None,
    };
    ctx.client.open_pr(
        ctx.org_slug.as_str(),
        repo,
        req.title.as_str(),
        req.head.as_str(),
        base,
        body,
    )
}

/// `step` begins opening the pull request `req`.
pub open spec fn begins_pr(ctx: ForgeContext, req: ForgeOpenPrReq, step: PrStep) -> bool {
    match (own_repo(ctx.org_slug@, req.repo@), opt_text(req.base)) {
        (None, _) => step matches PrStep::Answer(a) && a.wf() && a.error is Some && cross_tenant(
            a.error->0,
        ),
        (Some(repo), Some(base)) => step matches PrStep::Open(call) && call@ == pull_call(
            ctx,
            req,
            repo,
            base,
        ),
        (Some(repo), None) => step matches PrStep::ReadRepo(call) && call@ == ctx.client@.read(
            repo_path(ctx.org_slug@, repo),
        ),
    }
}

/// The first step of opening a pull request. Without a base it is the default
/// branch of the repository.
pub fn forge_open_pr(ctx: &ForgeContext, req: &ForgeOpenPrReq) -> (r: PrStep)
    ensures
        begins_pr(*ctx, *req, r),
{
    let repo = match ensure_same_tenant(ctx, req.repo.as_str()) {
        Ok(repo) => repo,
        Err(e) => {
            return PrStep::Answer(CodeResponse::err(e));
        },
    };
    match &req.base {
        Some(base) => PrStep::Open(open_pull(ctx, req, repo.as_str(), base.as_str())),
        None => PrStep::ReadRepo(ctx.client.default_branch(ctx.org_slug.as_str(), repo.as_str())),
    }
}

/// The call that opens the pull request, once the repository has been read.
pub fn pr_branch_read(
    ctx: &ForgeContext,
    req: &ForgeOpenPrReq,
    reply: ForgeReply<ForgejoRepo>,
) -> (r: Result<ForgeCall, CodeError>)
    ensures
        match (own_repo(ctx.org_slug@, req.repo@), accepted(reply, "forge get repo"@)) {
            (None, _) => r matches Err(e) && cross_tenant(e),
            (Some(repo), Ok(found)) => r matches Ok(call) && call@ == pull_call(
                *ctx,
                *req,
                repo,
                found.default_branch@,
            ),
            (Some(_), Err(why)) => r matches Err(e) && call_failed(why, e),
        },
{
    let repo = match ensure_same_tenant(ctx, req.repo.as_str()) {
        Ok(repo) => repo,
        Err(e) => {
            return Err(e);
        },
    };
    match branch_read(reply) {
        Ok(base) => Ok(open_pull(ctx, req, repo.as_str(), base.as_str())),
        Err(e) => Err(internal(&e)),
    }
}

/// The answer once the forge has replied to the opening.
pub fn pr_answer(reply: ForgeReply<ForgejoPr>) -> (r: CodeResponse<ForgePrResp>)
    ensures
        r.wf(),
        match accepted(reply, "forge open_pr"@) {
            Ok(pr) => r.result matches Some(p) && p.number == pr.number && p.web_url == pr.html_url,
            Err(why) => r.error matches Some(e) && call_failed(why, e),
        },
{
    match pr_opened(reply) {
        Ok(pr) => CodeResponse::ok(pr),
        Err(e) => CodeResponse::err(internal(&e)),
    }
}

// ---------------------------------------------------------------------------
// Linking to a file
// ---------------------------------------------------------------------------

/// What linking to a file comes to next.
#[derive(Debug)]
pub enum UrlStep {
    Answer(CodeResponse<ForgeUrlResp>),
    /// Read the repository, for [`url_branch_read`].
    ReadRepo(ForgeCall),
}

/// `a` answers with the link to the file of `repo` at `git_ref`.
pub open spec fn links(
    ctx: ForgeContext,
    req: ForgeFileUrlReq,
    repo: Seq<char>,
    git_ref: Seq<char>,
    a: CodeResponse<ForgeUrlResp>,
) -> bool {
    a.wf() && a.result is Some && a.result->0.web_url@ == file_link(
        ctx.client@.root_url,
        ctx.org_slug@,
        repo,
        git_ref,
        req.path@,
    )
}

/// `step` begins linking to the file of `req`.
pub open spec fn begins_link(ctx: ForgeContext, req: ForgeFileUrlReq, step: UrlStep) -> bool {
    match (own_repo(ctx.org_slug@, req.repo@), opt_text(req.git_ref)) {
        (None, _) => step matches UrlStep::Answer(a) && a.wf() && a.error is Some && cross_tenant(
            a.error->0,
        ),
        (Some(repo), Some(git_ref)) => step matches UrlStep::Answer(a) && links(
            ctx,
            req,
            repo,
            git_ref,
            a,
        ),
        (Some(repo), None) => step matches UrlStep::ReadRepo(call) && call@ == ctx.client@.read(
            repo_path(ctx.org_slug@, repo),
        ),
    }
}

/// The first step of linking to a file. Without a ref it is the default branch
/// of the repository; with one there is no call.
pub fn forge_file_url(ctx: &ForgeContext, req: &ForgeFileUrlReq) -> (r: UrlStep)
    ensures
        begins_link(*ctx, *req, r),
{
    let repo = match ensure_same_tenant(ctx, req.repo.as_str()) {
        Ok(repo) => repo,
        Err(e) => {
            return UrlStep::Answer(CodeResponse::err(e));
        },
    };
    let org = ctx.org_slug.as_str();
    match &req.git_ref {
        Some(g) => {
            let url = ctx.client.file_url(org, repo.as_str(), g.as_str(), req.path.as_str());
            UrlStep::Answer(CodeResponse::ok(url))
        },
        None => UrlStep::ReadRepo(ctx.client.default_branch(org, repo.as_str())),
    }
}

/// The answer once the repository has been read.
pub fn url_branch_read(
    ctx: &ForgeContext,
    req: &ForgeFileUrlReq,
    reply: ForgeReply<ForgejoRepo>,
) -> (r: CodeResponse<ForgeUrlResp>)
    ensures
        r.wf(),
        match (own_repo(ctx.org_slug@, req.repo@), accepted(reply, "forge get repo"@)) {
            (None, _) => r.error matches Some(e) && cross_tenant(e),
            (Some(repo), Ok(found)) => links(*ctx, *req, repo, found.default_branch@, r),
            (Some(_), Err(why)) => r.error matches Some(e) && call_failed(why, e),
        },
{
    let repo = match ensure_same_tenant(ctx, req.repo.as_str()) {
        Ok(repo) => repo,
        Err(e) => {
            return CodeResponse::err(e);
        },
    };
    match branch_read(reply) {
        Ok(g) => CodeResponse::ok(
            ctx.client.file_url(
                ctx.org_slug.as_str(),
                repo.as_str(),
                g.as_str(),
                req.path.as_str(),
            ),
        ),
        Err(e) => CodeResponse::err(internal(&e)),
    }
}

// ---------------------------------------------------------------------------
// Registering a push capability
// ---------------------------------------------------------------------------

/// A push capability in the making: the repository, the name of the scoped token
/// and the call to begin with.
#[derive(Debug)]
pub struct PushCap {
    pub repo: String,
    pub token_name: String,
    /// The listing of the tokens, for [`push_token_listed`].
    pub call: ForgeCall,
}

/// The name of the token for pushing to `repo` in `org`.
pub open spec fn push_token_name(org: Seq<char>, repo: Seq<char>) -> Seq<char> {
    "broker-push-"@ + org + "-"@ + repo
}

/// Begins to register a push capability for `repo`.
pub fn register_forge_push_cap(ctx: &ForgeContext, repo: &str) -> (r: Result<PushCap, CodeError>)
    ensures
        match r {
            Ok(push) => {
                &&& own_repo(ctx.org_slug@, repo@) == Some(push.repo@)
                &&& push.token_name@ == push_token_name(ctx.org_slug@, push.repo@)
                &&& push.call@ == ctx.client@.list_tokens()
            },
            Err(e) => own_repo(ctx.org_slug@, repo@) is None && cross_tenant(e),
        },
{
    match ensure_same_tenant(ctx, repo) {
        Ok(repo) => {
            let mut token_name = "broker-push-".to_owned();
            token_name.append(ctx.org_slug.as_str());
            token_name.append("-");
            token_name.append(repo.as_str());
            let call = ctx.client.ensure_scoped_token();
            Ok(PushCap { repo, token_name, call })
        },
        Err(e) => Err(e),
    }
}

/// What follows the listing of the tokens: the minting, after the deletion of a
/// token that has the name already.
pub fn push_token_listed(
    ctx: &ForgeContext,
    push: &PushCap,
    reply: &ForgeReply<Vec<ForgejoToken>>,
) -> (r: Result<Minting, CodeError>)
    ensures
        match r {
            Ok(m) => !(reply is Failed) && ctx.client@.mints(
                push.token_name@,
                lists(*reply, push.token_name@),
                m,
            ),
            Err(e) => *reply matches ForgeReply::Failed(why) && call_failed(why@, e),
        },
{
    match ctx.client.token_listed(push.token_name.as_str(), reply) {
        Ok(next) => Ok(next),
        Err(e) => Err(internal(&e)),
    }
}

/// How long a push capability is good for, in nanoseconds.
pub open spec fn push_cap_nanos() -> int {
    FORGE_PUSH_CAP_TTL * 1_000_000_000
}

/// The session that a push capability made at `now` stands for. The token is
/// kept beside the clone URL and not in it.
pub open spec fn push_session(clone_url: Seq<char>, token: Seq<char>, now: u64) -> EntryView {
    EntryView { upstream_url: clone_url, token, expires_at: (now + push_cap_nanos()) as u64 }
}

/// Registers the capability `cap` with the scoped token, for the time that a
/// push capability is good for.
pub fn register_cap(
    sessions: &mut GitSessions,
    cap: String,
    clone_url: &str,
    token: String,
    now: u64,
)
    requires
        now + push_cap_nanos() <= u64::MAX,
    ensures
        final(sessions)@ == old(sessions)@.insert(cap@, push_session(clone_url@, token@, now)),
{
    let entry = GitSessionEntry {
        upstream_url: clone_url.to_owned(),
        token,
        expires_at: now + FORGE_PUSH_CAP_TTL * 1_000_000_000,
    };
    sessions.register(cap, entry);
}

/// Registers a fresh push capability once the forge has replied to the minting
/// of the token, at `now`, and returns it.
pub fn push_cap_minted(
    sessions: &mut GitSessions,
    ctx: &ForgeContext,
    push: &PushCap,
    clone_url: &str,
    now: u64,
    reply: ForgeReply<ForgejoToken>,
) -> (r: Result<String, CodeError>)
    requires
        now + push_cap_nanos() <= u64::MAX,
    ensures
        match (accepted(reply, "forge mint scoped token"@), r) {
            (Ok(token), Ok(cap)) => {
                &&& token.sha1@.len() > 0
                &&& cap_shaped(cap@)
                &&& exists|a: Seq<char>, b: Seq<char>|
                    random_uuid(a) && random_uuid(b) && cap@ == #[trigger] cap_text(
                        ctx.org_slug@,
                        push.repo@,
                        a,
                        b,
                    )
                &&& final(sessions)@ == old(sessions)@.insert(
                    cap@,
                    push_session(clone_url@, token.sha1@, now),
                )
            },
            (Ok(token), Err(e)) => {
                &&& token.sha1@.len() == 0
                &&& call_failed("forge scoped token response missing sha1"@, e)
                &&& final(sessions)@ == old(sessions)@
            },
            (Err(why), Err(e)) => call_failed(why, e) && final(sessions)@ == old(sessions)@,
            (Err(_), Ok(_)) => false,
        },
{
    match token_minted(reply) {
        Ok(token) => {
            let cap = generate_forge_cap(ctx.org_slug.as_str(), push.repo.as_str());
            register_cap(sessions, cap.clone(), clone_url, token, now);
            Ok(cap)
        },
        Err(e) => Err(internal(&e)),
    }
}

// ---------------------------------------------------------------------------
// Laws
// ---------------------------------------------------------------------------

/// A repository is refused exactly if it is named with a prefix that is not the
/// organisation of the workspace, or if a segment of its name is read as `.` or
/// `..`.
pub proof fn law_only_other_orgs_are_refused(org: Seq<char>, repo: Seq<char>)
    ensures
        own_repo(org, repo) is None <==> (match split_at_first(repo, "/"@) {
            Some((prefix, name)) => prefix != org || !stays_put(name),
            None => !stays_put(repo),
        }),
{
}

/// `all`, the segments of a path as they are read, lead into the repository of
/// `org` whose name is read as `name`: they are `first`, the organisation, the
/// name and `last`, and none of them is `.` or `..`.
pub open spec fn lead_into(
    all: Seq<Seq<char>>,
    first: Seq<Seq<char>>,
    org: Seq<char>,
    name: Seq<Seq<char>>,
    last: Seq<Seq<char>>,
) -> bool {
    all == first + seq![org] + name + last && no_dots(all)
}

/// Every call for a repository goes to the organisation of the workspace,
/// however the repository was named: in the path of its URL the organisation and
/// the segments of the name follow `repos`, and no segment leads out of them. A
/// link to a file leads into the repository in the same way. What follows a
/// query or a fragment in the name is not read as path any more.
pub proof fn law_calls_stay_in_the_org(
    ctx: ForgeContext,
    req: ForgeOpenPrReq,
    repo: Seq<char>,
    name: Seq<char>,
    base: Seq<char>,
    path: Seq<char>,
)
    requires
        plain(ctx.org_slug@),
        own_repo(ctx.org_slug@, repo) == Some(name),
    ensures
        ctx.client@.read(repo_path(ctx.org_slug@, name)).url == ctx.client@.api(
            repo_path(ctx.org_slug@, name),
        ),
        lead_into(
            segments(read_at_end(repo_path(ctx.org_slug@, name))),
            seq![""@, "repos"@],
            ctx.org_slug@,
            segments(read_at_end(name)),
            seq![],
        ),
        pull_call(ctx, req, name, base).url == ctx.client@.api(
            repo_path(ctx.org_slug@, name) + "/pulls"@,
        ),
        lead_into(
            segments(read_at_end(repo_path(ctx.org_slug@, name) + "/pulls"@)),
            seq![""@, "repos"@],
            ctx.org_slug@,
            segments(read_inside(name)),
            if has_query(name) {
                seq![]
            } else {
                seq!["pulls"@]
            },
        ),
        file_link(ctx.client@.root_url, ctx.org_slug@, name, base, path) == without_trailing(
            ctx.client@.root_url,
            '/',
        ) + ("/"@ + ctx.org_slug@ + "/"@ + name) + "/src/"@ + base + "/"@ + without_leading(
            path,
            '/',
        ),
        lead_into(
            segments(read_inside("/"@ + ctx.org_slug@ + "/"@ + name)),
            seq![""@],
            ctx.org_slug@,
            segments(read_inside(name)),
            seq![],
        ),
{
    reveal_strlit("");
    reveal_strlit("/");
    reveal_strlit("repos");
    reveal_strlit("pulls");
    reveal_strlit("/repos/");
    reveal_strlit("/pulls");
    reveal_strlit(".");
    reveal_strlit("..");
    let org = ctx.org_slug@;
    let none = ""@;
    assert("."@.len() == 1 && ".."@.len() == 2);
    assert(none.len() == 0 && "repos"@.len() == 5 && "pulls"@.len() == 5);
    assert(plain(none));
    assert(plain("repos"@));
    assert(plain("pulls"@));
    lemma_plain(none);
    lemma_plain("repos"@);
    lemma_plain("pulls"@);
    lemma_plain(org);
    let inside = segments(read_inside(name));
    let at_end = segments(read_at_end(name));
    let first = seq![none, "repos"@];

    let home = none + "/"@ + "repos"@ + "/"@ + org;
    lemma_read_join(none, "repos"@);
    lemma_read_join(none + "/"@ + "repos"@, org);
    assert(segments(read_inside(home)) == first + seq![org]);
    lemma_read_join(home, name);
    lemma_read_join(home, without_blank_end(name));
    let p = repo_path(org, name);
    assert(p == home + "/"@ + name);
    assert(segments(read_at_end(p)) == first + seq![org] + at_end + seq![]);

    lemma_read_join(p, "pulls"@);
    assert(p + "/pulls"@ == p + "/"@ + "pulls"@);
    let last = if has_query(name) {
        seq![]
    } else {
        seq!["pulls"@]
    };
    assert(segments(read_at_end(p + "/pulls"@)) == first + seq![org] + inside + last);

    lemma_read_join(none, org);
    lemma_read_join(none + "/"@ + org, name);
    let l = "/"@ + org + "/"@ + name;
    assert(l == none + "/"@ + org + "/"@ + name);
    assert(segments(read_inside(l)) == seq![none] + seq![org] + inside + seq![]);

    let link = file_link(ctx.client@.root_url, org, name, base, path);
    assert(link == without_trailing(ctx.client@.root_url, '/') + l + "/src/"@ + base + "/"@
        + without_leading(path, '/'));
    lemma_no_dots(first, org, at_end, seq![]);
    lemma_no_dots(first, org, inside, last);
    lemma_no_dots(seq![none], org, inside, seq![]);
}

/// Segments that are put together hold no dot segment if none of them does.
proof fn lemma_no_dots(
    first: Seq<Seq<char>>,
    org: Seq<char>,
    name: Seq<Seq<char>>,
    last: Seq<Seq<char>>,
)
    requires
        no_dots(first),
        !dot_segment(org),
        no_dots(name),
        no_dots(last),
    ensures
        no_dots(first + seq![org] + name + last),
{
    let all = first + seq![org] + name + last;
    let a = first.len() as int;
    let b = a + 1 + name.len();
    assert forall|i: int| 0 <= i < all.len() implies !dot_segment(#[trigger] all[i]) by {
        if i < a {
            assert(all[i] == first[i]);
        } else if a < i < b {
            assert(all[i] == name[i - a - 1]);
        } else if b <= i {
            assert(all[i] == last[i - b]);
        }
    }
}

/// A registered push capability gives back the clone URL and the token from the
/// moment of its registration until its time is over, and nothing after that.
pub proof fn law_push_cap_resolves_until_it_expires(
    sessions: Map<Seq<char>, EntryView>,
    cap: Seq<char>,
    clone_url: Seq<char>,
    token: Seq<char>,
    now: u64,
    later: u64,
)
    requires
        now + push_cap_nanos() <= u64::MAX,
        now <= later,
    ensures
        resolved(sessions.insert(cap, push_session(clone_url, token, now)), cap, later) == (
        if later <= now + push_cap_nanos() {
            Some((clone_url, token))
        } else {
            None
        }),
{
}

} // verus!
