//! What a request comes to: an answer, a refusal, or the first step of an
//! operation that reaches outside.

use vstd::prelude::*;
use vstd::string::*;

use crate::contract::{
    CodeError, CodeErrorCode, CodeResponse, ForgeFileUrlReq, ForgeOpenPrReq, ForgeProvisionReq,
    GitOp, ListCapsResp,
};
use crate::creds::{covers, overwritten, Creds, CredsView, OwnerView};
use crate::forge::{provision_call, provision_repo, ForgeCfg};
use crate::forge::client::{org_repos_path, ClientView, ForgeCall, ForgeClient};
use crate::forge::handler::{
    begins_link, begins_pr, forge_file_url, forge_list_repos, forge_open_pr, ForgeContext, PrStep,
    UrlStep,
};
use crate::git_ops::{confined, planned, remote_of, repo_refused, run_git_op, GitRun};
use crate::lines::texts;
use crate::order::ascending;
use crate::request::BrokerRequest;
use crate::search::{contains, has_text};

verus! {

/// What a request comes to.
pub enum Step {
    /// Answer with these names.
    Answer(ListCapsResp),
    /// Answer with this error.
    Refuse(CodeError),
    /// Run a git command, for `git_ops::git_op_output`.
    RunGit { run: GitRun, op: GitOp },
    /// Create a repository, for `forge::repo_provisioned`.
    CreateRepo { call: ForgeCall, req: ForgeProvisionReq },
    /// List repositories, for `forge::handler::list_repos_answer`.
    ListRepos { call: ForgeCall },
    /// Go on with opening a pull request.
    OpenPr { ctx: ForgeContext, req: ForgeOpenPrReq, step: PrStep },
    /// Go on with linking to a file.
    LinkFile { ctx: ForgeContext, req: ForgeFileUrlReq, step: UrlStep },
    /// Every credential was dropped: answer so. The buffers are those of the
    /// credentials, overwritten.
    Dropped { answer: ListCapsResp, wiped: Vec<Vec<u8>> },
    /// Append a key, for [`add_key_answer`].
    AppendKey { pubkey: String },
}

/// The client of the workspace: the configured forge with the held owner
/// credentials. Shareable links begin where the API is.
pub open spec fn client_of(cfg: ForgeCfg, owner: OwnerView) -> ClientView {
    ClientView {
        base_url: cfg.base_url@,
        root_url: cfg.base_url@,
        admin_token: owner.admin_token,
        owner_user: owner.owner_user,
        owner_password: owner.owner_password,
    }
}

/// `ctx` is the forge of the workspace, with the configured organisation.
pub open spec fn forge_of(cfg: ForgeCfg, owner: OwnerView, ctx: ForgeContext) -> bool {
    ctx.org_slug == cfg.org && ctx.client@ == client_of(cfg, owner)
}

/// `e` says that there is no forge to use: it is not configured, or there are no
/// owner credentials.
pub open spec fn no_forge(cfg: Option<ForgeCfg>, owner: Option<OwnerView>, e: CodeError) -> bool {
    if cfg is None {
        e.says(CodeErrorCode::NeedsCredential, "forge not configured"@)
    } else {
        owner is None && e.says(CodeErrorCode::NeedsCredential, "forge not provisioned"@)
    }
}

/// The forge of the workspace.
pub fn forge_context(creds: &Creds, cfg: Option<ForgeCfg>) -> (r: Result<ForgeContext, CodeError>)
    ensures
        match r {
            Ok(ctx) => cfg is Some && creds@.owner is Some && forge_of(
                cfg->0,
                creds@.owner->0,
                ctx,
            ),
            Err(e) => no_forge(cfg, creds@.owner, e),
        },
{
    let cfg = match cfg {
        Some(cfg) => cfg,
        None => {
            return Err(CodeError::new(CodeErrorCode::NeedsCredential, "forge not configured"));
        },
    };
    let owner = match creds.forge_owner() {
        Some(owner) => owner,
        None => {
            return Err(CodeError::new(CodeErrorCode::NeedsCredential, "forge not provisioned"));
        },
    };
    let root_url = cfg.base_url.clone();
    let client = ForgeClient::new(
        cfg.base_url,
        root_url,
        owner.admin_token.clone(),
        owner.owner_user.clone(),
        owner.owner_password.clone(),
    );
    Ok(ForgeContext { org_slug: cfg.org, client })
}

/// What is held after a request.
pub open spec fn held_after(
    creds: CredsView,
    request: Result<BrokerRequest, String>,
) -> CredsView {
    match request {
        Ok(BrokerRequest::PreSnapshotScrub) => CredsView::nothing(),
        _ => creds,
    }
}

/// `request` comes to `step`, where `creds` are held. An `Err` is a line that is
/// no request, with the reason.
pub open spec fn comes_to(
    creds: CredsView,
    cfg: Option<ForgeCfg>,
    projects_root: Seq<char>,
    request: Result<BrokerRequest, String>,
    step: Step,
) -> bool {
    match request {
        Err(why) => step matches Step::Refuse(e) && e.says(
            CodeErrorCode::Invalid,
            "bad request"@ + ": "@ + why@,
        ),
        Ok(BrokerRequest::ListCaps) => step matches Step::Answer(a) && ascending(texts(a.caps@))
            && texts(a.caps@).to_set() == creds.names(),
        Ok(BrokerRequest::GitOp(req)) => match step {
            Step::RunGit { run, op } => confined(req.repo@) && planned(
                creds,
                projects_root,
                req,
                run,
            ) && op == req.op,
            Step::Refuse(e) => repo_refused(req.repo@, e),
            _ => false,
        },
        Ok(BrokerRequest::ForgeProvision(req)) => if cfg is Some && creds.admin_token is Some {
            step matches Step::CreateRepo { call, req: r } && r == req && call@ == provision_call(
                creds.admin_token->0,
                cfg->0,
                req,
            )
        } else {
            step matches Step::Refuse(e) && e.says(
                CodeErrorCode::NeedsCredential,
                if cfg is None {
                    "forge not configured"@
                } else {
                    "forge not provisioned"@
                },
            )
        },
        Ok(BrokerRequest::AddSshKey(req)) => step matches Step::AppendKey { pubkey } && pubkey
            == req.pubkey,
        Ok(BrokerRequest::PreSnapshotScrub) => step matches Step::Dropped { answer, .. }
            && answer.caps@.len() == 0,
        Ok(BrokerRequest::ForgeList) => match step {
            Step::ListRepos { call } => cfg is Some && creds.owner is Some && call@ == client_of(
                cfg->0,
                creds.owner->0,
            ).read(org_repos_path(cfg->0.org@)),
            Step::Refuse(e) => no_forge(cfg, creds.owner, e),
            _ => false,
        },
        Ok(BrokerRequest::ForgeOpenPr(req)) => match step {
            Step::OpenPr { ctx, req: r, step } => cfg is Some && creds.owner is Some && forge_of(
                cfg->0,
                creds.owner->0,
                ctx,
            ) && r == req && begins_pr(ctx, req, step),
            Step::Refuse(e) => no_forge(cfg, creds.owner, e),
            _ => false,
        },
        Ok(BrokerRequest::ForgeFileUrl(req)) => match step {
            Step::LinkFile { ctx, req: r, step } => cfg is Some && creds.owner is Some && forge_of(
                cfg->0,
                creds.owner->0,
                ctx,
            ) && r == req && begins_link(ctx, req, step),
            Step::Refuse(e) => no_forge(cfg, creds.owner, e),
            _ => false,
        },
    }
}

/// What a request comes to. An `Err` is a line that is no request, with the
/// reason.
pub fn dispatch(
    creds: &mut Creds,
    cfg: Option<ForgeCfg>,
    projects_root: &str,
    request: Result<BrokerRequest, String>,
) -> (r: Step)
    ensures
        final(creds)@ == held_after(old(creds)@, request),
        comes_to(old(creds)@, cfg, projects_root@, request, r),
        r matches Step::Dropped { wiped, .. } ==> covers(old(creds).secrets(), old(creds)@)
            && overwritten(old(creds).secrets(), wiped@),
{
    match request {
        Err(why) => Step::Refuse(
            CodeError::with_detail(CodeErrorCode::Invalid, "bad request", why.as_str()),
        ),
        Ok(BrokerRequest::ListCaps) => Step::Answer(ListCapsResp { caps: creds.cap_names() }),
        Ok(BrokerRequest::GitOp(req)) => match run_git_op(creds, projects_root, &req) {
            Ok(run) => Step::RunGit { run, op: req.op },
            Err(e) => Step::Refuse(e),
        },
        Ok(BrokerRequest::ForgeProvision(req)) => match cfg {
            Some(cfg) => match provision_repo(creds, &cfg, &req) {
                Ok(call) => Step::CreateRepo { call, req },
                Err(e) => Step::Refuse(e),
            },
            None => Step::Refuse(
                CodeError::new(CodeErrorCode::NeedsCredential, "forge not configured"),
            ),
        },
        Ok(BrokerRequest::AddSshKey(req)) => Step::AppendKey { pubkey: req.pubkey },
        Ok(BrokerRequest::PreSnapshotScrub) => {
            let wiped = creds.scrub();
            Step::Dropped { answer: ListCapsResp { caps: Vec::new() }, wiped }
        },
        Ok(BrokerRequest::ForgeList) => match forge_context(creds, cfg) {
            Ok(ctx) => Step::ListRepos { call: forge_list_repos(&ctx) },
            Err(e) => Step::Refuse(e),
        },
        Ok(BrokerRequest::ForgeOpenPr(req)) => match forge_context(creds, cfg) {
            Ok(ctx) => {
                let step = forge_open_pr(&ctx, &req);
                Step::OpenPr { ctx, req, step }
            },
            Err(e) => Step::Refuse(e),
        },
        Ok(BrokerRequest::ForgeFileUrl(req)) => match forge_context(creds, cfg) {
            Ok(ctx) => {
                let step = forge_file_url(&ctx, &req);
                Step::LinkFile { ctx, req, step }
            },
            Err(e) => Step::Refuse(e),
        },
    }
}

/// The answer once a key has been appended, or could not be.
pub fn add_key_answer(appended: Result<(), CodeError>) -> (r: CodeResponse<ListCapsResp>)
    ensures
        r.wf(),
        match appended {
            Ok(_) => r.result is Some && r.result->0.caps@.len() == 0,
            Err(e) => r.error == Some(e),
        },
{
    match appended {
        Ok(()) => CodeResponse::ok(ListCapsResp { caps: Vec::new() }),
        Err(e) => CodeResponse::err(e),
    }
}

/// The line that asks the broker to drop every credential.
pub const SCRUB_LINE: &'static str = "{\"kind\":\"pre_snapshot_scrub\"}\n";

/// Whether the broker's answer says that it dropped every credential.
pub fn scrub_acknowledged(line: &str) -> (r: bool)
    ensures
        r == contains(line@, "\"ok\":true"@),
{
    has_text(line, "\"ok\":true")
}

/// Once every credential has been dropped, no operation is made with one: a git
/// command gets no capability URL, the forge operations are refused for want of
/// credentials, and no name is listed.
pub proof fn law_nothing_held_does_nothing(
    before: CredsView,
    cfg: Option<ForgeCfg>,
    projects_root: Seq<char>,
    request: BrokerRequest,
    step: Step,
)
    requires
        comes_to(
            held_after(before, Ok(BrokerRequest::PreSnapshotScrub)),
            cfg,
            projects_root,
            Ok(request),
            step,
        ),
    ensures
        request is ListCaps ==> (step matches Step::Answer(a) && a.caps@.len() == 0),
        request matches BrokerRequest::GitOp(req) ==> (match step {
            Step::RunGit { run, .. } => run.cap_url is None && remote_of(
                CredsView::nothing(),
                req.repo@,
            ) == "origin"@,
            Step::Refuse(e) => repo_refused(req.repo@, e),
            _ => false,
        }),
        request is ForgeProvision || request is ForgeList || request is ForgeOpenPr
            || request is ForgeFileUrl ==> (step matches Step::Refuse(e) && e.code
            == CodeErrorCode::NeedsCredential),
{
    if request is ListCaps {
        if let Step::Answer(a) = step {
            crate::creds::law_nothing_held_lists_nothing(texts(a.caps@));
        }
    }
}

/// Only a request to drop the credentials changes what is held.
pub proof fn law_requests_keep_what_is_held(
    creds: CredsView,
    request: Result<BrokerRequest, String>,
)
    requires
        !(request matches Ok(BrokerRequest::PreSnapshotScrub)),
    ensures
        held_after(creds, request) == creds,
{
}

} // verus!
