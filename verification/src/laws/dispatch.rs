//! What each request comes to.

use vstd::prelude::*;
use vstd::string::*;

use crate::contract::{
    CodeError, CodeErrorCode, CodeResponse, ForgeFileUrlReq, ForgeOpenPrReq, ForgeProvisionReq,
    GitOpReq, ListCapsResp,
};
use crate::creds::{Creds, ForgeOwnerCreds};
use crate::dispatch::{add_key_answer, dispatch, forge_context, scrub_acknowledged, Step};
use crate::forge::{provision_repo, ForgeCfg};
use crate::forge::client::{ForgeCall, ForgeMethod};
use crate::forge::handler::{ensure_same_tenant, ForgeContext};
use crate::git_ops::{run_git_op, GitRun};
use crate::laws::creds::some_zeroed;
use crate::laws::forge::Forge;
use crate::laws::git::lemma_texts;
use crate::laws::handler::{answers_link, opens};
use crate::laws::text::{lemma_without_run_before, lemma_without_run_behind, run_of};
use crate::lines::texts;
use crate::order::lemma_ascending_unique;
use crate::request::{AddSshKeyReq, BrokerRequest};
use crate::search::occurs_at;

verus! {

/// Every request but that to drop the credentials leaves each of them as it was.
pub proof fn law_requests_keep_the_creds(
    creds: &mut Creds,
    cfg: Option<ForgeCfg>,
    root: &str,
    request: Result<BrokerRequest, String>,
    step: Step,
    repo: &str,
    url: Option<&str>,
    token: Option<&str>,
    owner: Option<&ForgeOwnerCreds>,
    url_after: Option<&str>,
    token_after: Option<&str>,
    owner_after: Option<&ForgeOwnerCreds>,
)
    requires
        call_ensures(Creds::git_cap_url, (&*old(creds), repo), url),
        call_ensures(Creds::forge_admin_token, (&*old(creds),), token),
        call_ensures(Creds::forge_owner, (&*old(creds),), owner),
        call_ensures(dispatch, (creds, cfg, root, request), step),
        call_ensures(Creds::git_cap_url, (&*final(creds), repo), url_after),
        call_ensures(Creds::forge_admin_token, (&*final(creds),), token_after),
        call_ensures(Creds::forge_owner, (&*final(creds),), owner_after),
    ensures
        request is Err || !(request->Ok_0 is PreSnapshotScrub) ==> {
            &&& url is Some == url_after is Some
            &&& url is Some ==> url->0@ == url_after->0@
            &&& token is Some == token_after is Some
            &&& token is Some ==> token->0@ == token_after->0@
            &&& owner is Some == owner_after is Some
            &&& owner is Some ==> owner->0@ == owner_after->0@
        },
        request is Ok && request->Ok_0 is PreSnapshotScrub ==> {
            &&& url_after is None && token_after is None && owner_after is None
            &&& step is Dropped && step->answer.caps@.len() == 0
            &&& url matches Some(u) ==> some_zeroed(step->wiped@, u@)
            &&& token matches Some(t) ==> some_zeroed(step->wiped@, t@)
            &&& owner matches Some(o) ==> some_zeroed(step->wiped@, o.owner_user@) && some_zeroed(
                step->wiped@,
                o.owner_password@,
            ) && some_zeroed(step->wiped@, o.admin_token@)
        },
{
    if request is Ok && request->Ok_0 is PreSnapshotScrub {
        let all = old(creds).secrets();
        let w = step->wiped@;
        if let Some(u) = url {
            assert(old(creds)@.caps.contains_key(repo@));
            let k = choose|k: int| 0 <= k < all.len() && all[k] == u@;
            assert(crate::laws::creds::zeroed(w[k], u@));
        }
        if let Some(t) = token {
            let k = choose|k: int| 0 <= k < all.len() && all[k] == t@;
            assert(crate::laws::creds::zeroed(w[k], t@));
        }
        if let Some(o) = owner {
            let k = choose|k: int| 0 <= k < all.len() && all[k] == o.owner_user@;
            assert(crate::laws::creds::zeroed(w[k], o.owner_user@));
            let k = choose|k: int| 0 <= k < all.len() && all[k] == o.owner_password@;
            assert(crate::laws::creds::zeroed(w[k], o.owner_password@));
            let k = choose|k: int| 0 <= k < all.len() && all[k] == o.admin_token@;
            assert(crate::laws::creds::zeroed(w[k], o.admin_token@));
        }
    }
}

/// A line that is no request is refused with the reason.
pub proof fn law_bad_line_is_refused(
    creds: &mut Creds,
    cfg: Option<ForgeCfg>,
    root: &str,
    why: String,
    step: Step,
)
    requires
        call_ensures(dispatch, (creds, cfg, root, Err::<BrokerRequest, String>(why)), step),
    ensures
        step is Refuse,
        step->Refuse_0.code == CodeErrorCode::Invalid,
        step->Refuse_0.message@ == "bad request"@ + ": "@ + why@,
{
}

/// A request for the held names is answered with them.
pub proof fn law_names_are_answered(
    creds: &mut Creds,
    cfg: Option<ForgeCfg>,
    root: &str,
    step: Step,
    names: Vec<String>,
)
    requires
        call_ensures(
            dispatch,
            (creds, cfg, root, Ok::<BrokerRequest, String>(BrokerRequest::ListCaps)),
            step,
        ),
        call_ensures(Creds::cap_names, (&*old(creds),), names),
    ensures
        step is Answer,
        step->Answer_0.caps@.len() == names@.len(),
        forall|i: int|
            0 <= i < names@.len() ==> (#[trigger] names@[i])@ == step->Answer_0.caps@[i]@,
{
    let a = step->Answer_0.caps@;
    lemma_ascending_unique(texts(a), texts(names@));
    lemma_texts(a, texts(names@));
    lemma_texts(names@, texts(names@));
}

/// A git operation comes to the command for it, or to the refusal.
pub proof fn law_git_request_runs_the_command(
    creds: &mut Creds,
    cfg: Option<ForgeCfg>,
    root: &str,
    req: GitOpReq,
    step: Step,
    planned_run: Result<GitRun, CodeError>,
)
    requires
        call_ensures(
            dispatch,
            (creds, cfg, root, Ok::<BrokerRequest, String>(BrokerRequest::GitOp(req))),
            step,
        ),
        call_ensures(run_git_op, (&*old(creds), root, &req), planned_run),
    ensures
        match planned_run {
            Ok(run) => {
                &&& step is RunGit && step->op == req.op
                &&& step->run.args@.len() == run.args@.len()
                &&& forall|i: int|
                    0 <= i < run.args@.len() ==> (#[trigger] run.args@[i])@
                        == step->run.args@[i]@
                &&& step->run.cwd@ == run.cwd@
                &&& step->run.work@ == run.work@
                &&& step->run.cap_url is Some == run.cap_url is Some
                &&& run.cap_url is Some ==> step->run.cap_url->0@ == run.cap_url->0@
            },
            Err(e) => step is Refuse && step->Refuse_0.code == e.code && step->Refuse_0.message@
                == e.message@,
        },
{
    if let Ok(run) = planned_run {
        lemma_texts(run.args@, texts(run.args@));
        lemma_texts(step->run.args@, texts(step->run.args@));
    }
}

/// The creation of a repository comes to the call for it, with the request that
/// it is for; without a configured forge or an admin token it is refused.
pub proof fn law_provision_request_creates_the_repo(
    creds: &mut Creds,
    cfg: Option<ForgeCfg>,
    root: &str,
    req: ForgeProvisionReq,
    step: Step,
    forge: ForgeCfg,
    made: Result<ForgeCall, CodeError>,
)
    requires
        call_ensures(
            dispatch,
            (creds, cfg, root, Ok::<BrokerRequest, String>(BrokerRequest::ForgeProvision(req))),
            step,
        ),
        call_ensures(provision_repo, (&*old(creds), &forge, &req), made),
    ensures
        cfg is None ==> step is Refuse && step->Refuse_0.code == CodeErrorCode::NeedsCredential
            && step->Refuse_0.message@ == "forge not configured"@,
        cfg == Some(forge) ==> match made {
            Ok(call) => {
                &&& step is CreateRepo
                &&& step->CreateRepo_req == req
                &&& step->CreateRepo_call.method == call.method
                &&& step->CreateRepo_call.url@ == call.url@
                &&& step->CreateRepo_call.auth@ == call.auth@
                &&& step->CreateRepo_call.query_ref is None
                &&& step->CreateRepo_call.body is Repo && call.body is Repo
                &&& step->CreateRepo_call.body->Repo_name@ == call.body->Repo_name@
                &&& step->CreateRepo_call.body->private == call.body->private
                &&& step->CreateRepo_call.body->description@ == call.body->description@
                &&& step->CreateRepo_call.body->auto_init == call.body->auto_init
            },
            Err(e) => step is Refuse && step->Refuse_0.code == e.code && step->Refuse_0.message@
                == e.message@,
        },
{
}

/// A key is handed on as it was submitted, to be appended.
pub proof fn law_key_request_appends_the_key(
    creds: &mut Creds,
    cfg: Option<ForgeCfg>,
    root: &str,
    req: AddSshKeyReq,
    step: Step,
)
    requires
        call_ensures(
            dispatch,
            (creds, cfg, root, Ok::<BrokerRequest, String>(BrokerRequest::AddSshKey(req))),
            step,
        ),
    ensures
        step is AppendKey,
        step->pubkey@ == req.pubkey@,
{
}

/// The answer to an appended key holds no names, and a failure is told.
pub proof fn law_appended_key_is_answered(
    appended: Result<(), CodeError>,
    r: CodeResponse<ListCapsResp>,
)
    requires
        call_ensures(add_key_answer, (appended,), r),
    ensures
        appended is Ok ==> r.ok && r.error is None && r.result is Some && r.result->0.caps@.len()
            == 0,
        appended matches Err(e) ==> !r.ok && r.result is None && r.error == Some(e),
{
}

/// The broker acknowledges that it dropped the credentials exactly if its answer
/// says so somewhere.
pub proof fn law_acknowledgement_is_looked_for(line: &str, r: bool)
    requires
        call_ensures(scrub_acknowledged, (line,), r),
    ensures
        r <==> exists|a: Seq<char>, b: Seq<char>|
            line@ == #[trigger] (a + "\"ok\":true"@ + b),
{
    let p = "\"ok\":true"@;
    if r {
        let i = choose|i: int| occurs_at(line@, p, i);
        let a = line@.take(i);
        let b = line@.skip(i + p.len());
        assert(line@ == a + p + b) by {
            assert(line@.subrange(i, i + p.len()) == p);
            assert(line@ =~= line@.take(i) + line@.subrange(i, i + p.len()) + line@.skip(
                i + p.len(),
            ));
        }
    }
    if exists|a: Seq<char>, b: Seq<char>| line@ == #[trigger] (a + p + b) {
        let (a, b) = choose|a: Seq<char>, b: Seq<char>| line@ == #[trigger] (a + p + b);
        assert(line@.subrange(a.len() as int, a.len() as int + p.len()) == p);
        assert(occurs_at(line@, p, a.len() as int));
    }
}

/// `f` is made of the configured forge and the held owner credentials: links begin
/// where the API is.
pub open spec fn configured(f: Forge, cfg: ForgeCfg, owner: ForgeOwnerCreds) -> bool {
    &&& f.made()
    &&& f.base_url@ == cfg.base_url@
    &&& f.root_url@ == cfg.base_url@
    &&& f.admin_token@ == owner.admin_token@
    &&& f.owner_user@ == owner.owner_user@
    &&& f.owner_password@ == owner.owner_password@
}

/// `e` refuses a request for want of a forge: it is not configured, or the
/// owner credentials are not held.
pub open spec fn refused_without_forge(cfg: Option<ForgeCfg>, e: CodeError) -> bool {
    &&& e.code == CodeErrorCode::NeedsCredential
    &&& cfg is None ==> e.message@ == "forge not configured"@
    &&& cfg is Some ==> e.message@ == "forge not provisioned"@
}

/// The forge of the workspace is there exactly if it is configured and its owner
/// credentials are held; it has the configured organisation and acts with those
/// credentials.
pub proof fn law_forge_takes_config_and_owner(
    creds: &Creds,
    cfg: Option<ForgeCfg>,
    r: Result<ForgeContext, CodeError>,
    owner: Option<&ForgeOwnerCreds>,
    f: Forge,
)
    requires
        call_ensures(forge_context, (creds, cfg), r),
        call_ensures(Creds::forge_owner, (creds,), owner),
        cfg is Some && owner is Some ==> configured(f, cfg->0, *owner->0),
    ensures
        r is Ok <==> cfg is Some && owner is Some,
        r matches Ok(ctx) ==> ctx.org_slug@ == cfg->0.org@ && ctx.client@ == f.client@,
        r matches Err(e) ==> refused_without_forge(cfg, e),
{
}

/// A listing of the repositories comes to the call for it, in the configured
/// organisation and with the held admin token.
pub proof fn law_list_request_lists_the_org(
    creds: &mut Creds,
    cfg: Option<ForgeCfg>,
    root: &str,
    step: Step,
    owner: Option<&ForgeOwnerCreds>,
    f: Forge,
)
    requires
        call_ensures(
            dispatch,
            (creds, cfg, root, Ok::<BrokerRequest, String>(BrokerRequest::ForgeList)),
            step,
        ),
        call_ensures(Creds::forge_owner, (&*old(creds),), owner),
        cfg is Some && owner is Some ==> configured(f, cfg->0, *owner->0),
    ensures
        cfg is Some && owner is Some ==> {
            &&& step is ListRepos
            &&& f.as_admin(
                step->ListRepos_call,
                ForgeMethod::Get,
                "/orgs/"@ + cfg->0.org@ + "/repos"@,
            )
            &&& step->ListRepos_call.query_ref is None && step->ListRepos_call.body is Nothing
        },
        cfg is None || owner is None ==> step is Refuse && refused_without_forge(
            cfg,
            step->Refuse_0,
        ),
{
    if cfg is Some && owner is Some {
        lemma_without_run_behind(f.base, '/', f.base_slashes);
    }
}

/// The opening of a pull request comes to the call that opens it, with every part
/// of the request, or to the reading of the repository if it has no base.
pub proof fn law_pull_request_is_begun(
    creds: &mut Creds,
    cfg: Option<ForgeCfg>,
    root: &str,
    req: ForgeOpenPrReq,
    step: Step,
    owner: Option<&ForgeOwnerCreds>,
    f: Forge,
    ctx: &ForgeContext,
    repo: &str,
    own: Result<String, CodeError>,
)
    requires
        call_ensures(
            dispatch,
            (creds, cfg, root, Ok::<BrokerRequest, String>(BrokerRequest::ForgeOpenPr(req))),
            step,
        ),
        call_ensures(Creds::forge_owner, (&*old(creds),), owner),
        cfg is Some && owner is Some ==> configured(f, cfg->0, *owner->0) && ctx.org_slug@
            == cfg->0.org@,
        repo@ == req.repo@,
        call_ensures(ensure_same_tenant, (ctx, repo), own),
    ensures
        cfg is Some && owner is Some ==> {
            &&& step is OpenPr
            &&& step->OpenPr_req == req
            &&& step->OpenPr_ctx.org_slug@ == cfg->0.org@
            &&& step->OpenPr_ctx.client@ == f.client@
            &&& own matches Ok(name) ==> {
                &&& req.base matches Some(base) ==> step->OpenPr_step is Open && opens(
                    f,
                    cfg->0.org@,
                    name@,
                    req,
                    base@,
                    step->OpenPr_step->Open_0,
                )
                &&& req.base is None ==> step->OpenPr_step is ReadRepo && f.as_admin(
                    step->OpenPr_step->ReadRepo_0,
                    ForgeMethod::Get,
                    "/repos/"@ + cfg->0.org@ + "/"@ + name@,
                ) && step->OpenPr_step->ReadRepo_0.query_ref is None
                    && step->OpenPr_step->ReadRepo_0.body is Nothing
            }
            &&& own matches Err(e) ==> {
                let step = step->OpenPr_step;
                &&& step is Answer && !step->Answer_0.ok && step->Answer_0.result is None
                &&& step->Answer_0.error is Some
                &&& step->Answer_0.error->0.code == e.code
                &&& step->Answer_0.error->0.message@ == e.message@
            }
        },
        cfg is None || owner is None ==> step is Refuse && refused_without_forge(
            cfg,
            step->Refuse_0,
        ),
{
    if cfg is Some && owner is Some {
        lemma_without_run_behind(f.base, '/', f.base_slashes);
    }
}

/// The link to a file comes to the answer with it, or to the reading of the
/// repository if the request has no ref.
pub proof fn law_link_request_is_begun(
    creds: &mut Creds,
    cfg: Option<ForgeCfg>,
    root: &str,
    req: ForgeFileUrlReq,
    step: Step,
    owner: Option<&ForgeOwnerCreds>,
    f: Forge,
    ctx: &ForgeContext,
    repo: &str,
    own: Result<String, CodeError>,
    inner: Seq<char>,
    n: nat,
)
    requires
        call_ensures(
            dispatch,
            (creds, cfg, root, Ok::<BrokerRequest, String>(BrokerRequest::ForgeFileUrl(req))),
            step,
        ),
        call_ensures(Creds::forge_owner, (&*old(creds),), owner),
        cfg is Some && owner is Some ==> configured(f, cfg->0, *owner->0) && ctx.org_slug@
            == cfg->0.org@,
        repo@ == req.repo@,
        call_ensures(ensure_same_tenant, (ctx, repo), own),
        req.path@ == run_of('/', n) + inner,
        inner.len() > 0 ==> inner[0] != '/',
    ensures
        cfg is Some && owner is Some ==> {
            &&& step is LinkFile
            &&& step->LinkFile_req == req
            &&& step->LinkFile_ctx.org_slug@ == cfg->0.org@
            &&& step->LinkFile_ctx.client@ == f.client@
            &&& own matches Ok(name) ==> {
                &&& req.git_ref matches Some(g) ==> step->LinkFile_step is Answer && answers_link(
                    f,
                    cfg->0.org@,
                    name@,
                    g@,
                    inner,
                    step->LinkFile_step->Answer_0,
                )
                &&& req.git_ref is None ==> step->LinkFile_step is ReadRepo && f.as_admin(
                    step->LinkFile_step->ReadRepo_0,
                    ForgeMethod::Get,
                    "/repos/"@ + cfg->0.org@ + "/"@ + name@,
                ) && step->LinkFile_step->ReadRepo_0.query_ref is None
                    && step->LinkFile_step->ReadRepo_0.body is Nothing
            }
            &&& own matches Err(e) ==> {
                let step = step->LinkFile_step;
                &&& step is Answer && !step->Answer_0.ok && step->Answer_0.result is None
                &&& step->Answer_0.error is Some
                &&& step->Answer_0.error->0.code == e.code
                &&& step->Answer_0.error->0.message@ == e.message@
            }
        },
        cfg is None || owner is None ==> step is Refuse && refused_without_forge(
            cfg,
            step->Refuse_0,
        ),
{
    if cfg is Some && owner is Some {
        lemma_without_run_behind(f.base, '/', f.base_slashes);
        lemma_without_run_behind(f.root, '/', f.root_slashes);
        lemma_without_run_before(inner, '/', n);
    }
}

} // verus!
