//! The forge: its configuration, and the creation of a repository in the
//! organisation of the workspace with the admin token.

use vstd::prelude::*;
use vstd::string::*;

use crate::contract::{opt_text, CodeError, CodeErrorCode, ForgeProvisionReq, ForgeRepoInfo};
use crate::creds::Creds;
use crate::forge::client::{
    is_success, or_empty, org_repos_path, org_repos_suffix, succeeds, text_or_empty, AuthView,
    BodyView, CallView, ForgeAuth, ForgeBody, ForgeCall, ForgeMethod, ForgeReply,
};
use crate::json::{
    flag, json_bytes_document, member, parse_json_bytes, read_flag, read_member, Json, Member,
    MemberView,
};
use crate::text::{trim_trailing, without_trailing};

pub mod client;
pub mod contents;
pub mod git_session;
pub mod handler;
pub mod path;
pub mod push_cap;

verus! {

/// Where the forge is, and the organisation of the workspace.
#[derive(Debug, Clone)]
pub struct ForgeCfg {
    pub base_url: String,
    pub org: String,
}

impl ForgeCfg {
    /// The configuration that the variables `TABBIFY_FORGE_URL` and
    /// `TABBIFY_FORGE_ORG` give: none unless both are set.
    pub fn from_env(forge_url: Option<String>, forge_org: Option<String>) -> (r: Option<Self>)
        ensures
            r is Some <==> forge_url is Some && forge_org is Some,
            r matches Some(cfg) ==> cfg.base_url == forge_url->0 && cfg.org == forge_org->0,
    {
        match (forge_url, forge_org) {
            (Some(base_url), Some(org)) => Some(ForgeCfg { base_url, org }),
            _ => None,
        }
    }
}

/// The call that creates the repository, with the admin token `token`.
pub open spec fn provision_call(
    token: Seq<char>,
    cfg: ForgeCfg,
    req: ForgeProvisionReq,
) -> CallView {
    CallView {
        method: ForgeMethod::Post,
        url: without_trailing(cfg.base_url@, '/') + "/api/v1"@ + org_repos_path(cfg.org@),
        auth: AuthView::Header("token "@ + token),
        query_ref: None,
        body: BodyView::Repo {
            name: req.name@,
            private: match req.private {
                Some(p) => p,
                None => true,
            },
            description: text_or_empty(opt_text(req.description)),
            auto_init: true,
        },
    }
}

/// The call that creates a repository in the organisation. It takes an admin
/// token.
pub fn provision_repo(creds: &Creds, cfg: &ForgeCfg, req: &ForgeProvisionReq) -> (r: Result<
    ForgeCall,
    CodeError,
>)
    ensures
        match r {
            Ok(call) => creds@.admin_token matches Some(token) && call@ == provision_call(
                token,
                *cfg,
                *req,
            ),
            Err(e) => creds@.admin_token is None && e.says(
                CodeErrorCode::NeedsCredential,
                "forge not provisioned"@,
            ),
        },
{
    let token = match creds.forge_admin_token() {
        Some(token) => token,
        None => {
            return Err(CodeError::new(CodeErrorCode::NeedsCredential, "forge not provisioned"));
        },
    };
    let mut url = trim_trailing(cfg.base_url.as_str(), '/').to_owned();
    url.append("/api/v1");
    url.append(org_repos_suffix(cfg.org.as_str()).as_str());
    let mut header = "token ".to_owned();
    header.append(token);
    let description = match &req.description {
        Some(d) => Some(d.as_str()),
        None => None,
    };
    Ok(
        ForgeCall {
            method: ForgeMethod::Post,
            url,
            auth: ForgeAuth::Header(header),
            query_ref: None,
            body: ForgeBody::Repo {
                name: req.name.clone(),
                private: match req.private {
                    Some(p) => p,
                    None => true,
                },
                description: or_empty(description),
                auto_init: true,
            },
        },
    )
}

/// What is read of the answer to the creation of a repository.
#[derive(Debug, Clone)]
pub struct CreatedRepo {
    pub full_name: Member,
    pub clone_url: Member,
    pub html_url: Member,
    pub default_branch: Member,
    pub private: Option<bool>,
}

/// The contents of [`CreatedRepo`].
pub ghost struct CreatedView {
    pub full_name: MemberView,
    pub clone_url: MemberView,
    pub html_url: MemberView,
    pub default_branch: MemberView,
    pub private: Option<bool>,
}

impl View for CreatedRepo {
    type V = CreatedView;

    open spec fn view(&self) -> CreatedView {
        CreatedView {
            full_name: self.full_name@,
            clone_url: self.clone_url@,
            html_url: self.html_url@,
            default_branch: self.default_branch@,
            private: self.private,
        }
    }
}

/// What is read of a parsed answer.
pub open spec fn created(doc: Json) -> CreatedView {
    CreatedView {
        full_name: member(doc, "full_name"@),
        clone_url: member(doc, "clone_url"@),
        html_url: member(doc, "html_url"@),
        default_branch: member(doc, "default_branch"@),
        private: flag(doc, "private"@),
    }
}

/// Reads the answer to the creation of a repository, if it is a JSON document.
pub fn read_created(body: &[u8]) -> (r: Option<CreatedRepo>)
    ensures
        match (json_bytes_document(body@), r) {
            (Some(doc), Some(c)) => c@ == created(doc),
            (None, None) => true,
            _ => false,
        },
{
    match parse_json_bytes(body) {
        Ok(doc) => Some(
            CreatedRepo {
                full_name: read_member(&doc, "full_name"),
                clone_url: read_member(&doc, "clone_url"),
                html_url: read_member(&doc, "html_url"),
                default_branch: read_member(&doc, "default_branch"),
                private: read_flag(&doc, "private"),
            },
        ),
        Err(_) => None,
    }
}

/// The text of a member, or `otherwise` if it is no string.
pub open spec fn text_or(m: MemberView, otherwise: Seq<char>) -> Seq<char> {
    match m {
        MemberView::Text(t) => t,
        _ => otherwise,
    }
}

fn member_or(m: &Member, otherwise: &str) -> (r: String)
    ensures
        r@ == text_or(m@, otherwise@),
{
    match m {
        Member::Text(t) => t.clone(),
        _ => otherwise.to_owned(),
    }
}

/// `info` describes the created repository `name`. What the answer leaves out is
/// empty, but for the branch `main` and for being private.
pub open spec fn describes(info: ForgeRepoInfo, name: Seq<char>, c: CreatedView) -> bool {
    &&& info.name@ == name
    &&& info.full_name@ == text_or(c.full_name, ""@)
    &&& info.clone_url@ == text_or(c.clone_url, ""@)
    &&& info.web_url@ == text_or(c.html_url, ""@)
    &&& info.default_branch@ == text_or(c.default_branch, "main"@)
    &&& info.private == match c.private {
        Some(p) => p,
        None => true,
    }
}

/// The description of the created repository.
pub fn created_info(req: &ForgeProvisionReq, c: &CreatedRepo) -> (r: ForgeRepoInfo)
    ensures
        describes(r, req.name@, c@),
{
    ForgeRepoInfo {
        name: req.name.clone(),
        full_name: member_or(&c.full_name, ""),
        clone_url: member_or(&c.clone_url, ""),
        web_url: member_or(&c.html_url, ""),
        default_branch: member_or(&c.default_branch, "main"),
        private: match c.private {
            Some(p) => p,
            None => true,
        },
    }
}

/// `e` tells why the creation failed with this status: a status in the four
/// hundreds is the caller's fault, any other is not.
pub open spec fn creation_refused(code: u16, status: Seq<char>, e: CodeError) -> bool {
    e.says(
        if 400 <= code <= 499 {
            CodeErrorCode::Invalid
        } else {
            CodeErrorCode::Internal
        },
        "forge create failed"@ + ": "@ + status,
    )
}

/// What to return for the reply to [`provision_repo`].
pub fn repo_provisioned(req: &ForgeProvisionReq, reply: &ForgeReply<Vec<u8>>) -> (r: Result<
    ForgeRepoInfo,
    CodeError,
>)
    ensures
        match *reply {
            ForgeReply::Failed(why) => r matches Err(e) && e.says(
                CodeErrorCode::Internal,
                "forge"@ + ": "@ + why@,
            ),
            ForgeReply::Answer { code, status, body } => if !succeeds(code) {
                r matches Err(e) && creation_refused(code, status@, e)
            } else {
                match body {
                    Err(why) => r matches Err(e) && e.says(
                        CodeErrorCode::Internal,
                        "forge json"@ + ": "@ + why@,
                    ),
                    Ok(bytes) => match json_bytes_document(bytes@) {
                        None => r matches Err(e) && e.says(
                            CodeErrorCode::Internal,
                            "forge json"@ + ": "@ + "error decoding response body"@,
                        ),
                        Some(doc) => r matches Ok(info) && describes(info, req.name@, created(doc)),
                    },
                }
            },
        },
{
    match reply {
        ForgeReply::Failed(why) => Err(
            CodeError::with_detail(CodeErrorCode::Internal, "forge", why.as_str()),
        ),
        ForgeReply::Answer { code, status, body } => {
            if !is_success(*code) {
                let kind = if 400 <= *code && *code <= 499 {
                    CodeErrorCode::Invalid
                } else {
                    CodeErrorCode::Internal
                };
                return Err(CodeError::with_detail(kind, "forge create failed", status.as_str()));
            }
            match body {
                Err(why) => Err(
                    CodeError::with_detail(CodeErrorCode::Internal, "forge json", why.as_str()),
                ),
                Ok(bytes) => match read_created(bytes.as_slice()) {
                    Some(c) => Ok(created_info(req, &c)),
                    None => Err(
                        CodeError::with_detail(
                            CodeErrorCode::Internal,
                            "forge json",
                            "error decoding response body",
                        ),
                    ),
                },
            }
        },
    }
}

} // verus!
