//! The wire types that the broker shares with its callers: errors, requests,
//! results and the envelope of an answer.

use vstd::prelude::*;
use vstd::string::*;

verus! {

/// What kind of failure an error reports.
#[derive(Debug, Clone, Copy, PartialEq, Eq, Structural)]
pub enum CodeErrorCode {
    /// The caller's input is malformed.
    Invalid,
    /// The caller may not reach what the request names.
    Forbidden,
    /// The broker lacks the credential that the operation needs.
    NeedsCredential,
    /// The operation failed for a reason that is not the caller's.
    Internal,
}

/// A failure, with a message for the caller.
#[derive(Debug, Clone)]
pub struct CodeError {
    pub code: CodeErrorCode,
    pub message: String,
}

impl CodeError {
    /// This is the error with `code` and the text `message`.
    pub open spec fn says(&self, code: CodeErrorCode, message: Seq<char>) -> bool {
        self.code == code && self.message@ == message
    }

    pub fn new(code: CodeErrorCode, message: &str) -> (r: Self)
        ensures
            r.says(code, message@),
    {
        CodeError { code, message: message.to_owned() }
    }

    /// The error whose message is `context` and `detail`, with a colon between.
    pub fn with_detail(code: CodeErrorCode, context: &str, detail: &str) -> (r: Self)
        ensures
            r.says(code, context@ + ": "@ + detail@),
    {
        let mut message = context.to_owned();
        message.append(": ");
        message.append(detail);
        CodeError { code, message }
    }
}

/// The answer to one request: `ok` with a result, or an error.
#[derive(Debug, Clone)]
pub struct CodeResponse<T> {
    pub ok: bool,
    pub result: Option<T>,
    pub error: Option<CodeError>,
}

impl<T> CodeResponse<T> {
    /// The answer carries exactly one of a result and an error, as `ok` says.
    pub open spec fn wf(&self) -> bool {
        &&& self.ok == self.result is Some
        &&& self.ok == self.error is None
    }

    pub fn ok(result: T) -> (r: Self)
        ensures
            r.wf(),
            r.result == Some(result),
    {
        CodeResponse { ok: true, result: Some(result), error: None }
    }

    pub fn err(error: CodeError) -> (r: Self)
        ensures
            r.wf(),
            r.error == Some(error),
    {
        CodeResponse { ok: false, result: None, error: Some(error) }
    }

    /// The result, or the error.
    pub fn into_result(self) -> (r: Result<T, CodeError>)
        requires
            self.wf(),
        ensures
            match r {
                Ok(v) => self.result == Some(v),
                Err(e) => self.error == Some(e),
            },
    {
        match self.result {
            Some(v) => Ok(v),
            None => Err(self.error.unwrap()),
        }
    }
}

/// A git operation.
#[derive(Debug, Clone, Copy, PartialEq, Eq, Structural)]
pub enum GitOp {
    Push,
    Fetch,
    Clone,
}

/// Run `op` in the working copy of `repo`.
#[derive(Debug, Clone)]
pub struct GitOpReq {
    pub repo: String,
    pub op: GitOp,
    pub git_ref: Option<String>,
}

/// What a git operation produced.
#[derive(Debug, Clone)]
pub struct GitOpResult {
    pub commit_sha: Option<String>,
    pub output: String,
}

/// The names of the held capabilities.
#[derive(Debug, Clone)]
pub struct ListCapsResp {
    pub caps: Vec<String>,
}

/// Create a repository in the forge organisation.
#[derive(Debug, Clone)]
pub struct ForgeProvisionReq {
    pub name: String,
    pub private: Option<bool>,
    pub description: Option<String>,
}

/// A repository of the forge.
#[derive(Debug, Clone)]
pub struct ForgeRepoInfo {
    pub name: String,
    pub full_name: String,
    pub clone_url: String,
    pub web_url: String,
    pub default_branch: String,
    pub private: bool,
}

/// The repositories of the organisation.
#[derive(Debug, Clone)]
pub struct ForgeListReposResp {
    pub repos: Vec<ForgeRepoInfo>,
}

/// Open a pull request.
#[derive(Debug, Clone)]
pub struct ForgeOpenPrReq {
    pub repo: String,
    pub title: String,
    pub head: String,
    pub base: Option<String>,
    pub body: Option<String>,
}

/// An opened pull request.
#[derive(Debug, Clone)]
pub struct ForgePrResp {
    pub number: u32,
    pub web_url: String,
}

/// Build a web link to a file.
#[derive(Debug, Clone)]
pub struct ForgeFileUrlReq {
    pub repo: String,
    pub path: String,
    pub git_ref: Option<String>,
}

/// A web link.
#[derive(Debug, Clone)]
pub struct ForgeUrlResp {
    pub web_url: String,
}

/// The text that an optional string holds.
pub open spec fn opt_text(s: Option<String>) -> Option<Seq<char>> {
    match s {
        Some(t) => Some(t@),
        None => None,
    }
}

} // verus!
