//! The REST client of the forge. A call is a value: what to send, and how to
//! read what came back. The organisation's owner credentials go into the calls
//! and into nothing else.

use vstd::prelude::*;
use vstd::string::*;

use crate::contract::{ForgePrResp, ForgeRepoInfo, ForgeUrlResp};
use crate::creds::opt_slice;
use crate::lines::texts;
use crate::text::{same_text, trim_leading, trim_trailing, without_leading, without_trailing};

verus! {

// ---------------------------------------------------------------------------
// Calls and replies
// ---------------------------------------------------------------------------

#[derive(Debug, Clone, Copy, PartialEq, Eq, Structural)]
pub enum ForgeMethod {
    Get,
    Post,
    Put,
    Delete,
}

/// How a call is authorized.
#[derive(Debug, Clone)]
pub enum ForgeAuth {
    /// The value of the `Authorization` header.
    Header(String),
    /// Basic authentication.
    Basic { user: String, password: String },
}

/// The texts of [`ForgeAuth`].
pub ghost enum AuthView {
    Header(Seq<char>),
    Basic { user: Seq<char>, password: Seq<char> },
}

impl View for ForgeAuth {
    type V = AuthView;

    open spec fn view(&self) -> AuthView {
        match self {
            ForgeAuth::Header(h) => AuthView::Header(h@),
            ForgeAuth::Basic { user, password } => AuthView::Basic {
                user: user@,
                password: password@,
            },
        }
    }
}

/// The JSON object that a call sends.
#[derive(Debug, Clone)]
pub enum ForgeBody {
    Nothing,
    Repo { name: String, private: bool, description: String, auto_init: bool },
    Token { name: String, scopes: Vec<String> },
    Pull { title: String, head: String, base: String, body: String },
    File { message: String, content: String, branch: String, sha: Option<String> },
}

/// The texts of [`ForgeBody`].
pub ghost enum BodyView {
    Nothing,
    Repo { name: Seq<char>, private: bool, description: Seq<char>, auto_init: bool },
    Token { name: Seq<char>, scopes: Seq<Seq<char>> },
    Pull { title: Seq<char>, head: Seq<char>, base: Seq<char>, body: Seq<char> },
    File {
        message: Seq<char>,
        content: Seq<char>,
        branch: Seq<char>,
        sha: Option<Seq<char>>,
    },
}

impl View for ForgeBody {
    type V = BodyView;

    open spec fn view(&self) -> BodyView {
        match self {
            ForgeBody::Nothing => BodyView::Nothing,
            ForgeBody::Repo { name, private, description, auto_init } => BodyView::Repo {
                name: name@,
                private: *private,
                description: description@,
                auto_init: *auto_init,
            },
            ForgeBody::Token { name, scopes } => BodyView::Token {
                name: name@,
                scopes: texts(scopes@),
            },
            ForgeBody::Pull { title, head, base, body } => BodyView::Pull {
                title: title@,
                head: head@,
                base: base@,
                body: body@,
            },
            ForgeBody::File { message, content, branch, sha } => BodyView::File {
                message: message@,
                content: content@,
                branch: branch@,
                sha: crate::contract::opt_text(*sha),
            },
        }
    }
}

/// The value of a member of the JSON object that a call sends.
#[derive(Debug, Clone)]
pub enum FieldValue {
    Text(String),
    Flag(bool),
    Texts(Vec<String>),
}

/// The contents of [`FieldValue`].
pub ghost enum ValueView {
    Text(Seq<char>),
    Flag(bool),
    Texts(Seq<Seq<char>>),
}

impl View for FieldValue {
    type V = ValueView;

    open spec fn view(&self) -> ValueView {
        match self {
            FieldValue::Text(t) => ValueView::Text(t@),
            FieldValue::Flag(b) => ValueView::Flag(*b),
            FieldValue::Texts(v) => ValueView::Texts(texts(v@)),
        }
    }
}

/// A member of the JSON object that a call sends.
#[derive(Debug, Clone)]
pub struct Field {
    pub name: &'static str,
    pub value: FieldValue,
}

impl View for Field {
    type V = (Seq<char>, ValueView);

    open spec fn view(&self) -> (Seq<char>, ValueView) {
        (self.name@, self.value@)
    }
}

/// The members, by name and value.
pub open spec fn members(fields: Seq<Field>) -> Seq<(Seq<char>, ValueView)> {
    fields.map_values(|f: Field| f@)
}

impl BodyView {
    /// The members of the JSON object, none if none is sent. A file has the
    /// member `sha` only if it is given one.
    pub open spec fn fields(self) -> Seq<(Seq<char>, ValueView)> {
        match self {
            BodyView::Nothing => seq![],
            BodyView::Repo { name, private, description, auto_init } => seq![
                ("name"@, ValueView::Text(name)),
                ("private"@, ValueView::Flag(private)),
                ("description"@, ValueView::Text(description)),
                ("auto_init"@, ValueView::Flag(auto_init)),
            ],
            BodyView::Token { name, scopes } => seq![
                ("name"@, ValueView::Text(name)),
                ("scopes"@, ValueView::Texts(scopes)),
            ],
            BodyView::Pull { title, head, base, body } => seq![
                ("title"@, ValueView::Text(title)),
                ("head"@, ValueView::Text(head)),
                ("base"@, ValueView::Text(base)),
                ("body"@, ValueView::Text(body)),
            ],
            BodyView::File { message, content, branch, sha } => seq![
                ("message"@, ValueView::Text(message)),
                ("content"@, ValueView::Text(content)),
                ("branch"@, ValueView::Text(branch)),
            ] + (match sha {
                Some(s) => seq![("sha"@, ValueView::Text(s))],
                None => seq![],
            }),
        }
    }
}

impl ForgeBody {
    /// The members of the JSON object, none if none is sent.
    pub fn fields(self) -> (r: Vec<Field>)
        ensures
            members(r@) == self@.fields(),
    {
        let ghost view = self@;
        let mut out: Vec<Field> = Vec::new();
        match self {
            ForgeBody::Nothing => {},
            ForgeBody::Repo { name, private, description, auto_init } => {
                out.push(Field { name: "name", value: FieldValue::Text(name) });
                out.push(Field { name: "private", value: FieldValue::Flag(private) });
                out.push(Field { name: "description", value: FieldValue::Text(description) });
                out.push(Field { name: "auto_init", value: FieldValue::Flag(auto_init) });
            },
            ForgeBody::Token { name, scopes } => {
                out.push(Field { name: "name", value: FieldValue::Text(name) });
                out.push(Field { name: "scopes", value: FieldValue::Texts(scopes) });
            },
            ForgeBody::Pull { title, head, base, body } => {
                out.push(Field { name: "title", value: FieldValue::Text(title) });
                out.push(Field { name: "head", value: FieldValue::Text(head) });
                out.push(Field { name: "base", value: FieldValue::Text(base) });
                out.push(Field { name: "body", value: FieldValue::Text(body) });
            },
            ForgeBody::File { message, content, branch, sha } => {
                out.push(Field { name: "message", value: FieldValue::Text(message) });
                out.push(Field { name: "content", value: FieldValue::Text(content) });
                out.push(Field { name: "branch", value: FieldValue::Text(branch) });
                if let Some(s) = sha {
                    out.push(Field { name: "sha", value: FieldValue::Text(s) });
                }
            },
        }
        assert(members(out@) =~= view.fields());
        out
    }
}

/// One call to the forge.
#[derive(Debug, Clone)]
pub struct ForgeCall {
    pub method: ForgeMethod,
    pub url: String,
    pub auth: ForgeAuth,
    /// The value of the query parameter `ref`.
    pub query_ref: Option<String>,
    pub body: ForgeBody,
}

/// The contents of [`ForgeCall`].
pub ghost struct CallView {
    pub method: ForgeMethod,
    pub url: Seq<char>,
    pub auth: AuthView,
    pub query_ref: Option<Seq<char>>,
    pub body: BodyView,
}

impl View for ForgeCall {
    type V = CallView;

    open spec fn view(&self) -> CallView {
        CallView {
            method: self.method,
            url: self.url@,
            auth: self.auth@,
            query_ref: crate::contract::opt_text(self.query_ref),
            body: self.body@,
        }
    }
}

/// What came back from a call.
#[derive(Debug)]
pub enum ForgeReply<T> {
    /// Nothing, and why.
    Failed(String),
    /// A status, as a number and as text, and a body or why there is none.
    Answer { code: u16, status: String, body: Result<T, String> },
}

/// A call that did not succeed.
#[derive(Debug)]
pub struct ForgeError {
    pub message: String,
}

/// `code` reports success.
pub open spec fn succeeds(code: u16) -> bool {
    200 <= code <= 299
}

/// Whether `code` reports success.
pub fn is_success(code: u16) -> (r: bool)
    ensures
        r == succeeds(code),
{
    200 <= code && code <= 299
}

/// The body of a reply to `call`, or the message of the failure.
pub open spec fn accepted<T>(reply: ForgeReply<T>, call: Seq<char>) -> Result<T, Seq<char>> {
    match reply {
        ForgeReply::Failed(why) => Err(why@),
        ForgeReply::Answer { code, status, body } => if succeeds(code) {
            match body {
                Ok(v) => Ok(v),
                Err(why) => Err(why@),
            }
        } else {
            Err(call + ": "@ + status@)
        },
    }
}

/// The body of a reply to `call`.
pub fn accept<T>(reply: ForgeReply<T>, call: &str) -> (r: Result<T, ForgeError>)
    ensures
        match r {
            Ok(v) => accepted(reply, call@) == Ok::<T, Seq<char>>(v),
            Err(e) => accepted(reply, call@) == Err::<T, Seq<char>>(e.message@),
        },
{
    match reply {
        ForgeReply::Failed(why) => Err(ForgeError { message: why }),
        ForgeReply::Answer { code, status, body } => {
            if !is_success(code) {
                let mut message = call.to_owned();
                message.append(": ");
                message.append(status.as_str());
                return Err(ForgeError { message });
            }
            match body {
                Ok(v) => Ok(v),
                Err(why) => Err(ForgeError { message: why }),
            }
        },
    }
}

// ---------------------------------------------------------------------------
// What the forge answers with
// ---------------------------------------------------------------------------

/// A repository, as the forge describes it.
#[derive(Debug, Clone)]
pub struct ForgejoRepo {
    pub name: String,
    pub full_name: String,
    pub clone_url: String,
    pub html_url: String,
    pub default_branch: String,
    pub private: bool,
}

impl ForgejoRepo {
    /// What the forge says of a repository, under the names that callers know.
    pub open spec fn info(self) -> ForgeRepoInfo {
        ForgeRepoInfo {
            name: self.name,
            full_name: self.full_name,
            clone_url: self.clone_url,
            web_url: self.html_url,
            default_branch: self.default_branch,
            private: self.private,
        }
    }

    pub fn into_info(self) -> (r: ForgeRepoInfo)
        ensures
            r == self.info(),
    {
        ForgeRepoInfo {
            name: self.name,
            full_name: self.full_name,
            clone_url: self.clone_url,
            web_url: self.html_url,
            default_branch: self.default_branch,
            private: self.private,
        }
    }
}

/// An access token. The secret is there only in the answer to its creation.
#[derive(Debug, Clone)]
pub struct ForgejoToken {
    pub name: String,
    pub sha1: String,
}

/// A pull request, as the forge describes it.
#[derive(Debug, Clone)]
pub struct ForgejoPr {
    pub number: u32,
    pub html_url: String,
}

// ---------------------------------------------------------------------------
// The client
// ---------------------------------------------------------------------------

/// The forge, with the owner credentials of one organisation.
pub struct ForgeClient {
    base_url: String,
    root_url: String,
    admin_token: String,
    owner_user: String,
    owner_password: String,
}

/// The contents of [`ForgeClient`].
pub ghost struct ClientView {
    /// Where the API is.
    pub base_url: Seq<char>,
    /// What shareable links begin with.
    pub root_url: Seq<char>,
    pub admin_token: Seq<char>,
    pub owner_user: Seq<char>,
    pub owner_password: Seq<char>,
}

impl View for ForgeClient {
    type V = ClientView;

    closed spec fn view(&self) -> ClientView {
        ClientView {
            base_url: self.base_url@,
            root_url: self.root_url@,
            admin_token: self.admin_token@,
            owner_user: self.owner_user@,
            owner_password: self.owner_password@,
        }
    }
}

impl ClientView {
    /// The URL of an API path.
    pub open spec fn api(self, suffix: Seq<char>) -> Seq<char> {
        without_trailing(self.base_url, '/') + "/api/v1"@ + suffix
    }

    /// The authorization of calls for the organisation.
    pub open spec fn admin(self) -> AuthView {
        AuthView::Header("token "@ + self.admin_token)
    }

    /// The authorization of calls for the owner's tokens, which the forge gives
    /// to no token.
    pub open spec fn owner(self) -> AuthView {
        AuthView::Basic { user: self.owner_user, password: self.owner_password }
    }

    /// The call that reads `suffix` for the organisation.
    pub open spec fn read(self, suffix: Seq<char>) -> CallView {
        CallView {
            method: ForgeMethod::Get,
            url: self.api(suffix),
            auth: self.admin(),
            query_ref: None,
            body: BodyView::Nothing,
        }
    }

    /// The call that posts `body` to `suffix` for the organisation.
    pub open spec fn post(self, suffix: Seq<char>, body: BodyView) -> CallView {
        CallView {
            method: ForgeMethod::Post,
            url: self.api(suffix),
            auth: self.admin(),
            query_ref: None,
            body,
        }
    }

    /// The API path of the owner's tokens.
    pub open spec fn tokens(self) -> Seq<char> {
        "/users/"@ + self.owner_user + "/tokens"@
    }

    /// The call that lists the owner's tokens.
    pub open spec fn list_tokens(self) -> CallView {
        CallView {
            method: ForgeMethod::Get,
            url: self.api(self.tokens()),
            auth: self.owner(),
            query_ref: None,
            body: BodyView::Nothing,
        }
    }

    /// The call that deletes a token of the owner.
    pub open spec fn delete_token(self, name: Seq<char>) -> CallView {
        CallView {
            method: ForgeMethod::Delete,
            url: self.api(self.tokens() + "/"@ + name),
            auth: self.owner(),
            query_ref: None,
            body: BodyView::Nothing,
        }
    }

    /// The call that mints a token of the owner for the organisation and its
    /// repositories.
    pub open spec fn mint_token(self, name: Seq<char>) -> CallView {
        CallView {
            method: ForgeMethod::Post,
            url: self.api(self.tokens()),
            auth: self.owner(),
            query_ref: None,
            body: BodyView::Token {
                name,
                scopes: seq!["write:organization"@, "write:repository"@],
            },
        }
    }
}

/// The API path of a repository.
pub open spec fn repo_path(org: Seq<char>, repo: Seq<char>) -> Seq<char> {
    "/repos/"@ + org + "/"@ + repo
}

/// The API path of the repositories of an organisation.
pub open spec fn org_repos_path(org: Seq<char>) -> Seq<char> {
    "/orgs/"@ + org + "/repos"@
}

/// An optional text, or nothing written.
pub open spec fn text_or_empty(s: Option<Seq<char>>) -> Seq<char> {
    match s {
        Some(t) => t,
        None => seq![],
    }
}

/// An optional text, or nothing written.
pub(crate) fn or_empty(s: Option<&str>) -> (r: String)
    ensures
        r@ == text_or_empty(opt_slice(s)),
{
    match s {
        Some(t) => t.to_owned(),
        None => {
            let r = String::new();
            assert(r@ == Seq::<char>::empty());
            r
        },
    }
}

/// The link to a file.
pub open spec fn file_link(
    root_url: Seq<char>,
    org: Seq<char>,
    repo: Seq<char>,
    git_ref: Seq<char>,
    file_path: Seq<char>,
) -> Seq<char> {
    without_trailing(root_url, '/') + "/"@ + org + "/"@ + repo + "/src/"@ + git_ref + "/"@
        + without_leading(file_path, '/')
}

/// The API path of a repository.
pub(crate) fn repo_suffix(org: &str, repo: &str) -> (r: String)
    ensures
        r@ == repo_path(org@, repo@),
{
    let mut s = "/repos/".to_owned();
    s.append(org);
    s.append("/");
    s.append(repo);
    s
}

/// The API path of the repositories of an organisation.
pub(crate) fn org_repos_suffix(org: &str) -> (r: String)
    ensures
        r@ == org_repos_path(org@),
{
    let mut s = "/orgs/".to_owned();
    s.append(org);
    s.append("/repos");
    s
}

/// The repositories that the forge listed, under the names that callers know.
pub open spec fn infos(repos: Seq<ForgejoRepo>) -> Seq<ForgeRepoInfo> {
    repos.map_values(|r: ForgejoRepo| r.info())
}

/// Some token has the name `name`.
pub open spec fn named(tokens: Seq<ForgejoToken>, name: Seq<char>) -> bool {
    exists|i: int| 0 <= i < tokens.len() && (#[trigger] tokens[i]).name@ == name
}

/// Whether some token has the name `name`.
fn is_named(tokens: &Vec<ForgejoToken>, name: &str) -> (r: bool)
    ensures
        r == named(tokens@, name@),
{
    let mut i: usize = 0;
    while i < tokens.len()
        invariant
            i <= tokens.len(),
            forall|j: int| 0 <= j < i ==> (#[trigger] tokens@[j]).name@ != name@,
        decreases tokens.len() - i,
    {
        if same_text(tokens[i].name.as_str(), name) {
            return true;
        }
        i += 1;
    }
    false
}

/// What follows the listing of the owner's tokens.
#[derive(Debug)]
pub struct Minting {
    /// The deletion of the token that has the name already, whose secret is not
    /// told again. Whatever comes of it, the token is minted then.
    pub delete: Option<ForgeCall>,
    pub mint: ForgeCall,
}

impl ClientView {
    /// `m` mints the token `name` after a listing that found it, or did not.
    pub open spec fn mints(self, name: Seq<char>, found: bool, m: Minting) -> bool {
        &&& m.mint@ == self.mint_token(name)
        &&& match m.delete {
            Some(call) => found && call@ == self.delete_token(name),
            None => !found,
        }
    }
}

/// The listing that a reply holds has a token of the name `name`. A listing that
/// the forge refuses, or that cannot be read, counts as empty.
pub open spec fn lists(reply: ForgeReply<Vec<ForgejoToken>>, name: Seq<char>) -> bool {
    reply matches ForgeReply::Answer { code, body: Ok(tokens), .. } && succeeds(code) && named(
        tokens@,
        name,
    )
}

impl ForgeClient {
    pub fn new(
        base_url: String,
        root_url: String,
        admin_token: String,
        owner_user: String,
        owner_password: String,
    ) -> (r: Self)
        ensures
            r@ == (ClientView {
                base_url: base_url@,
                root_url: root_url@,
                admin_token: admin_token@,
                owner_user: owner_user@,
                owner_password: owner_password@,
            }),
    {
        ForgeClient { base_url, root_url, admin_token, owner_user, owner_password }
    }

    /// The URL of an API path.
    pub fn api(&self, suffix: &str) -> (r: String)
        ensures
            r@ == self@.api(suffix@),
    {
        let mut url = trim_trailing(self.base_url.as_str(), '/').to_owned();
        url.append("/api/v1");
        url.append(suffix);
        url
    }

    /// The authorization of calls for the organisation.
    pub(crate) fn admin(&self) -> (r: ForgeAuth)
        ensures
            r@ == self@.admin(),
    {
        let mut header = "token ".to_owned();
        header.append(self.admin_token.as_str());
        ForgeAuth::Header(header)
    }

    fn owner(&self) -> (r: ForgeAuth)
        ensures
            r@ == self@.owner(),
    {
        ForgeAuth::Basic { user: self.owner_user.clone(), password: self.owner_password.clone() }
    }

    fn tokens(&self) -> (r: String)
        ensures
            r@ == self@.tokens(),
    {
        let mut s = "/users/".to_owned();
        s.append(self.owner_user.as_str());
        s.append("/tokens");
        s
    }

    fn read(&self, suffix: &str) -> (r: ForgeCall)
        ensures
            r@ == self@.read(suffix@),
    {
        ForgeCall {
            method: ForgeMethod::Get,
            url: self.api(suffix),
            auth: self.admin(),
            query_ref: None,
            body: ForgeBody::Nothing,
        }
    }

    fn post(&self, suffix: &str, body: ForgeBody) -> (r: ForgeCall)
        ensures
            r@ == self@.post(suffix@, body@),
    {
        ForgeCall {
            method: ForgeMethod::Post,
            url: self.api(suffix),
            auth: self.admin(),
            query_ref: None,
            body,
        }
    }

    /// The call that creates a repository in `org`.
    pub fn create_org_repo(
        &self,
        org: &str,
        name: &str,
        private: bool,
        description: Option<&str>,
    ) -> (r: ForgeCall)
        ensures
            r@ == self@.post(
                org_repos_path(org@),
                BodyView::Repo {
                    name: name@,
                    private,
                    description: text_or_empty(opt_slice(description)),
                    auto_init: true,
                },
            ),
    {
        self.post(
            org_repos_suffix(org).as_str(),
            ForgeBody::Repo {
                name: name.to_owned(),
                private,
                description: or_empty(description),
                auto_init: true,
            },
        )
    }

    /// The call that lists the repositories of `org`.
    pub fn list_org_repos(&self, org: &str) -> (r: ForgeCall)
        ensures
            r@ == self@.read(org_repos_path(org@)),
    {
        self.read(org_repos_suffix(org).as_str())
    }

    /// The first call of minting a token of the owner: the listing of the tokens
    /// there are. [`ForgeClient::token_listed`] says what follows.
    pub fn ensure_scoped_token(&self) -> (r: ForgeCall)
        ensures
            r@ == self@.list_tokens(),
    {
        ForgeCall {
            method: ForgeMethod::Get,
            url: self.api(self.tokens().as_str()),
            auth: self.owner(),
            query_ref: None,
            body: ForgeBody::Nothing,
        }
    }

    /// What follows the listing of the owner's tokens.
    pub fn token_listed(&self, token_name: &str, reply: &ForgeReply<Vec<ForgejoToken>>) -> (r:
        Result<Minting, ForgeError>)
        ensures
            match r {
                Ok(m) => !(reply is Failed) && self@.mints(
                    token_name@,
                    lists(*reply, token_name@),
                    m,
                ),
                Err(e) => *reply matches ForgeReply::Failed(why) && e.message@ == why@,
            },
    {
        let found = match reply {
            ForgeReply::Failed(why) => {
                return Err(ForgeError { message: why.clone() });
            },
            ForgeReply::Answer { code, body, .. } => match body {
                Ok(existing) => is_success(*code) && is_named(existing, token_name),
                Err(_) => false,
            },
        };
        let mint = self.mint_token(token_name);
        if !found {
            return Ok(Minting { delete: None, mint });
        }
        let mut suffix = self.tokens();
        suffix.append("/");
        suffix.append(token_name);
        let call = ForgeCall {
            method: ForgeMethod::Delete,
            url: self.api(suffix.as_str()),
            auth: self.owner(),
            query_ref: None,
            body: ForgeBody::Nothing,
        };
        Ok(Minting { delete: Some(call), mint })
    }

    /// The call that mints the owner's token `token_name`.
    pub fn mint_token(&self, token_name: &str) -> (r: ForgeCall)
        ensures
            r@ == self@.mint_token(token_name@),
    {
        let mut scopes: Vec<String> = Vec::new();
        scopes.push("write:organization".to_owned());
        scopes.push("write:repository".to_owned());
        assert(texts(scopes@) == seq!["write:organization"@, "write:repository"@]);
        ForgeCall {
            method: ForgeMethod::Post,
            url: self.api(self.tokens().as_str()),
            auth: self.owner(),
            query_ref: None,
            body: ForgeBody::Token { name: token_name.to_owned(), scopes },
        }
    }

    /// The call that opens a pull request.
    pub fn open_pr(
        &self,
        org: &str,
        repo: &str,
        title: &str,
        head: &str,
        base: &str,
        body: Option<&str>,
    ) -> (r: ForgeCall)
        ensures
            r@ == self@.post(
                repo_path(org@, repo@) + "/pulls"@,
                BodyView::Pull {
                    title: title@,
                    head: head@,
                    base: base@,
                    body: text_or_empty(opt_slice(body)),
                },
            ),
    {
        let mut suffix = repo_suffix(org, repo);
        suffix.append("/pulls");
        self.post(
            suffix.as_str(),
            ForgeBody::Pull {
                title: title.to_owned(),
                head: head.to_owned(),
                base: base.to_owned(),
                body: or_empty(body),
            },
        )
    }

    /// The call that reads a repository, for its default branch.
    pub fn default_branch(&self, org: &str, repo: &str) -> (r: ForgeCall)
        ensures
            r@ == self@.read(repo_path(org@, repo@)),
    {
        self.read(repo_suffix(org, repo).as_str())
    }

    /// The link to a file. It takes no call.
    pub fn file_url(&self, org: &str, repo: &str, git_ref: &str, file_path: &str) -> (r:
        ForgeUrlResp)
        ensures
            r.web_url@ == file_link(self@.root_url, org@, repo@, git_ref@, file_path@),
    {
        let mut url = trim_trailing(self.root_url.as_str(), '/').to_owned();
        url.append("/");
        url.append(org);
        url.append("/");
        url.append(repo);
        url.append("/src/");
        url.append(git_ref);
        url.append("/");
        url.append(trim_leading(file_path, '/'));
        ForgeUrlResp { web_url: url }
    }
}

/// The created repository.
pub fn repo_created(reply: ForgeReply<ForgejoRepo>) -> (r: Result<ForgeRepoInfo, ForgeError>)
    ensures
        match (accepted(reply, "forge create_org_repo"@), r) {
            (Ok(repo), Ok(info)) => info == repo.info(),
            (Err(why), Err(e)) => e.message@ == why,
            _ => false,
        },
{
    match accept(reply, "forge create_org_repo") {
        Ok(repo) => Ok(repo.into_info()),
        Err(e) => Err(e),
    }
}

/// The listed repositories, in the order of the listing.
pub fn repos_listed(reply: ForgeReply<Vec<ForgejoRepo>>) -> (r: Result<
    Vec<ForgeRepoInfo>,
    ForgeError,
>)
    ensures
        match (accepted(reply, "forge list_org_repos"@), r) {
            (Ok(repos), Ok(list)) => list@ == infos(repos@),
            (Err(why), Err(e)) => e.message@ == why,
            _ => false,
        },
{
    let mut repos = match accept(reply, "forge list_org_repos") {
        Ok(repos) => repos,
        Err(e) => {
            return Err(e);
        },
    };
    let ghost all = repos@;
    let mut reversed: Vec<ForgeRepoInfo> = Vec::new();
    while repos.len() > 0
        invariant
            repos@.len() + reversed@.len() == all.len(),
            repos@ == all.take(repos@.len() as int),
            forall|i: int|
                0 <= i < reversed@.len() ==> #[trigger] reversed@[i] == all[all.len() - 1
                    - i].info(),
        decreases repos.len(),
    {
        if let Some(repo) = repos.pop() {
            reversed.push(repo.into_info());
        }
    }
    let mut list: Vec<ForgeRepoInfo> = Vec::new();
    while reversed.len() > 0
        invariant
            reversed@.len() + list@.len() == all.len(),
            forall|i: int|
                0 <= i < reversed@.len() ==> #[trigger] reversed@[i] == all[all.len() - 1
                    - i].info(),
            forall|i: int| 0 <= i < list@.len() ==> #[trigger] list@[i] == all[i].info(),
        decreases reversed.len(),
    {
        if let Some(info) = reversed.pop() {
            list.push(info);
        }
    }
    assert(list@ =~= infos(all));
    Ok(list)
}

/// The secret of the minted token. An answer without one is a failure.
pub fn token_minted(reply: ForgeReply<ForgejoToken>) -> (r: Result<String, ForgeError>)
    ensures
        match (accepted(reply, "forge mint scoped token"@), r) {
            (Ok(token), Ok(secret)) => secret@.len() > 0 && secret == token.sha1,
            (Ok(token), Err(e)) => token.sha1@.len() == 0 && e.message@
                == "forge scoped token response missing sha1"@,
            (Err(why), Err(e)) => e.message@ == why,
            (Err(_), Ok(_)) => false,
        },
{
    match accept(reply, "forge mint scoped token") {
        Ok(token) => {
            if token.sha1.as_str().is_empty() {
                return Err(
                    ForgeError {
                        message: "forge scoped token response missing sha1".to_owned(),
                    },
                );
            }
            Ok(token.sha1)
        },
        Err(e) => Err(e),
    }
}

/// The opened pull request.
pub fn pr_opened(reply: ForgeReply<ForgejoPr>) -> (r: Result<ForgePrResp, ForgeError>)
    ensures
        match (accepted(reply, "forge open_pr"@), r) {
            (Ok(pr), Ok(resp)) => resp.number == pr.number && resp.web_url == pr.html_url,
            (Err(why), Err(e)) => e.message@ == why,
            _ => false,
        },
{
    match accept(reply, "forge open_pr") {
        Ok(pr) => Ok(ForgePrResp { number: pr.number, web_url: pr.html_url }),
        Err(e) => Err(e),
    }
}

/// The default branch of a repository that was read.
pub fn branch_read(reply: ForgeReply<ForgejoRepo>) -> (r: Result<String, ForgeError>)
    ensures
        match (accepted(reply, "forge get repo"@), r) {
            (Ok(repo), Ok(branch)) => branch == repo.default_branch,
            (Err(why), Err(e)) => e.message@ == why,
            _ => false,
        },
{
    match accept(reply, "forge get repo") {
        Ok(repo) => Ok(repo.default_branch),
        Err(e) => Err(e),
    }
}

} // verus!
