//! What the calls to the forge send, and what is read from the replies.

use vstd::prelude::*;
use vstd::string::*;
use vstd::utf8::*;

use crate::contract::{
    opt_text, CodeError, CodeErrorCode, ForgePrResp, ForgeProvisionReq, ForgeRepoInfo, ForgeUrlResp,
};
use crate::creds::Creds;
use crate::forge::{
    created_info, provision_repo, read_created, repo_provisioned, CreatedRepo, ForgeCfg,
};
use crate::forge::client::{
    accept, branch_read, infos, is_success, members, named, pr_opened, repo_created, repos_listed,
    token_minted, Field, ForgeBody, ForgeCall, ForgeClient, ForgeError, ForgeMethod, ForgeReply,
    ForgejoPr, ForgejoRepo, ForgejoToken, Minting,
};
use crate::forge::contents::{
    base64_bytes, base64_text, decoded_text, file_content, file_put, file_read, strip_space,
    utf8_complaint, without_space, ForgeFile, GiteaContent, GiteaPutResp,
};
use crate::json::{json_bytes_document, Json, Member};
use crate::laws::git::lemma_texts;
use crate::laws::text::{lemma_without_run_before, lemma_without_run_behind, run_of};
use crate::lines::texts;
use crate::text::is_space;

verus! {

// ---------------------------------------------------------------------------
// The client
// ---------------------------------------------------------------------------

/// What a client is made of: where the forge is, and the owner credentials. The
/// URLs are `base` and `root`, with slashes at the end that do not matter.
pub ghost struct Forge {
    pub client: ForgeClient,
    pub base_url: String,
    pub root_url: String,
    pub admin_token: String,
    pub owner_user: String,
    pub owner_password: String,
    pub base: Seq<char>,
    pub root: Seq<char>,
    pub base_slashes: nat,
    pub root_slashes: nat,
}

impl Forge {
    /// The client is made of these.
    pub open spec fn made(self) -> bool {
        &&& call_ensures(
            ForgeClient::new,
            (
                self.base_url,
                self.root_url,
                self.admin_token,
                self.owner_user,
                self.owner_password,
            ),
            self.client,
        )
        &&& self.base_url@ == self.base + run_of('/', self.base_slashes)
        &&& self.root_url@ == self.root + run_of('/', self.root_slashes)
        &&& self.base.len() > 0 ==> self.base.last() != '/'
        &&& self.root.len() > 0 ==> self.root.last() != '/'
    }

    /// `call` is made with the admin token, by `method` and to the API path `path`.
    pub open spec fn as_admin(self, call: ForgeCall, method: ForgeMethod, path: Seq<char>) -> bool {
        &&& call.method == method
        &&& call.url@ == self.base + "/api/v1"@ + path
        &&& call.auth is Header && call.auth->Header_0@ == "token "@ + self.admin_token@
    }

    /// `call` is made as the owner, by `method` and to the API path `path`.
    pub open spec fn as_owner(self, call: ForgeCall, method: ForgeMethod, path: Seq<char>) -> bool {
        &&& call.method == method
        &&& call.url@ == self.base + "/api/v1"@ + path
        &&& call.auth is Basic && call.auth->user@ == self.owner_user@ && call.auth->password@
            == self.owner_password@
        &&& call.query_ref is None
    }
}

/// An API URL is the base, without the slashes at its end, the version of the API
/// and the path.
pub proof fn law_api_url_is_below_the_base(f: Forge, path: &str, url: String)
    requires
        f.made(),
        call_ensures(ForgeClient::api, (&f.client, path), url),
    ensures
        url@ == f.base + "/api/v1"@ + path@,
{
    lemma_without_run_behind(f.base, '/', f.base_slashes);
}

/// Creating a repository posts its name, whether it is private, its description
/// and that it begins with a commit, to the repositories of the organisation.
pub proof fn law_create_sends_the_repo(
    f: Forge,
    org: &str,
    name: &str,
    private: bool,
    description: Option<&str>,
    call: ForgeCall,
)
    requires
        f.made(),
        call_ensures(
            ForgeClient::create_org_repo,
            (&f.client, org, name, private, description),
            call,
        ),
    ensures
        f.as_admin(call, ForgeMethod::Post, "/orgs/"@ + org@ + "/repos"@),
        call.query_ref is None,
        call.body is Repo,
        call.body->Repo_name@ == name@,
        call.body->private == private,
        description is Some ==> call.body->description@ == description->0@,
        description is None ==> call.body->description@.len() == 0,
        call.body->auto_init,
{
    lemma_without_run_behind(f.base, '/', f.base_slashes);
}

/// The repositories of the organisation, and a single one, are read by plain
/// calls.
pub proof fn law_reading_sends_nothing(
    f: Forge,
    org: &str,
    repo: &str,
    list: ForgeCall,
    one: ForgeCall,
)
    requires
        f.made(),
        call_ensures(ForgeClient::list_org_repos, (&f.client, org), list),
        call_ensures(ForgeClient::default_branch, (&f.client, org, repo), one),
    ensures
        f.as_admin(list, ForgeMethod::Get, "/orgs/"@ + org@ + "/repos"@),
        f.as_admin(one, ForgeMethod::Get, "/repos/"@ + org@ + "/"@ + repo@),
        list.query_ref is None && list.body is Nothing,
        one.query_ref is None && one.body is Nothing,
{
    lemma_without_run_behind(f.base, '/', f.base_slashes);
}

/// The owner's tokens are listed and minted as the owner, under the path of the
/// owner. A minted token has the name that was asked for, and may write the
/// organisation and its repositories.
pub proof fn law_tokens_belong_to_the_owner(
    f: Forge,
    name: &str,
    list: ForgeCall,
    mint: ForgeCall,
)
    requires
        f.made(),
        call_ensures(ForgeClient::ensure_scoped_token, (&f.client,), list),
        call_ensures(ForgeClient::mint_token, (&f.client, name), mint),
    ensures
        f.as_owner(list, ForgeMethod::Get, "/users/"@ + f.owner_user@ + "/tokens"@),
        list.body is Nothing,
        f.as_owner(mint, ForgeMethod::Post, "/users/"@ + f.owner_user@ + "/tokens"@),
        mint.body is Token,
        mint.body->Token_name@ == name@,
        mint.body->scopes@.len() == 2,
        mint.body->scopes@[0]@ == "write:organization"@,
        mint.body->scopes@[1]@ == "write:repository"@,
{
    lemma_without_run_behind(f.base, '/', f.base_slashes);
    lemma_texts(mint.body->scopes@, texts(mint.body->scopes@));
}

/// Wherever in a listing a token has the name, that name is deleted before it is
/// minted again; a listing without the name, one that was refused and one that
/// cannot be read lead to no deletion. Without any answer there is neither.
pub proof fn law_stale_token_is_deleted(
    f: Forge,
    name: &str,
    reply: &ForgeReply<Vec<ForgejoToken>>,
    r: Result<Minting, ForgeError>,
    i: int,
)
    requires
        f.made(),
        call_ensures(ForgeClient::token_listed, (&f.client, name, reply), r),
    ensures
        *reply matches ForgeReply::Answer { code, body, .. } ==> {
            &&& r is Ok
            &&& f.as_owner(
                r->Ok_0.mint,
                ForgeMethod::Post,
                "/users/"@ + f.owner_user@ + "/tokens"@,
            )
            &&& r->Ok_0.mint.body is Token
            &&& r->Ok_0.mint.body->Token_name@ == name@
            &&& r->Ok_0.mint.body->scopes@.len() == 2
            &&& r->Ok_0.mint.body->scopes@[0]@ == "write:organization"@
            &&& r->Ok_0.mint.body->scopes@[1]@ == "write:repository"@
            &&& r->Ok_0.delete matches Some(del) ==> f.as_owner(
                del,
                ForgeMethod::Delete,
                "/users/"@ + f.owner_user@ + "/tokens"@ + "/"@ + name@,
            ) && del.body is Nothing
            &&& !(200 <= code <= 299) || body is Err ==> r->Ok_0.delete is None
            &&& body matches Ok(tokens) ==> {
                &&& 200 <= code <= 299 && 0 <= i < tokens@.len() && tokens@[i].name@ == name@
                    ==> r->Ok_0.delete is Some
                &&& (forall|j: int| 0 <= j < tokens@.len() ==> (#[trigger] tokens@[j]).name@
                    != name@) ==> r->Ok_0.delete is None
            }
        },
        *reply matches ForgeReply::Failed(why) ==> r is Err && r->Err_0.message@ == why@,
{
    lemma_without_run_behind(f.base, '/', f.base_slashes);
    if let ForgeReply::Answer { code, body, .. } = *reply {
        let scopes = r->Ok_0.mint.body->scopes@;
        lemma_texts(scopes, texts(scopes));
        if let Ok(tokens) = body {
            if 0 <= i < tokens@.len() && tokens@[i].name@ == name@ {
                assert(named(tokens@, name@));
            }
        }
    }
}

/// The order of a listing does not matter: two listings that hold the same tokens
/// lead to the same deletion.
pub proof fn law_order_of_tokens_does_not_matter(
    f: Forge,
    name: &str,
    code: u16,
    status: String,
    a: Vec<ForgejoToken>,
    b: Vec<ForgejoToken>,
    a_next: Minting,
    b_next: Minting,
)
    requires
        a@.to_multiset() == b@.to_multiset(),
        call_ensures(
            ForgeClient::token_listed,
            (
                &f.client,
                name,
                &(ForgeReply::Answer { code, status, body: Ok::<Vec<ForgejoToken>, String>(a) }),
            ),
            Ok::<Minting, ForgeError>(a_next),
        ),
        call_ensures(
            ForgeClient::token_listed,
            (
                &f.client,
                name,
                &(ForgeReply::Answer { code, status, body: Ok::<Vec<ForgejoToken>, String>(b) }),
            ),
            Ok::<Minting, ForgeError>(b_next),
        ),
    ensures
        a_next.delete is Some == b_next.delete is Some,
{
    a@.to_multiset_ensures();
    b@.to_multiset_ensures();
    assert(named(a@, name@) == named(b@, name@)) by {
        if named(a@, name@) {
            let i = choose|i: int| 0 <= i < a@.len() && (#[trigger] a@[i]).name@ == name@;
            assert(a@.contains(a@[i]));
            assert(b@.to_multiset().count(a@[i]) > 0);
            let j = choose|j: int| 0 <= j < b@.len() && b@[j] == a@[i];
            assert(b@[j].name@ == name@);
        }
        if named(b@, name@) {
            let i = choose|i: int| 0 <= i < b@.len() && (#[trigger] b@[i]).name@ == name@;
            assert(b@.contains(b@[i]));
            assert(a@.to_multiset().count(b@[i]) > 0);
            let j = choose|j: int| 0 <= j < a@.len() && a@[j] == b@[i];
            assert(a@[j].name@ == name@);
        }
    }
}

/// Opening a pull request posts its title, the branch to merge, the branch to
/// merge into and its text, to the pull requests of the repository.
pub proof fn law_pull_request_sends_its_parts(
    f: Forge,
    org: &str,
    repo: &str,
    title: &str,
    head: &str,
    base: &str,
    body: Option<&str>,
    call: ForgeCall,
)
    requires
        f.made(),
        call_ensures(ForgeClient::open_pr, (&f.client, org, repo, title, head, base, body), call),
    ensures
        f.as_admin(call, ForgeMethod::Post, "/repos/"@ + org@ + "/"@ + repo@ + "/pulls"@),
        call.query_ref is None,
        call.body is Pull,
        call.body->title@ == title@,
        call.body->head@ == head@,
        call.body->base@ == base@,
        body is Some ==> call.body->body@ == body->0@,
        body is None ==> call.body->body@.len() == 0,
{
    lemma_without_run_behind(f.base, '/', f.base_slashes);
}

/// A link to a file is the root, without the slashes at its end, and after it the
/// organisation, the repository, the ref and the path without the slashes that it
/// begins with.
pub proof fn law_link_leads_to_the_file(
    f: Forge,
    org: &str,
    repo: &str,
    git_ref: &str,
    path: &str,
    r: ForgeUrlResp,
    inner: Seq<char>,
    n: nat,
)
    requires
        f.made(),
        call_ensures(ForgeClient::file_url, (&f.client, org, repo, git_ref, path), r),
        path@ == run_of('/', n) + inner,
        inner.len() > 0 ==> inner[0] != '/',
    ensures
        r.web_url@ == f.root + "/"@ + org@ + "/"@ + repo@ + "/src/"@ + git_ref@ + "/"@ + inner,
{
    lemma_without_run_behind(f.root, '/', f.root_slashes);
    lemma_without_run_before(inner, '/', n);
}

/// Reading a file asks for its path in the repository, at the ref if there is one.
pub proof fn law_file_is_read_at_the_ref(
    f: Forge,
    org: &str,
    repo: &str,
    path: &str,
    git_ref: Option<&str>,
    call: ForgeCall,
)
    requires
        f.made(),
        call_ensures(ForgeClient::get_file, (&f.client, org, repo, path, git_ref), call),
    ensures
        f.as_admin(
            call,
            ForgeMethod::Get,
            "/repos/"@ + org@ + "/"@ + repo@ + "/contents/"@ + path@,
        ),
        call.body is Nothing,
        call.query_ref is Some == git_ref is Some,
        git_ref is Some ==> call.query_ref->0@ == git_ref->0@,
{
    lemma_without_run_behind(f.base, '/', f.base_slashes);
}

/// Writing a file puts the message, the contents in base64, the branch and, for
/// an update, the hash of the blob, to the path of the file.
pub proof fn law_file_is_written_to_the_branch(
    f: Forge,
    org: &str,
    repo: &str,
    path: &str,
    message: &str,
    content: &str,
    branch: &str,
    sha: Option<&str>,
    call: ForgeCall,
)
    requires
        f.made(),
        call_ensures(
            ForgeClient::put_file,
            (&f.client, org, repo, path, message, content, branch, sha),
            call,
        ),
    ensures
        f.as_admin(
            call,
            ForgeMethod::Put,
            "/repos/"@ + org@ + "/"@ + repo@ + "/contents/"@ + path@,
        ),
        call.query_ref is None,
        call.body is File,
        call.body->message@ == message@,
        call.body->content@ == base64_text(encode_utf8(content@)),
        call.body->branch@ == branch@,
        call.body->sha is Some == sha is Some,
        sha is Some ==> call.body->sha->0@ == sha->0@,
{
    lemma_without_run_behind(f.base, '/', f.base_slashes);
}

/// `fields` has the text `value` under `name`, at the position `i`.
pub open spec fn text_field(fields: Seq<Field>, i: int, name: Seq<char>, value: Seq<char>) -> bool {
    0 <= i < fields.len() && fields[i].name@ == name && fields[i].value is Text
        && fields[i].value->Text_0@ == value
}

/// `fields` has the flag `value` under `name`, at the position `i`.
pub open spec fn flag_field(fields: Seq<Field>, i: int, name: Seq<char>, value: bool) -> bool {
    0 <= i < fields.len() && fields[i].name@ == name && fields[i].value is Flag
        && fields[i].value->Flag_0 == value
}

/// The JSON object that a call sends has one member for each part of its body,
/// under the name that the forge knows it by.
pub proof fn law_every_part_is_a_member(body: ForgeBody, fields: Vec<Field>)
    requires
        call_ensures(ForgeBody::fields, (body,), fields),
    ensures
        match body {
            ForgeBody::Nothing => fields@.len() == 0,
            ForgeBody::Repo { name, private, description, auto_init } => {
                &&& fields@.len() == 4
                &&& text_field(fields@, 0, "name"@, name@)
                &&& flag_field(fields@, 1, "private"@, private)
                &&& text_field(fields@, 2, "description"@, description@)
                &&& flag_field(fields@, 3, "auto_init"@, auto_init)
            },
            ForgeBody::Token { name, scopes } => {
                &&& fields@.len() == 2
                &&& text_field(fields@, 0, "name"@, name@)
                &&& fields@[1].name@ == "scopes"@ && fields@[1].value is Texts
                &&& fields@[1].value->Texts_0@.len() == scopes@.len()
                &&& forall|i: int|
                    0 <= i < scopes@.len() ==> (#[trigger] scopes@[i])@
                        == fields@[1].value->Texts_0@[i]@
            },
            ForgeBody::Pull { title, head, base, body } => {
                &&& fields@.len() == 4
                &&& text_field(fields@, 0, "title"@, title@)
                &&& text_field(fields@, 1, "head"@, head@)
                &&& text_field(fields@, 2, "base"@, base@)
                &&& text_field(fields@, 3, "body"@, body@)
            },
            ForgeBody::File { message, content, branch, sha } => {
                &&& text_field(fields@, 0, "message"@, message@)
                &&& text_field(fields@, 1, "content"@, content@)
                &&& text_field(fields@, 2, "branch"@, branch@)
                &&& sha matches Some(s) ==> fields@.len() == 4 && text_field(
                    fields@,
                    3,
                    "sha"@,
                    s@,
                )
                &&& sha is None ==> fields@.len() == 3
            },
        },
{
    let m = members(fields@);
    assert(m.len() == fields@.len());
    assert forall|i: int| 0 <= i < fields@.len() implies #[trigger] m[i] == fields@[i]@ by {}
    if fields@.len() > 0 {
        assert(m[0] == fields@[0]@);
    }
    if fields@.len() > 1 {
        assert(m[1] == fields@[1]@);
    }
    if fields@.len() > 2 {
        assert(m[2] == fields@[2]@);
    }
    if fields@.len() > 3 {
        assert(m[3] == fields@[3]@);
    }
    if let ForgeBody::Token { name, scopes } = body {
        let sent = fields@[1].value->Texts_0@;
        lemma_texts(sent, texts(scopes@));
        lemma_texts(scopes@, texts(scopes@));
    }
}

// ---------------------------------------------------------------------------
// Replies
// ---------------------------------------------------------------------------

/// A status reports success exactly if it is in the two hundreds. The body of a
/// successful reply is taken as it is; any other reply is a failure, which tells
/// the reason or the call and its status.
pub proof fn law_only_success_is_accepted<T>(
    reply: ForgeReply<T>,
    call: &str,
    r: Result<T, ForgeError>,
    code: u16,
    success: bool,
)
    requires
        call_ensures(accept::<T>, (reply, call), r),
        call_ensures(is_success, (code,), success),
    ensures
        success <==> 200 <= code <= 299,
        match reply {
            ForgeReply::Failed(why) => r is Err && r->Err_0.message@ == why@,
            ForgeReply::Answer { code, status, body } => if 200 <= code <= 299 {
                match body {
                    Ok(v) => r is Ok && r->Ok_0 == v,
                    Err(why) => r is Err && r->Err_0.message@ == why@,
                }
            } else {
                r is Err && r->Err_0.message@ == call@ + ": "@ + status@
            },
        },
{
}

/// `info` is what the forge said of `repo`.
pub open spec fn told(repo: ForgejoRepo, info: ForgeRepoInfo) -> bool {
    &&& info.name@ == repo.name@
    &&& info.full_name@ == repo.full_name@
    &&& info.clone_url@ == repo.clone_url@
    &&& info.web_url@ == repo.html_url@
    &&& info.default_branch@ == repo.default_branch@
    &&& info.private == repo.private
}

/// A repository is told as the forge described it.
pub proof fn law_repo_is_told(repo: ForgejoRepo, info: ForgeRepoInfo)
    requires
        call_ensures(ForgejoRepo::into_info, (repo,), info),
    ensures
        told(repo, info),
{
}

/// A created repository is described as the forge described it.
pub proof fn law_created_repo_is_told(
    reply: ForgeReply<ForgejoRepo>,
    r: Result<ForgeRepoInfo, ForgeError>,
    name: &str,
    a: Result<ForgejoRepo, ForgeError>,
)
    requires
        call_ensures(repo_created, (reply,), r),
        call_ensures(accept::<ForgejoRepo>, (reply, name), a),
        name@ == "forge create_org_repo"@,
    ensures
        match (a, r) {
            (Ok(repo), Ok(info)) => told(repo, info),
            (Err(e), Err(f)) => e.message@ == f.message@,
            _ => false,
        },
{
}

/// Every listed repository is told, each at the place that it had in the listing.
pub proof fn law_every_listed_repo_is_told(
    reply: ForgeReply<Vec<ForgejoRepo>>,
    r: Result<Vec<ForgeRepoInfo>, ForgeError>,
    name: &str,
    a: Result<Vec<ForgejoRepo>, ForgeError>,
)
    requires
        call_ensures(repos_listed, (reply,), r),
        call_ensures(accept::<Vec<ForgejoRepo>>, (reply, name), a),
        name@ == "forge list_org_repos"@,
    ensures
        match (a, r) {
            (Ok(repos), Ok(list)) => list@.len() == repos@.len() && forall|i: int|
                0 <= i < repos@.len() ==> told(#[trigger] repos@[i], list@[i]),
            (Err(e), Err(f)) => e.message@ == f.message@,
            _ => false,
        },
{
    if let (Ok(repos), Ok(list)) = (a, r) {
        assert(infos(repos@).len() == repos@.len());
        assert forall|i: int| 0 <= i < repos@.len() implies told(
            #[trigger] repos@[i],
            list@[i],
        ) by {
            assert(infos(repos@)[i] == list@[i]);
        }
    }
}

/// A minted token gives its secret, and an answer without one is a failure.
pub proof fn law_minted_secret_is_told(
    reply: ForgeReply<ForgejoToken>,
    r: Result<String, ForgeError>,
    name: &str,
    a: Result<ForgejoToken, ForgeError>,
)
    requires
        call_ensures(token_minted, (reply,), r),
        call_ensures(accept::<ForgejoToken>, (reply, name), a),
        name@ == "forge mint scoped token"@,
    ensures
        match a {
            Ok(token) => if token.sha1@.len() > 0 {
                r is Ok && r->Ok_0@ == token.sha1@
            } else {
                r is Err && r->Err_0.message@ == "forge scoped token response missing sha1"@
            },
            Err(e) => r is Err && r->Err_0.message@ == e.message@,
        },
{
}

/// An opened pull request gives its number and its address.
pub proof fn law_opened_pull_request_is_told(
    reply: ForgeReply<ForgejoPr>,
    r: Result<ForgePrResp, ForgeError>,
    name: &str,
    a: Result<ForgejoPr, ForgeError>,
)
    requires
        call_ensures(pr_opened, (reply,), r),
        call_ensures(accept::<ForgejoPr>, (reply, name), a),
        name@ == "forge open_pr"@,
    ensures
        match (a, r) {
            (Ok(pr), Ok(resp)) => resp.number == pr.number && resp.web_url@ == pr.html_url@,
            (Err(e), Err(f)) => e.message@ == f.message@,
            _ => false,
        },
{
}

/// A repository that was read gives its default branch.
pub proof fn law_default_branch_is_told(
    reply: ForgeReply<ForgejoRepo>,
    r: Result<String, ForgeError>,
    name: &str,
    a: Result<ForgejoRepo, ForgeError>,
)
    requires
        call_ensures(branch_read, (reply,), r),
        call_ensures(accept::<ForgejoRepo>, (reply, name), a),
        name@ == "forge get repo"@,
    ensures
        match (a, r) {
            (Ok(repo), Ok(branch)) => branch@ == repo.default_branch@,
            (Err(e), Err(f)) => e.message@ == f.message@,
            _ => false,
        },
{
}

// ---------------------------------------------------------------------------
// Files
// ---------------------------------------------------------------------------

proof fn lemma_space_apart(a: Seq<char>, b: Seq<char>)
    ensures
        without_space(a + b) == without_space(a) + without_space(b),
    decreases b.len(),
{
    if b.len() == 0 {
        assert(a + b == a);
        assert(without_space(a) + without_space(b) == without_space(a));
    } else {
        assert((a + b).drop_last() == a + b.drop_last());
        lemma_space_apart(a, b.drop_last());
        if !is_space(b.last()) {
            assert((without_space(a) + without_space(b.drop_last())).push(b.last())
                == without_space(a) + without_space(b));
        }
    }
}

/// Stripping takes every white space out of a text and leaves every other
/// character in its place.
pub proof fn law_only_space_is_stripped(
    s: &str,
    r: String,
    a: &str,
    a_r: String,
    c: char,
    b: &str,
    b_r: String,
)
    requires
        call_ensures(strip_space, (s,), r),
        call_ensures(strip_space, (a,), a_r),
        call_ensures(strip_space, (b,), b_r),
    ensures
        s@.len() == 0 ==> r@.len() == 0,
        s@ == a@ + seq![c] + b@ ==> r@ == if is_space(c) {
            a_r@ + b_r@
        } else {
            a_r@ + seq![c] + b_r@
        },
{
    if s@ == a@ + seq![c] + b@ {
        lemma_space_apart(a@ + seq![c], b@);
        lemma_space_apart(a@, seq![c]);
        let one = seq![c];
        assert(one.drop_last() == Seq::<char>::empty());
        assert(without_space(one) == if is_space(c) {
            Seq::<char>::empty()
        } else {
            one
        }) by {
            assert(without_space(Seq::<char>::empty()) == Seq::<char>::empty());
            assert(one.last() == c);
            assert(Seq::<char>::empty().push(c) == one);
        }
        if is_space(c) {
            assert(without_space(a@) + Seq::<char>::empty() == without_space(a@));
        }
    }
}

/// A file that was written reads back as it was, however the forge breaks its
/// base64 with white space, and with the hash that the forge gives.
pub proof fn law_written_file_reads_back(
    c: &ForgeClient,
    org: &str,
    repo: &str,
    path: &str,
    message: &str,
    content: &str,
    branch: &str,
    sha: Option<&str>,
    call: ForgeCall,
    body: GiteaContent,
    carried_text: &str,
    carried_r: String,
    r: Result<ForgeFile, ForgeError>,
)
    requires
        call_ensures(
            ForgeClient::put_file,
            (c, org, repo, path, message, content, branch, sha),
            call,
        ),
        call_ensures(strip_space, (carried_text,), carried_r),
        carried_text@ == body.content@,
        call.body is File,
        carried_r@ == call.body->content@,
        body.encoding@ == "base64"@,
        call_ensures(file_content, (body,), r),
    ensures
        r is Ok,
        r->Ok_0.content@ == content@,
        r->Ok_0.sha@ == body.sha@,
{
}

/// Base64 is read without its white space, and its bytes as text; text that is no
/// base64 is a failure with the reason.
pub proof fn law_base64_is_read_as_text(
    body: GiteaContent,
    r: Result<ForgeFile, ForgeError>,
    text: &str,
    plain: String,
    bytes: Vec<u8>,
    read: Result<String, ForgeError>,
)
    requires
        call_ensures(file_content, (body,), r),
        body.encoding@ == "base64"@,
        text@ == body.content@,
        call_ensures(strip_space, (text,), plain),
        call_ensures(decoded_text, (bytes,), read),
    ensures
        base64_bytes(plain@) matches Err(why) ==> r is Err && r->Err_0.message@ == why,
        base64_bytes(plain@) is Ok && base64_bytes(plain@)->Ok_0 == bytes@ ==> match (r, read) {
            (Ok(file), Ok(t)) => file.content@ == t@ && file.sha@ == body.sha@,
            (Err(e), Err(f)) => e.message@ == f.message@,
            _ => false,
        },
{
}

/// A file in any encoding but base64 is not read.
pub proof fn law_only_base64_is_read(body: GiteaContent, r: Result<ForgeFile, ForgeError>)
    requires
        call_ensures(file_content, (body,), r),
        body.encoding@ != "base64"@,
    ensures
        r is Err,
        r->Err_0.message@ == "forge get_file: unexpected encoding "@ + body.encoding@,
{
}

/// The text of decoded bytes is the text that they encode; bytes that encode none
/// are a failure.
pub proof fn law_decoded_text_is_utf8(bytes: Vec<u8>, r: Result<String, ForgeError>)
    requires
        call_ensures(decoded_text, (bytes,), r),
    ensures
        valid_utf8(bytes@) ==> r is Ok && r->Ok_0@ == decode_utf8(bytes@),
        !valid_utf8(bytes@) ==> r is Err && r->Err_0.message@ == utf8_complaint(bytes@),
{
}

/// A file that is not there is no failure. Any other reply is taken as replies
/// are, and the file that it holds is read.
pub proof fn law_missing_file_is_no_failure(
    org: &str,
    repo: &str,
    reply: ForgeReply<GiteaContent>,
    r: Result<Option<ForgeFile>, ForgeError>,
    name: &str,
    a: Result<GiteaContent, ForgeError>,
    body: GiteaContent,
    file: Result<ForgeFile, ForgeError>,
)
    requires
        call_ensures(file_read, (org, repo, reply), r),
        call_ensures(accept::<GiteaContent>, (reply, name), a),
        call_ensures(file_content, (body,), file),
        name@ == "forge get_file"@ + " "@ + org@ + "/"@ + repo@,
    ensures
        if reply is Answer && reply->code == 404 {
            r is Ok && r->Ok_0 is None
        } else {
            match a {
                Err(e) => r is Err && r->Err_0.message@ == e.message@,
                Ok(b) => b == body ==> match (r, file) {
                    (Ok(Some(x)), Ok(y)) => x.content@ == y.content@ && x.sha@ == y.sha@,
                    (Err(e), Err(f)) => e.message@ == f.message@,
                    _ => false,
                },
            }
        },
{
}

/// A written file gives the hash of its blob.
pub proof fn law_written_hash_is_told(
    org: &str,
    repo: &str,
    reply: ForgeReply<GiteaPutResp>,
    r: Result<String, ForgeError>,
    name: &str,
    a: Result<GiteaPutResp, ForgeError>,
)
    requires
        call_ensures(file_put, (org, repo, reply), r),
        call_ensures(accept::<GiteaPutResp>, (reply, name), a),
        name@ == "forge put_file"@ + " "@ + org@ + "/"@ + repo@,
    ensures
        match (a, r) {
            (Ok(resp), Ok(sha)) => sha@ == resp.content.sha@,
            (Err(e), Err(f)) => e.message@ == f.message@,
            _ => false,
        },
{
}

// ---------------------------------------------------------------------------
// Provisioning
// ---------------------------------------------------------------------------

/// A repository is private or not as the request says, and private if it does not
/// say. The call also carries the name and the description of the request, and is
/// made with the admin token to the organisation that is configured.
pub proof fn law_private_flag_is_kept(
    creds: &Creds,
    cfg: &ForgeCfg,
    req: &ForgeProvisionReq,
    call: ForgeCall,
    token: Option<&str>,
    base: Seq<char>,
    n: nat,
)
    requires
        call_ensures(provision_repo, (creds, cfg, req), Ok::<ForgeCall, CodeError>(call)),
        call_ensures(Creds::forge_admin_token, (creds,), token),
        cfg.base_url@ == base + run_of('/', n),
        base.len() > 0 ==> base.last() != '/',
    ensures
        call.body is Repo,
        req.private matches Some(p) ==> call.body->private == p,
        req.private is None ==> call.body->private,
        call.body->Repo_name@ == req.name@,
        req.description matches Some(d) ==> call.body->description@ == d@,
        req.description is None ==> call.body->description@.len() == 0,
        call.body->auto_init,
        call.method == ForgeMethod::Post,
        call.url@ == base + "/api/v1"@ + ("/orgs/"@ + cfg.org@ + "/repos"@),
        call.query_ref is None,
        token is Some,
        call.auth is Header,
        call.auth->Header_0@ == "token "@ + token->0@,
{
    lemma_without_run_behind(base, '/', n);
}

/// Requests that differ in the private flag alone make calls that differ in it
/// alone.
pub proof fn law_private_flag_is_told_apart(
    creds: &Creds,
    cfg: &ForgeCfg,
    open: &ForgeProvisionReq,
    closed_req: &ForgeProvisionReq,
    a: ForgeCall,
    b: ForgeCall,
)
    requires
        open.name@ == closed_req.name@,
        opt_text(open.description) == opt_text(closed_req.description),
        open.private == Some(false),
        closed_req.private == Some(true) || closed_req.private is None,
        call_ensures(provision_repo, (creds, cfg, open), Ok::<ForgeCall, CodeError>(a)),
        call_ensures(provision_repo, (creds, cfg, closed_req), Ok::<ForgeCall, CodeError>(b)),
    ensures
        a.body is Repo && b.body is Repo,
        !a.body->private && b.body->private,
        a.body->Repo_name@ == b.body->Repo_name@,
        a.body->description@ == b.body->description@,
        a.url@ == b.url@ && a.method == b.method && a.auth@ == b.auth@,
{
}

/// A repository can be created whenever an admin token is held, and never without
/// one.
pub proof fn law_admin_token_is_enough(
    creds: &Creds,
    cfg: &ForgeCfg,
    req: &ForgeProvisionReq,
    r: Result<ForgeCall, CodeError>,
    token: Option<&str>,
)
    requires
        call_ensures(provision_repo, (creds, cfg, req), r),
        call_ensures(Creds::forge_admin_token, (creds,), token),
    ensures
        r is Ok <==> token is Some,
        r matches Err(e) ==> e.code == CodeErrorCode::NeedsCredential && e.message@
            == "forge not provisioned"@,
{
}

/// The forge is configured if both of its variables are set, with what they say.
pub proof fn law_forge_takes_both_variables(
    url: Option<String>,
    org: Option<String>,
    r: Option<ForgeCfg>,
)
    requires
        call_ensures(ForgeCfg::from_env, (url, org), r),
    ensures
        r is Some <==> url is Some && org is Some,
        r matches Some(cfg) ==> cfg.base_url@ == url->0@ && cfg.org@ == org->0@,
{
}

/// `m` is what an object has under `name`: its text if that is a string.
pub open spec fn member_read(o: Map<Seq<char>, Json>, name: Seq<char>, m: Member) -> bool {
    if !o.contains_key(name) {
        m is Absent
    } else if o[name] is Text {
        m is Text && m->Text_0@ == o[name]->Text_0
    } else {
        m is Other
    }
}

/// Of an answer that is a JSON object the members are read under the names that
/// the forge gives them; any other document has none, and what is no document is
/// not read.
pub proof fn law_answer_members_are_read(body: &[u8], r: Option<CreatedRepo>)
    requires
        call_ensures(read_created, (body,), r),
    ensures
        r is Some <==> json_bytes_document(body@) is Some,
        json_bytes_document(body@) matches Some(Json::Object(o)) ==> {
            &&& member_read(o, "full_name"@, r->0.full_name)
            &&& member_read(o, "clone_url"@, r->0.clone_url)
            &&& member_read(o, "html_url"@, r->0.html_url)
            &&& member_read(o, "default_branch"@, r->0.default_branch)
            &&& r->0.private is Some <==> o.contains_key("private"@) && o["private"@] is Flag
            &&& r->0.private is Some ==> r->0.private->0 == o["private"@]->Flag_0
        },
        json_bytes_document(body@) is Some && !(json_bytes_document(body@)->0 is Object) ==> {
            &&& r->0.full_name is Absent && r->0.clone_url is Absent && r->0.html_url is Absent
            &&& r->0.default_branch is Absent && r->0.private is None
        },
{
}

/// What an answer says of a created repository is told as it says it. What it
/// leaves out is empty, but for the branch, which is `main`, and for being
/// private. The name is that of the request.
pub proof fn law_answer_describes_the_repo(
    req: &ForgeProvisionReq,
    c: &CreatedRepo,
    info: ForgeRepoInfo,
)
    requires
        call_ensures(created_info, (req, c), info),
    ensures
        info.name@ == req.name@,
        c.full_name matches Member::Text(t) ==> info.full_name@ == t@,
        !(c.full_name is Text) ==> info.full_name@.len() == 0,
        c.clone_url matches Member::Text(t) ==> info.clone_url@ == t@,
        !(c.clone_url is Text) ==> info.clone_url@.len() == 0,
        c.html_url matches Member::Text(t) ==> info.web_url@ == t@,
        !(c.html_url is Text) ==> info.web_url@.len() == 0,
        c.default_branch matches Member::Text(t) ==> info.default_branch@ == t@,
        !(c.default_branch is Text) ==> info.default_branch@ == "main"@,
        c.private matches Some(p) ==> info.private == p,
        c.private is None ==> info.private,
{
    reveal_strlit("");
}

/// A repository that was created is described by the answer. A refusal in the
/// four hundreds is the caller's fault; every other failure is not, and each
/// tells what went wrong.
pub proof fn law_provisioning_answers(
    req: &ForgeProvisionReq,
    reply: &ForgeReply<Vec<u8>>,
    r: Result<ForgeRepoInfo, CodeError>,
    bytes: &[u8],
    c: Option<CreatedRepo>,
    info: ForgeRepoInfo,
)
    requires
        call_ensures(repo_provisioned, (req, reply), r),
        call_ensures(read_created, (bytes,), c),
        c is Some ==> call_ensures(created_info, (req, &c->0), info),
    ensures
        *reply matches ForgeReply::Failed(why) ==> r is Err && r->Err_0.code
            == CodeErrorCode::Internal && r->Err_0.message@ == "forge"@ + ": "@ + why@,
        *reply matches ForgeReply::Answer { code, status, body } ==> {
            &&& !(200 <= code <= 299) ==> {
                &&& r is Err
                &&& r->Err_0.message@ == "forge create failed"@ + ": "@ + status@
                &&& r->Err_0.code == CodeErrorCode::Invalid <==> 400 <= code <= 499
                &&& r->Err_0.code == CodeErrorCode::Internal <==> !(400 <= code <= 499)
            }
            &&& 200 <= code <= 299 && body is Err ==> {
                &&& r is Err
                &&& r->Err_0.message@ == "forge json"@ + ": "@ + body->Err_0@
                &&& r->Err_0.code == CodeErrorCode::Internal
            }
            &&& 200 <= code <= 299 && body is Ok && body->Ok_0@ == bytes@ ==> match c {
                None => {
                    &&& r is Err
                    &&& r->Err_0.message@ == "forge json"@ + ": "@ + "error decoding response body"@
                    &&& r->Err_0.code == CodeErrorCode::Internal
                },
                Some(_) => {
                    &&& r is Ok
                    &&& r->Ok_0.name@ == info.name@
                    &&& r->Ok_0.full_name@ == info.full_name@
                    &&& r->Ok_0.clone_url@ == info.clone_url@
                    &&& r->Ok_0.web_url@ == info.web_url@
                    &&& r->Ok_0.default_branch@ == info.default_branch@
                    &&& r->Ok_0.private == info.private
                },
            }
        },
{
}

} // verus!
