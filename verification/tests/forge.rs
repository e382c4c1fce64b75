//! The forge: the calls that are made, and what becomes of the replies.

use base64::Engine as _;
use tabbify_broker::contract::{CodeErrorCode, ForgeFileUrlReq, ForgeOpenPrReq, ForgeProvisionReq};
use tabbify_broker::creds::Creds;
use tabbify_broker::forge::client::{
    accept, branch_read, is_success, pr_opened, repo_created, repos_listed, token_minted,
    FieldValue, ForgeAuth, ForgeBody, ForgeCall, ForgeClient, ForgeMethod, ForgeReply, ForgejoPr, ForgejoRepo,
    ForgejoToken,
};
use tabbify_broker::forge::contents::{
    decoded_text, file_content, file_put, file_read, strip_space, GiteaContent, GiteaPutContent,
    GiteaPutResp,
};
use tabbify_broker::forge::git_session::{GitSessions, FORGE_PUSH_CAP_TTL};
use tabbify_broker::forge::handler::{
    ensure_same_tenant, forge_file_url, forge_list_repos, forge_open_pr, internal,
    list_repos_answer, pr_answer, pr_branch_read, push_cap_minted, push_token_listed,
    register_cap, register_forge_push_cap, url_branch_read, ForgeContext, PrStep, UrlStep,
};
use tabbify_broker::forge::push_cap::{cap_of_digest, forge_cap_from, generate_forge_cap};
use tabbify_broker::forge::{
    created_info, provision_repo, read_created, repo_provisioned, CreatedRepo, ForgeCfg,
};
use tabbify_broker::json::Member;

fn client(uri: &str) -> ForgeClient {
    ForgeClient::new(
        uri.into(),
        "http://forge.mesh".into(),
        "admintok".into(),
        "t_acme-bot".into(),
        "ownerpw".into(),
    )
}

fn ctx(uri: &str, org: &str) -> ForgeContext {
    ForgeContext {
        org_slug: org.into(),
        client: ForgeClient::new(
            uri.into(),
            "http://forge.mesh".into(),
            "admintok".into(),
            format!("{org}-bot"),
            "ownerpw".into(),
        ),
    }
}

fn forgejo_repo(name: &str, org: &str) -> ForgejoRepo {
    ForgejoRepo {
        name: name.into(),
        full_name: format!("{org}/{name}"),
        clone_url: format!("http://forge.mesh/{org}/{name}.git"),
        html_url: format!("http://forge.mesh/{org}/{name}"),
        default_branch: "main".into(),
        private: true,
    }
}

fn answer<T>(code: u16, status: &str, body: T) -> ForgeReply<T> {
    ForgeReply::Answer { code, status: status.into(), body: Ok(body) }
}

fn unreadable<T>(code: u16, status: &str, why: &str) -> ForgeReply<T> {
    ForgeReply::Answer { code, status: status.into(), body: Err(why.into()) }
}

fn header(call: &ForgeCall) -> &str {
    match &call.auth {
        ForgeAuth::Header(h) => h,
        other => panic!("{other:?}"),
    }
}

fn basic(call: &ForgeCall) -> String {
    match &call.auth {
        ForgeAuth::Basic { user, password } => {
            let pair = format!("{user}:{password}");
            format!("Basic {}", base64::engine::general_purpose::STANDARD.encode(pair))
        }
        other => panic!("{other:?}"),
    }
}

fn token(name: &str, sha1: &str) -> ForgejoToken {
    ForgejoToken { name: name.into(), sha1: sha1.into() }
}

// ---------------------------------------------------------------------------
// The client
// ---------------------------------------------------------------------------

#[test]
fn create_org_repo_maps_to_contract_shape() {
    let call = client("http://f").create_org_repo("t_acme", "app", true, Some("demo"));
    assert_eq!(call.method, ForgeMethod::Post);
    assert_eq!(call.url, "http://f/api/v1/orgs/t_acme/repos");
    assert_eq!(header(&call), "token admintok");
    match &call.body {
        ForgeBody::Repo { name, private, description, auto_init } => {
            assert_eq!(name, "app");
            assert!(private);
            assert_eq!(description, "demo");
            assert!(auto_init);
        }
        other => panic!("{other:?}"),
    }
    let info = repo_created(answer(201, "201 Created", forgejo_repo("app", "t_acme"))).unwrap();
    assert_eq!(info.full_name, "t_acme/app");
    assert_eq!(info.default_branch, "main");
    assert!(info.private);
    assert!(info.web_url.ends_with("/t_acme/app"));
    assert!(info.clone_url.ends_with("/t_acme/app.git"));
}

#[test]
fn list_org_repos_maps_each_repo() {
    let call = client("http://f//").list_org_repos("t_acme");
    assert_eq!(call.method, ForgeMethod::Get);
    assert_eq!(call.url, "http://f/api/v1/orgs/t_acme/repos");
    let listed = vec![forgejo_repo("a", "t_acme"), forgejo_repo("b", "t_acme")];
    let repos = repos_listed(answer(200, "200 OK", listed)).unwrap();
    assert_eq!(repos.len(), 2);
    assert_eq!(repos[1].full_name, "t_acme/b");
    assert_eq!(repos[0].name, "a");
}

#[test]
fn ensure_scoped_token_mints_via_basic_auth_and_returns_secret() {
    let c = client("http://f");
    let list = c.ensure_scoped_token();
    assert_eq!(list.method, ForgeMethod::Get);
    assert_eq!(list.url, "http://f/api/v1/users/t_acme-bot/tokens");
    assert_eq!(basic(&list), "Basic dF9hY21lLWJvdDpvd25lcnB3");
    let next = c.token_listed("broker-push", &answer(200, "200 OK", Vec::new())).unwrap();
    assert!(next.delete.is_none());
    assert_eq!(next.mint.method, ForgeMethod::Post);
    assert_eq!(next.mint.url, "http://f/api/v1/users/t_acme-bot/tokens");
    assert_eq!(basic(&next.mint), "Basic dF9hY21lLWJvdDpvd25lcnB3");
    match &next.mint.body {
        ForgeBody::Token { name, scopes } => {
            assert_eq!(name, "broker-push");
            assert_eq!(scopes, &["write:organization", "write:repository"]);
        }
        other => panic!("{other:?}"),
    }
    let tok = token_minted(answer(201, "201 Created", token("broker-push", "scoped_tok_xyz")));
    let tok = tok.unwrap();
    assert_eq!(tok, "scoped_tok_xyz");
    assert!(!tok.is_empty(), "scoped token must be non-empty (D1 push credential)");
}

#[test]
fn ensure_scoped_token_errors_when_mint_omits_sha1() {
    let minted = token_minted(answer(201, "201 Created", token("broker-push", "")));
    assert_eq!(minted.unwrap_err().message, "forge scoped token response missing sha1");
}

#[test]
fn a_token_of_the_name_is_deleted_before_the_minting() {
    let c = client("http://f");
    let tokens = || vec![token("other", ""), token("broker-push", "")];
    let next = c.token_listed("broker-push", &answer(200, "200 OK", tokens())).unwrap();
    let delete = next.delete.unwrap();
    assert_eq!(delete.method, ForgeMethod::Delete);
    assert_eq!(delete.url, "http://f/api/v1/users/t_acme-bot/tokens/broker-push");
    assert_eq!(basic(&delete), "Basic dF9hY21lLWJvdDpvd25lcnB3");
    assert_eq!(next.mint.url, c.mint_token("broker-push").url);
    for reply in [answer(403, "403 Forbidden", tokens()), unreadable(200, "200 OK", "eof")] {
        assert!(c.token_listed("broker-push", &reply).unwrap().delete.is_none());
    }
    let failed = ForgeReply::Failed("refused".into());
    assert_eq!(c.token_listed("broker-push", &failed).unwrap_err().message, "refused");
}

#[test]
fn open_pr_maps_to_contract_pr_resp() {
    let call = client("http://f").open_pr("t_acme", "app", "T", "feat", "main", Some("b"));
    assert_eq!(call.method, ForgeMethod::Post);
    assert_eq!(call.url, "http://f/api/v1/repos/t_acme/app/pulls");
    match &call.body {
        ForgeBody::Pull { title, head, base, body } => {
            assert_eq!((title.as_str(), head.as_str()), ("T", "feat"));
            assert_eq!((base.as_str(), body.as_str()), ("main", "b"));
        }
        other => panic!("{other:?}"),
    }
    let made = ForgejoPr { number: 7, html_url: "http://forge.mesh/t_acme/app/pulls/7".into() };
    let pr = pr_opened(answer(201, "201 Created", made)).unwrap();
    assert_eq!(pr.number, 7);
    assert_eq!(pr.web_url, "http://forge.mesh/t_acme/app/pulls/7");
}

#[test]
fn default_branch_reads_repo() {
    let call = client("http://f").default_branch("t_acme", "app");
    assert_eq!(call.method, ForgeMethod::Get);
    assert_eq!(call.url, "http://f/api/v1/repos/t_acme/app");
    let branch = branch_read(answer(200, "200 OK", forgejo_repo("app", "t_acme"))).unwrap();
    assert_eq!(branch, "main");
}

#[test]
fn file_url_builds_shareable_src_link() {
    let c = client("http://unused");
    let u = c.file_url("t_acme", "app", "main", "/src/lib.rs");
    assert_eq!(u.web_url, "http://forge.mesh/t_acme/app/src/main/src/lib.rs");
}

#[test]
fn replies_are_accepted_by_their_status() {
    for code in [200, 201, 204, 299] {
        assert!(is_success(code));
        assert_eq!(accept(answer(code, "s", 1), "c").unwrap(), 1);
    }
    for code in [0, 100, 199, 300, 404, 500] {
        assert!(!is_success(code));
        assert_eq!(accept(answer(code, "404 Not Found", 1), "c").unwrap_err().message, "c: 404 Not Found");
    }
    let refused: ForgeReply<u8> = ForgeReply::Failed("refused".into());
    assert_eq!(accept(refused, "c").unwrap_err().message, "refused");
    assert_eq!(accept(unreadable::<u8>(200, "s", "eof"), "c").unwrap_err().message, "eof");
    assert_eq!(accept(unreadable::<u8>(500, "500 x", "eof"), "c").unwrap_err().message, "c: 500 x");
}

#[test]
fn refused_calls_are_named() {
    let status = "403 Forbidden";
    let repo = || answer(403, status, forgejo_repo("a", "b"));
    assert_eq!(
        repo_created(repo()).unwrap_err().message,
        "forge create_org_repo: 403 Forbidden"
    );
    assert_eq!(branch_read(repo()).unwrap_err().message, "forge get repo: 403 Forbidden");
    assert_eq!(
        repos_listed(answer(403, status, Vec::new())).unwrap_err().message,
        "forge list_org_repos: 403 Forbidden"
    );
    assert_eq!(
        token_minted(answer(403, status, token("a", "b"))).unwrap_err().message,
        "forge mint scoped token: 403 Forbidden"
    );
    let pr = ForgejoPr { number: 1, html_url: "u".into() };
    assert_eq!(
        pr_opened(answer(403, status, pr)).unwrap_err().message,
        "forge open_pr: 403 Forbidden"
    );
}

// ---------------------------------------------------------------------------
// Files
// ---------------------------------------------------------------------------

fn gitea(content: &str, encoding: &str) -> GiteaContent {
    GiteaContent { content: content.into(), encoding: encoding.into(), sha: "s1".into() }
}

#[test]
fn get_file_decodes_base64() {
    let raw = base64::engine::general_purpose::STANDARD.encode(b"[app]\nname=\"x\"\n");
    let with_newline = format!("{raw}\n");
    let call = client("http://f").get_file("t_acme", "app", "tabbify.toml", Some("main"));
    assert_eq!(call.method, ForgeMethod::Get);
    assert_eq!(call.url, "http://f/api/v1/repos/t_acme/app/contents/tabbify.toml");
    assert_eq!(header(&call), "token admintok");
    assert_eq!(call.query_ref.as_deref(), Some("main"));
    let file = file_read("t_acme", "app", answer(200, "200 OK", gitea(&with_newline, "base64")))
        .unwrap()
        .expect("file must be Some when status is 200");
    assert_eq!(file.content, "[app]\nname=\"x\"\n");
    assert_eq!(file.sha, "s1");
}

#[test]
fn get_file_missing_is_none() {
    let call = client("http://f").get_file("t_acme", "app", "tabbify.toml", None);
    assert_eq!(call.query_ref, None);
    let reply = unreadable(404, "404 Not Found", "missing field `content`");
    let result = file_read("t_acme", "app", reply).unwrap();
    assert!(result.is_none(), "404 from Forgejo must map to Ok(None)");
}

fn put_parts(call: &ForgeCall) -> (&str, &str, &str, Option<&str>) {
    match &call.body {
        ForgeBody::File { message, content, branch, sha } => {
            (message, content, branch, sha.as_deref())
        }
        other => panic!("{other:?}"),
    }
}

fn put_resp(sha: &str) -> GiteaPutResp {
    GiteaPutResp { content: GiteaPutContent { sha: sha.into() } }
}

#[test]
fn put_file_sends_base64_and_returns_sha() {
    let expected_content = base64::engine::general_purpose::STANDARD.encode(b"[app]\nname=\"y\"\n");
    let call = client("http://f").put_file(
        "t_acme",
        "app",
        "tabbify.toml",
        "update tabbify.toml",
        "[app]\nname=\"y\"\n",
        "main",
        Some("s1"),
    );
    assert_eq!(call.method, ForgeMethod::Put);
    assert_eq!(call.url, "http://f/api/v1/repos/t_acme/app/contents/tabbify.toml");
    assert_eq!(header(&call), "token admintok");
    assert_eq!(
        put_parts(&call),
        ("update tabbify.toml", expected_content.as_str(), "main", Some("s1"))
    );
    let new_sha = file_put("t_acme", "app", answer(200, "200 OK", put_resp("s2"))).unwrap();
    assert_eq!(new_sha, "s2");
}

#[test]
fn put_file_sha_none_omits_sha_key() {
    let expected_content =
        base64::engine::general_purpose::STANDARD.encode(b"[app]\nname=\"new\"\n");
    let call = client("http://f").put_file(
        "t_acme",
        "app",
        "tabbify.toml",
        "create tabbify.toml",
        "[app]\nname=\"new\"\n",
        "main",
        None,
    );
    assert_eq!(
        put_parts(&call),
        ("create tabbify.toml", expected_content.as_str(), "main", None)
    );
    let new_sha = file_put("t_acme", "app", answer(201, "201 Created", put_resp("s3"))).unwrap();
    assert_eq!(new_sha, "s3");
}

#[test]
fn what_is_put_is_read_back_whatever_space_is_in_it() {
    for content in ["", "a", "caf\u{e9} \n\u{1f600}", "a longer text that fills several groups"] {
        let call = client("http://f").put_file("o", "r", "p", "m", content, "b", None);
        let sent = put_parts(&call).1.to_string();
        let spaced: String = sent.chars().flat_map(|c| [' ', c, '\n', '\u{a0}']).collect();
        for body in [sent, spaced] {
            assert_eq!(file_content(gitea(&body, "base64")).unwrap().content, content);
        }
    }
}

#[test]
fn files_that_cannot_be_decoded_are_failures() {
    let e = file_content(gitea("YQ==", "none")).unwrap_err();
    assert_eq!(e.message, "forge get_file: unexpected encoding none");
    for bad in ["YQ", "Y", "****", "YR=="] {
        assert!(!file_content(gitea(bad, "base64")).unwrap_err().message.is_empty(), "{bad:?}");
    }
    assert!(file_content(gitea("/w==", "base64")).unwrap_err().message.contains("utf-8"));
    assert!(decoded_text(vec![0xff]).is_err());
    assert_eq!(decoded_text(vec![0xc3, 0xa9]).unwrap(), "\u{e9}");
}

#[test]
fn refused_file_calls_name_the_repository() {
    let reply = answer(500, "500 Internal Server Error", gitea("YQ==", "base64"));
    assert_eq!(
        file_read("o", "r", reply).unwrap_err().message,
        "forge get_file o/r: 500 Internal Server Error"
    );
    assert_eq!(
        file_put("o", "r", answer(409, "409 Conflict", put_resp("x"))).unwrap_err().message,
        "forge put_file o/r: 409 Conflict"
    );
    assert_eq!(file_read("o", "r", ForgeReply::Failed("x".into())).unwrap_err().message, "x");
}

#[test]
fn white_space_is_stripped() {
    assert_eq!(strip_space(" a\tb\r\nc\u{2003}\u{a0}"), "abc");
    assert_eq!(strip_space(""), "");
}

// ---------------------------------------------------------------------------
// The operations of a workspace
// ---------------------------------------------------------------------------

#[test]
fn cross_tenant_repo_is_forbidden() {
    let c = ctx("http://unused", "t_acme");
    assert!(ensure_same_tenant(&c, "app").is_ok());
    assert_eq!(ensure_same_tenant(&c, "t_acme/app").unwrap(), "app");
    let err = ensure_same_tenant(&c, "t_evil/app").unwrap_err();
    assert_eq!(err.code, CodeErrorCode::Forbidden);
}

#[test]
fn tenants_are_told_apart_by_the_first_slash() {
    let c = ctx("http://unused", "t_acme");
    assert_eq!(ensure_same_tenant(&c, "t_acme/a/b").unwrap(), "a/b");
    assert_eq!(ensure_same_tenant(&c, "").unwrap(), "");
    for repo in ["/app", "t_acm/app", "t_acme2/app", "T_ACME/app"] {
        let e = ensure_same_tenant(&c, repo).unwrap_err();
        assert_eq!(
            e.message,
            "forge repo resolves under another org — cross-tenant access forbidden"
        );
    }
}

#[test]
fn names_that_lead_out_of_the_org_are_forbidden() {
    let c = ctx("http://unused", "t_acme");
    for repo in [
        "t_acme/../t_evil/app",
        "t_acme/a/../../t_evil/app",
        "t_acme/..",
        "t_acme/.",
        "..",
        ".",
        "..\\t_evil\\app",
        "a\\..\\..\\t_evil",
        "%2e%2e",
        ".%2E",
        "t_acme/%2E./x",
        "..%2ft_evil",
        "..%5Ct_evil",
        ".\t.",
        "%2\ne.",
        ".. ",
        "..?x",
        "..#x",
        "..\u{1}",
        "t_acme/a/.. \t",
    ] {
        let e = ensure_same_tenant(&c, repo).unwrap_err();
        assert_eq!(e.code, CodeErrorCode::Forbidden, "{repo:?}");
    }
    for repo in ["...", ".git", "a..b", "a.", "..a", "%2", "%2e%2e%2e", "a/", "%252e.", ". .", " .."] {
        let own = format!("t_acme/{repo}");
        assert_eq!(ensure_same_tenant(&c, &own).unwrap(), repo, "{repo:?}");
    }
}

#[test]
fn accepted_names_resolve_in_the_org() {
    let c = ctx("http://f", "t_acme");
    for repo in [
        "app",
        "a/b",
        "a\\b",
        "...",
        "%2e%2e%2e",
        "a%2f..b",
        "x?y",
        "x#y",
        " a ",
        ". .",
        " ..",
        "\u{1}..",
        ".. ?x",
        "a?../x",
        "a#..",
    ] {
        let own = format!("t_acme/{repo}");
        let name = ensure_same_tenant(&c, &own).unwrap();
        let url = c.client.default_branch("t_acme", &name).url;
        let pull = c.client.open_pr("t_acme", &name, "t", "h", "b", None).url;
        for url in [url, pull] {
            let resolved = reqwest::Url::parse(&url).unwrap();
            let rest = resolved.path().strip_prefix("/api/v1/repos/t_acme/").unwrap();
            assert!(!rest.is_empty(), "{resolved}");
        }
    }
}

#[test]
fn bodies_are_sent_by_their_members() {
    let names = |body: &ForgeBody| -> Vec<&'static str> {
        body.clone().fields().iter().map(|f| f.name).collect()
    };
    let c = client("http://f");
    let put = |sha| c.put_file("o", "r", "p", "m", "c", "b", sha).body;
    assert_eq!(names(&put(None)), vec!["message", "content", "branch"]);
    assert_eq!(names(&put(Some("s"))), vec!["message", "content", "branch", "sha"]);
    let fields = put(Some("s")).fields();
    assert!(matches!(&fields[3].value, FieldValue::Text(t) if t == "s"));
    let repo = c.create_org_repo("o", "n", false, None).body;
    assert_eq!(names(&repo), vec!["name", "private", "description", "auto_init"]);
    assert!(matches!(repo.fields()[1].value, FieldValue::Flag(false)));
    let token = c.mint_token("t").body;
    assert_eq!(names(&token), vec!["name", "scopes"]);
    assert!(matches!(&token.fields()[1].value, FieldValue::Texts(v) if v.len() == 2));
    let pull = c.open_pr("o", "r", "t", "h", "b", None).body;
    assert_eq!(names(&pull), vec!["title", "head", "base", "body"]);
    assert!(c.list_org_repos("o").body.fields().is_empty());
}

#[test]
fn list_repos_returns_real_data_not_empty_stub() {
    let call = forge_list_repos(&ctx("http://f", "t_acme"));
    assert_eq!(call.method, ForgeMethod::Get);
    assert_eq!(call.url, "http://f/api/v1/orgs/t_acme/repos");
    let listed = vec![forgejo_repo("app", "t_acme")];
    let resp = list_repos_answer(answer(200, "200 OK", listed)).into_result().unwrap();
    assert_eq!(resp.repos.len(), 1);
    assert_eq!(resp.repos[0].full_name, "t_acme/app");
    let e = list_repos_answer(ForgeReply::Failed("refused".into())).into_result().unwrap_err();
    assert_eq!(e.code, CodeErrorCode::Internal);
    assert_eq!(e.message, "forge: refused");
}

fn pr_req(repo: &str, base: Option<&str>) -> ForgeOpenPrReq {
    ForgeOpenPrReq {
        repo: repo.into(),
        title: "t".into(),
        head: "feat".into(),
        base: base.map(str::to_owned),
        body: None,
    }
}

#[test]
fn open_pr_in_another_org_is_forbidden_before_any_call() {
    let c = ctx("http://127.0.0.1:1", "t_acme");
    match forge_open_pr(&c, &pr_req("t_evil/app", Some("main"))) {
        PrStep::Answer(a) => {
            assert_eq!(a.into_result().unwrap_err().code, CodeErrorCode::Forbidden);
        }
        other => panic!("{other:?}"),
    }
    let reply = answer(200, "200 OK", forgejo_repo("app", "t_evil"));
    let e = pr_branch_read(&c, &pr_req("t_evil/app", None), reply).unwrap_err();
    assert_eq!(e.code, CodeErrorCode::Forbidden);
}

#[test]
fn open_pr_in_own_org_maps_to_pr_resp() {
    let c = ctx("http://f", "t_acme");
    match forge_open_pr(&c, &pr_req("app", Some("main"))) {
        PrStep::Open(call) => {
            assert_eq!(call.method, ForgeMethod::Post);
            assert_eq!(call.url, "http://f/api/v1/repos/t_acme/app/pulls");
        }
        other => panic!("{other:?}"),
    }
    let made = ForgejoPr { number: 3, html_url: "http://forge.mesh/t_acme/app/pulls/3".into() };
    let pr = pr_answer(answer(201, "201 Created", made)).into_result().unwrap();
    assert_eq!(pr.number, 3);
    assert_eq!(pr.web_url, "http://forge.mesh/t_acme/app/pulls/3");
}

#[test]
fn open_pr_without_a_base_takes_the_default_branch() {
    let c = ctx("http://f", "t_acme");
    let req = pr_req("t_acme/app", None);
    match forge_open_pr(&c, &req) {
        PrStep::ReadRepo(call) => assert_eq!(call.url, "http://f/api/v1/repos/t_acme/app"),
        other => panic!("{other:?}"),
    }
    let mut repo = forgejo_repo("app", "t_acme");
    repo.default_branch = "trunk".into();
    let call = pr_branch_read(&c, &req, answer(200, "200 OK", repo)).unwrap();
    assert_eq!(call.url, "http://f/api/v1/repos/t_acme/app/pulls");
    match &call.body {
        ForgeBody::Pull { base, body, .. } => {
            assert_eq!(base, "trunk");
            assert_eq!(body, "");
        }
        other => panic!("{other:?}"),
    }
    let e = pr_branch_read(&c, &req, unreadable(404, "404 Not Found", "x")).unwrap_err();
    assert_eq!(e.message, "forge: forge get repo: 404 Not Found");
    let e = pr_answer(unreadable(200, "200 OK", "eof")).into_result().unwrap_err();
    assert_eq!(e.message, "forge: eof");
}

fn url_req(repo: &str, path: &str, git_ref: Option<&str>) -> ForgeFileUrlReq {
    ForgeFileUrlReq { repo: repo.into(), path: path.into(), git_ref: git_ref.map(str::to_owned) }
}

#[test]
fn file_url_in_another_org_is_forbidden() {
    let c = ctx("http://unused", "t_acme");
    let req = url_req("t_evil/app", "lib.rs", Some("main"));
    match forge_file_url(&c, &req) {
        UrlStep::Answer(a) => {
            assert_eq!(a.into_result().unwrap_err().code, CodeErrorCode::Forbidden);
        }
        other => panic!("{other:?}"),
    }
    let reply = answer(200, "200 OK", forgejo_repo("app", "t_evil"));
    let e = url_branch_read(&c, &req, reply).into_result().unwrap_err();
    assert_eq!(e.code, CodeErrorCode::Forbidden);
}

#[test]
fn file_url_with_explicit_ref_needs_no_network() {
    let req = url_req("app", "/src/lib.rs", Some("main"));
    match forge_file_url(&ctx("http://127.0.0.1:1", "t_acme"), &req) {
        UrlStep::Answer(a) => {
            let url = a.into_result().unwrap();
            assert_eq!(url.web_url, "http://forge.mesh/t_acme/app/src/main/src/lib.rs");
        }
        other => panic!("{other:?}"),
    }
}

#[test]
fn file_url_without_a_ref_takes_the_default_branch() {
    let c = ctx("http://f", "t_acme");
    let req = url_req("t_acme/app", "//a", None);
    match forge_file_url(&c, &req) {
        UrlStep::ReadRepo(call) => assert_eq!(call.url, "http://f/api/v1/repos/t_acme/app"),
        other => panic!("{other:?}"),
    }
    let reply = answer(200, "200 OK", forgejo_repo("app", "t_acme"));
    let url = url_branch_read(&c, &req, reply).into_result().unwrap();
    assert_eq!(url.web_url, "http://forge.mesh/t_acme/app/src/main/a");
    let e = url_branch_read(&c, &req, ForgeReply::Failed("x".into())).into_result().unwrap_err();
    assert_eq!(e.message, "forge: x");
}

const NOW: u64 = 5_000_000_000;

#[test]
fn register_push_cap_mints_token_and_registers_real_entry() {
    let c = ctx("http://f", "t_acme");
    let push = register_forge_push_cap(&c, "app").unwrap();
    assert_eq!(push.token_name, "broker-push-t_acme-app");
    assert_eq!(push.call.url, "http://f/api/v1/users/t_acme-bot/tokens");
    let next = push_token_listed(&c, &push, &answer(200, "200 OK", Vec::new())).unwrap();
    assert!(next.delete.is_none());
    assert_eq!(next.mint.url, "http://f/api/v1/users/t_acme-bot/tokens");

    let mut sessions = GitSessions::default();
    let minted = answer(201, "201 Created", token("broker-push-t_acme-app", "scoped_tok_xyz"));
    let clone_url = "http://forge.mesh/t_acme/app.git";
    let cap = push_cap_minted(&mut sessions, &c, &push, clone_url, NOW, minted).unwrap();
    assert_eq!(cap.len(), 64, "cap-key is 256-bit (64 hex chars)");
    let (upstream, token) = sessions.lookup(&cap, NOW).expect("registered + unexpired");
    assert_eq!(upstream, "http://forge.mesh/t_acme/app.git");
    assert_eq!(token, "scoped_tok_xyz");
    assert!(!upstream.contains("scoped_tok_xyz"), "token never embedded in the URL");
}

#[test]
fn register_push_cap_in_another_org_is_forbidden() {
    let c = ctx("http://127.0.0.1:1", "t_acme");
    let err = register_forge_push_cap(&c, "t_evil/app").unwrap_err();
    assert_eq!(err.code, CodeErrorCode::Forbidden);
}

#[test]
fn a_push_cap_that_fails_registers_nothing() {
    let c = ctx("http://f", "t_acme");
    let push = register_forge_push_cap(&c, "app").unwrap();
    let failed = ForgeReply::Failed("refused".into());
    assert_eq!(push_token_listed(&c, &push, &failed).unwrap_err().message, "forge: refused");
    let mut sessions = GitSessions::default();
    let blank = answer(201, "201 Created", token("n", ""));
    let e = push_cap_minted(&mut sessions, &c, &push, "u", NOW, blank).unwrap_err();
    assert_eq!(e.code, CodeErrorCode::Internal);
    assert_eq!(e.message, "forge: forge scoped token response missing sha1");
    let refused = unreadable(401, "401 Unauthorized", "x");
    let e = push_cap_minted(&mut sessions, &c, &push, "u", NOW, refused).unwrap_err();
    assert_eq!(e.message, "forge: forge mint scoped token: 401 Unauthorized");
}

#[test]
fn a_push_cap_is_good_for_an_hour() {
    let mut sessions = GitSessions::default();
    register_cap(&mut sessions, "cap".into(), "url", "tok".into(), NOW);
    let hour = 3_600_000_000_000;
    assert_eq!(FORGE_PUSH_CAP_TTL, 3600);
    let found = Some(("url".to_string(), "tok".to_string()));
    assert_eq!(sessions.lookup("cap", NOW), found);
    assert_eq!(sessions.lookup("cap", NOW + hour), found);
    assert_eq!(sessions.lookup("cap", NOW + hour + 1), None);
}

#[test]
fn caps_are_digests_in_hexadecimal() {
    let digest = blake3::hash(b"t_acme/app:salt-a:salt-b");
    let cap = forge_cap_from("t_acme", "app", "salt-a", "salt-b");
    assert_eq!(cap, hex::encode(digest.as_bytes()));
    assert_eq!(cap, digest.to_hex().to_string());
    let mut bytes = [0u8; 32];
    bytes[0] = 0x0f;
    bytes[31] = 0xa9;
    assert_eq!(cap_of_digest(&bytes), format!("0f{}a9", "0".repeat(60)));
}

#[test]
fn caps_are_fresh() {
    let a = generate_forge_cap("t_acme", "app");
    let b = generate_forge_cap("t_acme", "app");
    assert_ne!(a, b);
    for cap in [a, b] {
        assert_eq!(cap.len(), 64);
        assert!(cap.chars().all(|c| matches!(c, '0'..='9' | 'a'..='f')));
    }
}

#[test]
fn failed_calls_are_internal_errors() {
    let e = accept(ForgeReply::<u8>::Failed("x".into()), "c").unwrap_err();
    let e = internal(&e);
    assert_eq!(e.code, CodeErrorCode::Internal);
    assert_eq!(e.message, "forge: x");
}

// ---------------------------------------------------------------------------
// Creating a repository with the admin token
// ---------------------------------------------------------------------------

fn provision(private: Option<bool>, description: Option<&str>) -> ForgeProvisionReq {
    ForgeProvisionReq {
        name: "app".into(),
        private,
        description: description.map(str::to_owned),
    }
}

#[test]
fn the_configuration_takes_both_variables() {
    let cfg = ForgeCfg::from_env(Some("http://f".into()), Some("t_acme".into())).unwrap();
    assert_eq!((cfg.base_url.as_str(), cfg.org.as_str()), ("http://f", "t_acme"));
    assert!(ForgeCfg::from_env(None, Some("t_acme".into())).is_none());
    assert!(ForgeCfg::from_env(Some("http://f".into()), None).is_none());
}

#[test]
fn provisioning_takes_the_admin_token() {
    let cfg = ForgeCfg { base_url: "http://f/".into(), org: "t_acme".into() };
    let e = provision_repo(&Creds::default(), &cfg, &provision(None, None)).unwrap_err();
    assert_eq!(e.code, CodeErrorCode::NeedsCredential);
    assert_eq!(e.message, "forge not provisioned");

    let creds = Creds::load(&Vec::new(), Some("ghs_secret\n"), None);
    let call = provision_repo(&creds, &cfg, &provision(None, None)).unwrap();
    assert_eq!(call.method, ForgeMethod::Post);
    assert_eq!(call.url, "http://f/api/v1/orgs/t_acme/repos");
    assert_eq!(header(&call), "token ghs_secret");
    match &call.body {
        ForgeBody::Repo { name, private, description, auto_init } => {
            assert_eq!(name, "app");
            assert!(*private && *auto_init);
            assert_eq!(description, "");
        }
        other => panic!("{other:?}"),
    }
    let call = provision_repo(&creds, &cfg, &provision(Some(false), Some("d"))).unwrap();
    match &call.body {
        ForgeBody::Repo { private, description, .. } => {
            assert!(!private);
            assert_eq!(description, "d");
        }
        other => panic!("{other:?}"),
    }
}

#[test]
fn provisioned_repositories_are_described() {
    let req = provision(None, None);
    let body = br#"{"full_name":"t_acme/app","clone_url":"c","html_url":"h","default_branch":"dev","private":false}"#;
    let info = repo_provisioned(&req, &answer(201, "201 Created", body.to_vec())).unwrap();
    assert_eq!(info.name, "app");
    assert_eq!(info.full_name, "t_acme/app");
    assert_eq!(info.clone_url, "c");
    assert_eq!(info.web_url, "h");
    assert_eq!(info.default_branch, "dev");
    assert!(!info.private);
    for body in ["{}", "[]", r#"{"full_name":1,"default_branch":null,"private":"no"}"#] {
        let reply = answer(200, "200 OK", body.as_bytes().to_vec());
        let info = repo_provisioned(&req, &reply).unwrap();
        assert_eq!(info.full_name, "");
        assert_eq!(info.default_branch, "main");
        assert!(info.private);
    }
}

#[test]
fn failed_provisioning_tells_whose_fault_it_is() {
    let req = provision(None, None);
    let error = |reply: &ForgeReply<Vec<u8>>| {
        let e = repo_provisioned(&req, reply).unwrap_err();
        (e.code, e.message)
    };
    assert_eq!(
        error(&answer(409, "409 Conflict", Vec::new())),
        (CodeErrorCode::Invalid, "forge create failed: 409 Conflict".into())
    );
    assert_eq!(
        error(&answer(503, "503 Service Unavailable", Vec::new())),
        (CodeErrorCode::Internal, "forge create failed: 503 Service Unavailable".into())
    );
    assert_eq!(
        error(&answer(302, "302 Found", Vec::new())),
        (CodeErrorCode::Internal, "forge create failed: 302 Found".into())
    );
    assert_eq!(
        error(&ForgeReply::Failed("refused".into())),
        (CodeErrorCode::Internal, "forge: refused".into())
    );
    assert_eq!(
        error(&unreadable(200, "200 OK", "eof")),
        (CodeErrorCode::Internal, "forge json: eof".into())
    );
    assert_eq!(
        error(&answer(200, "200 OK", b"no json".to_vec())),
        (CodeErrorCode::Internal, "forge json: error decoding response body".into())
    );
}

#[test]
fn the_members_of_an_answer_are_read() {
    let c = read_created(br#"{"full_name":"f","html_url":[],"private":true}"#).unwrap();
    assert!(matches!(&c.full_name, Member::Text(t) if t == "f"));
    assert!(matches!(c.html_url, Member::Other));
    assert!(matches!(c.clone_url, Member::Absent));
    assert_eq!(c.private, Some(true));
    assert!(read_created(b"\xff").is_none());
    let given = CreatedRepo {
        full_name: Member::Other,
        clone_url: Member::Text("c".into()),
        html_url: Member::Absent,
        default_branch: Member::Text("".into()),
        private: Some(false),
    };
    let info = created_info(&provision(None, None), &given);
    assert_eq!(info.full_name, "");
    assert_eq!(info.clone_url, "c");
    assert_eq!(info.default_branch, "");
    assert!(!info.private);
}
