//! What requests come to.

use tabbify_broker::contract::{
    CodeError, CodeErrorCode, CodeResponse, ForgeFileUrlReq, ForgeOpenPrReq, ForgeProvisionReq,
    GitOp, GitOpReq,
};
use tabbify_broker::creds::{CapFile, Creds, ForgeOwnerCreds};
use tabbify_broker::dispatch::{
    add_key_answer, dispatch, forge_context, scrub_acknowledged, Step, SCRUB_LINE,
};
use tabbify_broker::forge::client::ForgeAuth;
use tabbify_broker::forge::handler::{PrStep, UrlStep};
use tabbify_broker::forge::ForgeCfg;
use tabbify_broker::request::AddSshKeyReq;
use tabbify_broker::BrokerRequest;

fn cfg() -> Option<ForgeCfg> {
    Some(ForgeCfg { base_url: "http://f/".into(), org: "t_acme".into() })
}

fn creds() -> Creds {
    let files = vec![CapFile {
        name: "demo.url".into(),
        contents: Some("http://172.31.0.1:8788/git/CAP\n".into()),
    }];
    let owner = ForgeOwnerCreds {
        owner_user: "u".into(),
        owner_password: "p".into(),
        admin_token: "a".into(),
    };
    Creds::load(&files, Some("{}"), Some(owner))
}

fn all_forge_requests() -> Vec<BrokerRequest> {
    vec![
        BrokerRequest::ForgeProvision(ForgeProvisionReq {
            name: "n".into(),
            private: None,
            description: None,
        }),
        BrokerRequest::ForgeList,
        BrokerRequest::ForgeOpenPr(ForgeOpenPrReq {
            repo: "app".into(),
            title: "t".into(),
            head: "h".into(),
            base: None,
            body: None,
        }),
        BrokerRequest::ForgeFileUrl(ForgeFileUrlReq {
            repo: "app".into(),
            path: "/a".into(),
            git_ref: Some("main".into()),
        }),
    ]
}

fn refusal(step: Step) -> (CodeErrorCode, String) {
    match step {
        Step::Refuse(e) => (e.code, e.message),
        _ => panic!("the request is refused"),
    }
}

fn caps(step: Step) -> Vec<String> {
    match step {
        Step::Answer(a) => a.caps,
        _ => panic!("the request is answered"),
    }
}

#[test]
fn list_caps_round_trip() {
    let mut held = creds();
    let names = caps(dispatch(&mut held, None, "/p", Ok(BrokerRequest::ListCaps)));
    assert!(names.iter().any(|c| c == "git:demo"));
    assert!(!names.iter().any(|c| c.contains("CAP")));
    match dispatch(&mut held, None, "/p", Ok(BrokerRequest::PreSnapshotScrub)) {
        Step::Dropped { answer, wiped } => {
            assert!(answer.caps.is_empty());
            assert_eq!(wiped.len(), 5);
            assert!(wiped.iter().flatten().all(|b| *b == 0));
        }
        _ => panic!("the credentials are dropped"),
    }
    assert!(
        caps(dispatch(&mut held, None, "/p", Ok(BrokerRequest::ListCaps))).is_empty(),
        "scrub must drop the in-RAM cap so the snapshot freezes nothing"
    );
}

#[test]
fn forge_requests_need_a_configuration() {
    for request in all_forge_requests() {
        assert_eq!(
            refusal(dispatch(&mut creds(), None, "/p", Ok(request))),
            (CodeErrorCode::NeedsCredential, "forge not configured".into())
        );
    }
}

#[test]
fn forge_requests_need_credentials() {
    for request in all_forge_requests() {
        assert_eq!(
            refusal(dispatch(&mut Creds::default(), cfg(), "/p", Ok(request))),
            (CodeErrorCode::NeedsCredential, "forge not provisioned".into())
        );
    }
    let mut bare = Creds::load(&Vec::new(), Some("tok"), None);
    assert_eq!(
        refusal(dispatch(&mut bare, cfg(), "/p", Ok(BrokerRequest::ForgeList))).1,
        "forge not provisioned"
    );
    let mut requests = all_forge_requests();
    let step = dispatch(&mut bare, cfg(), "/p", Ok(requests.remove(0)));
    assert!(matches!(step, Step::CreateRepo { .. }));
}

#[test]
fn forge_requests_begin_with_the_held_credentials() {
    let mut held = creds();
    let mut requests = all_forge_requests();
    match dispatch(&mut held, cfg(), "/p", Ok(requests.remove(0))) {
        Step::CreateRepo { call, req } => {
            assert_eq!(call.url, "http://f/api/v1/orgs/t_acme/repos");
            assert!(matches!(&call.auth, ForgeAuth::Header(h) if h == "token a"));
            assert_eq!(req.name, "n");
        }
        _ => panic!("a repository is created"),
    }
    match dispatch(&mut held, cfg(), "/p", Ok(requests.remove(0))) {
        Step::ListRepos { call } => assert_eq!(call.url, "http://f/api/v1/orgs/t_acme/repos"),
        _ => panic!("repositories are listed"),
    }
    match dispatch(&mut held, cfg(), "/p", Ok(requests.remove(0))) {
        Step::OpenPr { ctx, req, step: PrStep::ReadRepo(call) } => {
            assert_eq!(call.url, "http://f/api/v1/repos/t_acme/app");
            assert_eq!(ctx.org_slug, "t_acme");
            assert_eq!(req.title, "t");
        }
        _ => panic!("the repository is read"),
    }
    match dispatch(&mut held, cfg(), "/p", Ok(requests.remove(0))) {
        Step::LinkFile { step: UrlStep::Answer(a), .. } => {
            assert_eq!(a.into_result().unwrap().web_url, "http://f/t_acme/app/src/main/a");
        }
        _ => panic!("the link is there"),
    }
    assert_eq!(held.cap_names(), vec!["forge", "git:demo"]);
}

#[test]
fn git_requests_run_under_the_directory_of_the_projects() {
    let req = |repo: &str| {
        Ok(BrokerRequest::GitOp(GitOpReq { repo: repo.into(), op: GitOp::Fetch, git_ref: None }))
    };
    match dispatch(&mut creds(), None, "/p", req("demo")) {
        Step::RunGit { run, op } => {
            assert_eq!(run.args, vec!["fetch", "http://172.31.0.1:8788/git/CAP"]);
            assert_eq!(run.cwd, "/p/demo");
            assert_eq!(op, GitOp::Fetch);
        }
        _ => panic!("git is run"),
    }
    assert_eq!(
        refusal(dispatch(&mut creds(), None, "/p", req("a/b"))),
        (CodeErrorCode::Forbidden, "invalid repo".into())
    );
}

#[test]
fn after_a_scrub_git_gets_no_capability() {
    let mut held = creds();
    dispatch(&mut held, None, "/p", Ok(BrokerRequest::PreSnapshotScrub));
    let req = GitOpReq { repo: "demo".into(), op: GitOp::Push, git_ref: None };
    match dispatch(&mut held, None, "/p", Ok(BrokerRequest::GitOp(req))) {
        Step::RunGit { run, .. } => {
            assert_eq!(run.args, vec!["push", "origin"]);
            assert_eq!(run.cap_url, None);
        }
        _ => panic!("git is run"),
    }
}

#[test]
fn keys_are_handed_over_to_be_appended() {
    let req = BrokerRequest::AddSshKey(AddSshKeyReq { pubkey: " ssh-rsa A".into() });
    match dispatch(&mut creds(), None, "/p", Ok(req)) {
        Step::AppendKey { pubkey } => assert_eq!(pubkey, " ssh-rsa A"),
        _ => panic!("the key is appended"),
    }
    assert!(add_key_answer(Ok(())).into_result().unwrap().caps.is_empty());
    let e = CodeError::new(CodeErrorCode::Invalid, "m");
    assert_eq!(add_key_answer(Err(e)).into_result().unwrap_err().message, "m");
}

#[test]
fn lines_that_are_no_request_are_refused() {
    let mut held = creds();
    assert_eq!(
        refusal(dispatch(&mut held, cfg(), "/p", Err("expected value".into()))),
        (CodeErrorCode::Invalid, "bad request: expected value".into())
    );
    assert_eq!(held.cap_names().len(), 2);
}

#[test]
fn the_forge_context_is_that_of_the_workspace() {
    let ctx = forge_context(&creds(), cfg()).unwrap();
    assert_eq!(ctx.org_slug, "t_acme");
    assert_eq!(ctx.client.api("/x"), "http://f/api/v1/x");
    assert_eq!(ctx.client.file_url("o", "r", "g", "p").web_url, "http://f/o/r/src/g/p");
}

#[test]
fn answers_hold_a_result_or_an_error() {
    let a: CodeResponse<u8> = CodeResponse::ok(1);
    assert!(a.ok && a.error.is_none());
    assert_eq!(a.into_result().unwrap(), 1);
    let e: CodeResponse<u8> =
        CodeResponse::err(CodeError::with_detail(CodeErrorCode::Internal, "c", "d"));
    assert!(!e.ok && e.result.is_none());
    assert_eq!(e.into_result().unwrap_err().message, "c: d");
}

#[test]
fn a_scrub_is_acknowledged_by_an_ok_answer() {
    assert_eq!(SCRUB_LINE, "{\"kind\":\"pre_snapshot_scrub\"}\n");
    assert!(scrub_acknowledged("{\"ok\":true,\"result\":{\"caps\":[]}}\n"));
    assert!(!scrub_acknowledged("{\"ok\":false}\n"));
    assert!(!scrub_acknowledged(""));
}
