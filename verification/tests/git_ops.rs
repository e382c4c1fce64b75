//! Git operations: which command runs, and what is returned of its output.

use tabbify_broker::contract::{CodeErrorCode, GitOp, GitOpReq};
use tabbify_broker::creds::{CapFile, Creds};
use tabbify_broker::git_ops::{
    finish_git_op, git_op_output, git_op_result, head_query, head_sha, run_git_op, safe_repo,
    sanitize, GitEnd,
};

fn req(repo: &str, op: GitOp, git_ref: Option<&str>) -> GitOpReq {
    GitOpReq { repo: repo.into(), op, git_ref: git_ref.map(str::to_owned) }
}

fn with_cap(repo: &str, url: &str) -> Creds {
    let files = vec![CapFile { name: format!("{repo}.url"), contents: Some(url.into()) }];
    Creds::load(&files, None, None)
}

fn ended(success: bool, stdout: &str, stderr: &str) -> GitEnd {
    GitEnd::Ended { success, stdout: stdout.into(), stderr: stderr.into() }
}

#[test]
fn push_advances_local_remote() {
    let creds = Creds::default();
    let push = req("demo", GitOp::Push, Some("master"));
    let run = run_git_op(&creds, "/w/projects", &push).unwrap();
    assert_eq!(run.args, vec!["push", "origin", "master"]);
    assert_eq!(run.cwd, "/w/projects/demo");

    let end = ended(true, "", "To remote.git\n * [new branch] master -> master\n");
    let output = git_op_output(&run, GitOp::Push, &end).unwrap();
    assert!(!output.contains("x-access-token"));

    let head = head_query(&run);
    assert_eq!(head.args, vec!["rev-parse", "HEAD"]);
    assert_eq!(head.cwd, "/w/projects/demo");
    let remote_sha = "8c0ffee".to_string();
    let res = git_op_result(output, &ended(true, "8c0ffee\n", ""));
    assert_eq!(Some(remote_sha), res.commit_sha);
    assert_eq!(res.output, "To remote.git\n * [new branch] master -> master\n");
}

#[test]
fn the_capability_url_is_the_remote() {
    let creds = with_cap("demo", "http://h:8788/git/CAP//");
    let run = run_git_op(&creds, "/p", &req("demo", GitOp::Fetch, None)).unwrap();
    assert_eq!(run.args, vec!["fetch", "http://h:8788/git/CAP"]);
    assert_eq!(run.cap_url.as_deref(), Some("http://h:8788/git/CAP//"));
    let other = run_git_op(&creds, "/p", &req("other", GitOp::Fetch, Some("main"))).unwrap();
    assert_eq!(other.args, vec!["fetch", "origin", "main"]);
    assert_eq!(other.cap_url, None);
}

#[test]
fn a_clone_runs_in_the_directory_of_the_projects() {
    let creds = with_cap("demo", "http://h/git/CAP");
    let run = run_git_op(&creds, "/p/", &req("demo", GitOp::Clone, Some("ignored"))).unwrap();
    assert_eq!(run.args, vec!["clone", "http://h/git/CAP", "/p/demo"]);
    assert_eq!(run.cwd, "/p/");
    assert_eq!(run.work, "/p/demo");
    let run = run_git_op(&creds, "", &req("demo", GitOp::Push, None)).unwrap();
    assert_eq!(run.work, "demo");
    assert_eq!(run.args, vec!["push", "http://h/git/CAP"]);
}

#[test]
fn only_single_segments_name_a_repo() {
    for ok in ["demo", "a.b", "...", ".git", "-x", "a b"] {
        assert!(safe_repo(ok).is_ok(), "{ok:?}");
    }
    for bad in [".", "..", "/", "a/b", "/a", "a/", "../x", "./x", "x/.", "a//b"] {
        let e = safe_repo(bad).unwrap_err();
        assert_eq!(e.code, CodeErrorCode::Forbidden, "{bad:?}");
        assert_eq!(e.message, "invalid repo");
    }
    let e = safe_repo("").unwrap_err();
    assert_eq!(e.code, CodeErrorCode::Invalid);
    assert_eq!(e.message, "repo is required");
}

#[test]
fn the_same_names_are_single_path_components() {
    for name in ["demo", "a.b", "...", ".", "..", "/", "a/b", "/a", "a/", "./x", "x/.", "a//b"] {
        let mut comps = std::path::Path::new(name).components();
        let single = matches!(
            (comps.next(), comps.next()),
            (Some(std::path::Component::Normal(s)), None) if s == name
        );
        assert_eq!(safe_repo(name).is_ok(), single, "{name:?}");
    }
}

#[test]
fn working_copies_are_joined_as_paths_are() {
    for root in ["/p", "/p/", "", "p", "/", "//"] {
        let run = run_git_op(&Creds::default(), root, &req("demo", GitOp::Push, None)).unwrap();
        let joined = std::path::Path::new(root).join("demo");
        assert_eq!(run.work, joined.to_str().unwrap());
    }
}

#[test]
fn a_refused_repo_runs_nothing() {
    let e = run_git_op(&Creds::default(), "/p", &req("../x", GitOp::Push, None)).unwrap_err();
    assert_eq!(e.code, CodeErrorCode::Forbidden);
    let e = run_git_op(&Creds::default(), "/p", &req("", GitOp::Push, None)).unwrap_err();
    assert_eq!(e.code, CodeErrorCode::Invalid);
}

#[test]
fn output_is_sanitized() {
    let url = "http://[fd5a::1]:8788/git/CAP";
    assert_eq!(
        sanitize(&format!("To {url}\nfrom {url}{url}"), Some(url)),
        "To [remote]\nfrom [remote][remote]"
    );
    assert_eq!(
        sanitize("https://x-access-token:abc@h x-access-tokenx-access-token", None),
        "https://[redacted]:abc@h [redacted][redacted]"
    );
    assert_eq!(sanitize("nothing", Some(url)), "nothing");
}

#[test]
fn sanitized_output_never_shows_the_url() {
    let url = "http://h/git/CAP";
    for s in ["http://hhttp://h/git/CAP/git/CAP", "x-access-http://h/git/CAPtoken", url] {
        let out = sanitize(s, Some(url));
        assert!(!out.contains(url), "{out}");
        assert!(!out.contains("x-access-token"), "{out}");
    }
}

#[test]
fn a_url_with_a_trailing_slash_is_not_shown_either() {
    let url = "http://h:8788/git/CAP/";
    let run = run_git_op(&with_cap("demo", url), "/p", &req("demo", GitOp::Push, None)).unwrap();
    let printed = "To http://h:8788/git/CAP\n";
    let output = git_op_output(&run, GitOp::Push, &ended(true, "", printed)).unwrap();
    assert_eq!(output, "To [remote]\n");
    let e = git_op_output(&run, GitOp::Push, &ended(false, "", printed)).unwrap_err();
    assert_eq!(e.message, "git Push failed: To [remote]\n");
    assert_eq!(sanitize("http://h/C// http://h/C/ http://h/C", Some("http://h/C//")), "[remote] [remote]/ [remote]");
    assert_eq!(sanitize("a//b", Some("//")), "a[remote]b");
}

#[test]
fn failures_hold_the_sanitized_output() {
    let url = "http://h/git/CAP";
    let run = run_git_op(&with_cap("d", url), "/p", &req("d", GitOp::Push, None)).unwrap();
    let end = ended(false, "out ", &format!("fatal: {url}"));
    for (op, name) in [(GitOp::Push, "Push"), (GitOp::Fetch, "Fetch"), (GitOp::Clone, "Clone")] {
        let e = git_op_output(&run, op, &end).unwrap_err();
        assert_eq!(e.code, CodeErrorCode::Internal);
        assert_eq!(e.message, format!("git {name} failed: out fatal: [remote]"));
        assert_eq!(format!("{op:?}"), name);
    }
    let e = git_op_output(&run, GitOp::Push, &GitEnd::NotStarted("no git".into())).unwrap_err();
    assert_eq!(e.code, CodeErrorCode::Internal);
    assert_eq!(e.message, "git spawn: no git");
}

#[test]
fn printed_text_is_returned_on_success_alone() {
    let run = run_git_op(&Creds::default(), "/p", &req("d", GitOp::Push, None)).unwrap();
    assert_eq!(finish_git_op(&run, GitOp::Push, true, "a").unwrap(), "a");
    assert_eq!(
        finish_git_op(&run, GitOp::Push, false, "a").unwrap_err().message,
        "git Push failed: a"
    );
}

#[test]
fn output_that_is_no_utf8_is_replaced() {
    let run = run_git_op(&Creds::default(), "/p", &req("d", GitOp::Push, None)).unwrap();
    let end = GitEnd::Ended { success: true, stdout: vec![b'a', 0xff], stderr: vec![b'b'] };
    assert_eq!(git_op_output(&run, GitOp::Push, &end).unwrap(), "a\u{fffd}b");
}

#[test]
fn the_commit_is_trimmed_and_optional() {
    assert_eq!(head_sha(&ended(true, " abc\n", "warning")).as_deref(), Some("abc"));
    assert_eq!(head_sha(&ended(false, "abc\n", "fatal")), None);
    assert_eq!(head_sha(&GitEnd::NotStarted("x".into())), None);
    let res = git_op_result("o".into(), &ended(false, "", ""));
    assert_eq!(res.commit_sha, None);
    assert_eq!(res.output, "o");
}
