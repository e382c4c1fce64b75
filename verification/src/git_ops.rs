//! Git operations in the working copy of a repository. The capability URL is
//! the remote; it is replaced in whatever git prints before that is returned.

use vstd::prelude::*;
use vstd::string::*;

use crate::contract::{opt_text, CodeError, CodeErrorCode, GitOp, GitOpReq, GitOpResult};
use crate::creds::{Creds, CredsView};
use crate::lines::texts;
use crate::reading::{decode_lossy, lossy_text, reads_plainly};
use crate::search::{
    apart, contains, lemma_apart, lemma_replaced_absent, lemma_replaced_is_gone,
    lemma_replaced_stays_gone, occurs_at, replace, replaced,
};
use crate::text::{has_char, same_text, trim, trim_trailing, trimmed, without_trailing};

verus! {

// ---------------------------------------------------------------------------
// What to run
// ---------------------------------------------------------------------------

/// `repo` names one entry of a directory: it is a single path segment, and
/// neither the directory itself nor its parent.
pub open spec fn confined(repo: Seq<char>) -> bool {
    repo.len() > 0 && !repo.contains('/') && repo != "."@ && repo != ".."@
}

/// `repo` is not confined, and `e` says so.
pub open spec fn repo_refused(repo: Seq<char>, e: CodeError) -> bool {
    if repo.len() == 0 {
        e.says(CodeErrorCode::Invalid, "repo is required"@)
    } else {
        !confined(repo) && e.says(CodeErrorCode::Forbidden, "invalid repo"@)
    }
}

/// Checks that `repo` is a single path segment.
pub fn safe_repo(repo: &str) -> (r: Result<(), CodeError>)
    ensures
        match r {
            Ok(_) => confined(repo@),
            Err(e) => repo_refused(repo@, e),
        },
{
    if repo.is_empty() {
        return Err(CodeError::new(CodeErrorCode::Invalid, "repo is required"));
    }
    if has_char(repo, '/') || same_text(repo, ".") || same_text(repo, "..") {
        return Err(CodeError::new(CodeErrorCode::Forbidden, "invalid repo"));
    }
    Ok(())
}

/// The path of the entry `name` of the directory `root`.
pub open spec fn entry_path(root: Seq<char>, name: Seq<char>) -> Seq<char> {
    if root.len() == 0 || root.last() == '/' {
        root + name
    } else {
        root.push('/') + name
    }
}

/// The path of the entry `name` of the directory `root`.
fn join_path(root: &str, name: &str) -> (r: String)
    ensures
        r@ == entry_path(root@, name@),
{
    let mut out = root.to_owned();
    let stem = trim_trailing(root, '/');
    proof {
        if stem@.len() == root@.len() {
            lemma_nothing_trailed(root@, '/');
        }
    }
    if !root.is_empty() && same_text(stem, root) {
        out.push('/');
    }
    out.append(name);
    out
}

/// A text that loses nothing when its trailing `c`s are cut off does not end
/// with `c`.
proof fn lemma_nothing_trailed(s: Seq<char>, c: char)
    ensures
        without_trailing(s, c).len() <= s.len(),
        without_trailing(s, c) == s <==> s.len() == 0 || s.last() != c,
    decreases s.len(),
{
    if s.len() > 0 && s.last() == c {
        lemma_nothing_trailed(s.drop_last(), c);
    }
}

/// The remote of a repository: its capability URL without trailing slashes, or
/// the `origin` of the working copy.
pub open spec fn remote_of(creds: CredsView, repo: Seq<char>) -> Seq<char> {
    if creds.caps.contains_key(repo) {
        without_trailing(creds.caps[repo], '/')
    } else {
        "origin"@
    }
}

/// The arguments of the git command.
pub open spec fn git_args(
    op: GitOp,
    remote: Seq<char>,
    git_ref: Option<Seq<char>>,
    work: Seq<char>,
) -> Seq<Seq<char>> {
    match (op, git_ref) {
        (GitOp::Push, None) => seq!["push"@, remote],
        (GitOp::Push, Some(r)) => seq!["push"@, remote, r],
        (GitOp::Fetch, None) => seq!["fetch"@, remote],
        (GitOp::Fetch, Some(r)) => seq!["fetch"@, remote, r],
        (GitOp::Clone, _) => seq!["clone"@, remote, work],
    }
}

/// A git command to run.
#[derive(Debug, Clone)]
pub struct GitRun {
    pub args: Vec<String>,
    /// The directory to run it in.
    pub cwd: String,
    /// The working copy of the repository.
    pub work: String,
    /// The capability URL of the repository, which the output may not show.
    pub cap_url: Option<String>,
}

/// `run` is the command for `req` under the directory `projects_root`.
pub open spec fn planned(
    creds: CredsView,
    projects_root: Seq<char>,
    req: GitOpReq,
    run: GitRun,
) -> bool {
    let work = entry_path(projects_root, req.repo@);
    &&& texts(run.args@) == git_args(
        req.op,
        remote_of(creds, req.repo@),
        opt_text(req.git_ref),
        work,
    )
    &&& run.work@ == work
    &&& run.cwd@ == if req.op == GitOp::Clone {
        projects_root
    } else {
        work
    }
    &&& opt_text(run.cap_url) == if creds.caps.contains_key(req.repo@) {
        Some(creds.caps[req.repo@])
    } else {
        None
    }
}

/// The git command for `req` under the directory `projects_root`.
pub fn run_git_op(creds: &Creds, projects_root: &str, req: &GitOpReq) -> (r: Result<
    GitRun,
    CodeError,
>)
    ensures
        match r {
            Ok(run) => confined(req.repo@) && planned(creds@, projects_root@, *req, run),
            Err(e) => repo_refused(req.repo@, e),
        },
{
    if let Err(e) = safe_repo(req.repo.as_str()) {
        return Err(e);
    }
    let work = join_path(projects_root, req.repo.as_str());
    let cap_url = creds.git_cap_url(req.repo.as_str());
    let remote = match cap_url {
        Some(url) => trim_trailing(url, '/').to_owned(),
        None => "origin".to_owned(),
    };
    let mut args: Vec<String> = Vec::new();
    let ghost rest = match req.op {
        GitOp::Clone => seq![work@],
        _ => match opt_text(req.git_ref) {
            Some(r) => seq![r],
            None => seq![],
        },
    };
    let name = match req.op {
        GitOp::Push => "push",
        GitOp::Fetch => "fetch",
        GitOp::Clone => "clone",
    };
    args.push(name.to_owned());
    args.push(remote);
    assert(texts(args@) == seq![name@, remote_of(creds@, req.repo@)]);
    let cwd = match req.op {
        GitOp::Clone => {
            args.push(work.clone());
            projects_root.to_owned()
        },
        _ => {
            if let Some(r) = &req.git_ref {
                args.push(r.clone());
            }
            work.clone()
        },
    };
    assert(texts(args@) == seq![name@, remote_of(creds@, req.repo@)] + rest);
    assert(texts(args@) == git_args(
        req.op,
        remote_of(creds@, req.repo@),
        opt_text(req.git_ref),
        work@,
    ));
    let cap_url = match cap_url {
        Some(url) => Some(url.to_owned()),
        None => None,
    };
    Ok(GitRun { args, cwd, work, cap_url })
}

/// The command that prints the commit of a working copy.
pub fn head_query(run: &GitRun) -> (r: GitRun)
    ensures
        texts(r.args@) == seq!["rev-parse"@, "HEAD"@],
        r.cwd@ == run.work@,
        r.work@ == run.work@,
        opt_text(r.cap_url) == opt_text(run.cap_url),
{
    let mut args: Vec<String> = Vec::new();
    args.push("rev-parse".to_owned());
    args.push("HEAD".to_owned());
    assert(texts(args@) == seq!["rev-parse"@, "HEAD"@]);
    let cap_url = match &run.cap_url {
        Some(url) => Some(url.clone()),
        None => None,
    };
    GitRun { args, cwd: run.work.clone(), work: run.work.clone(), cap_url }
}

// ---------------------------------------------------------------------------
// What to return
// ---------------------------------------------------------------------------

/// `s` with the capability URL replaced, and then also what is left of the URL
/// without its trailing slashes, which is the remote that git is given.
pub open spec fn without_url(s: Seq<char>, url: Seq<char>) -> Seq<char> {
    let t = replaced(s, url, "[remote]"@);
    let remote = without_trailing(url, '/');
    if remote.len() == 0 || remote == url {
        t
    } else {
        replaced(t, remote, "[remote]"@)
    }
}

/// `s` with the capability URL and the name of the token user replaced.
pub open spec fn sanitized(s: Seq<char>, cap_url: Option<Seq<char>>) -> Seq<char> {
    let t = match cap_url {
        Some(url) => without_url(s, url),
        None => s,
    };
    replaced(t, "x-access-token"@, "[redacted]"@)
}

/// `s` with the capability URL and the name of the token user replaced.
pub fn sanitize(s: &str, cap_url: Option<&str>) -> (r: String)
    ensures
        r@ == sanitized(s@, crate::creds::opt_slice(cap_url)),
{
    match cap_url {
        Some(url) => {
            let mut t = replace(s, url, "[remote]");
            let remote = trim_trailing(url, '/');
            if !remote.is_empty() && !same_text(remote, url) {
                t = replace(t.as_str(), remote, "[remote]");
            }
            replace(t.as_str(), "x-access-token", "[redacted]")
        },
        None => replace(s, "x-access-token", "[redacted]"),
    }
}

/// The name of an operation.
pub open spec fn op_name(op: GitOp) -> Seq<char> {
    match op {
        GitOp::Push => "Push"@,
        GitOp::Fetch => "Fetch"@,
        GitOp::Clone => "Clone"@,
    }
}

/// What git printed, both streams as one text, if it succeeded; else the error
/// that holds it. Neither shows the capability URL or the remote.
pub fn finish_git_op(run: &GitRun, op: GitOp, success: bool, printed: &str) -> (r: Result<
    String,
    CodeError,
>)
    ensures
        match r {
            Ok(out) => success && out@ == sanitized(printed@, opt_text(run.cap_url)),
            Err(e) => !success && e.says(
                CodeErrorCode::Internal,
                "git "@ + op_name(op) + " failed: "@ + sanitized(printed@, opt_text(run.cap_url)),
            ),
        },
{
    let cap_url = match &run.cap_url {
        Some(url) => Some(url.as_str()),
        None => None,
    };
    let output = sanitize(printed, cap_url);
    if success {
        return Ok(output);
    }
    let mut message = "git ".to_owned();
    let name = match op {
        GitOp::Push => "Push",
        GitOp::Fetch => "Fetch",
        GitOp::Clone => "Clone",
    };
    message.append(name);
    message.append(" failed: ");
    message.append(output.as_str());
    Err(CodeError { code: CodeErrorCode::Internal, message })
}

/// How a git command ended.
#[derive(Debug, Clone)]
pub enum GitEnd {
    /// It could not be started.
    NotStarted(String),
    Ended { success: bool, stdout: Vec<u8>, stderr: Vec<u8> },
}

/// What to return for a git command that ended so: its output if it succeeded.
pub fn git_op_output(run: &GitRun, op: GitOp, end: &GitEnd) -> (r: Result<String, CodeError>)
    ensures
        match *end {
            GitEnd::NotStarted(why) => r matches Err(e) && e.says(
                CodeErrorCode::Internal,
                "git spawn"@ + ": "@ + why@,
            ),
            GitEnd::Ended { success, stdout, stderr } => {
                let printed = lossy_text(stdout@) + lossy_text(stderr@);
                match r {
                    Ok(out) => success && out@ == sanitized(printed, opt_text(run.cap_url)),
                    Err(e) => !success && e.says(
                        CodeErrorCode::Internal,
                        "git "@ + op_name(op) + " failed: "@ + sanitized(
                            printed,
                            opt_text(run.cap_url),
                        ),
                    ),
                }
            },
        },
        *end matches GitEnd::Ended { stdout, stderr, .. } ==> reads_plainly(stdout@)
            && reads_plainly(stderr@),
{
    match end {
        GitEnd::NotStarted(why) => Err(
            CodeError::with_detail(CodeErrorCode::Internal, "git spawn", why.as_str()),
        ),
        GitEnd::Ended { success, stdout, stderr } => {
            let mut printed = decode_lossy(stdout.as_slice());
            printed.append(decode_lossy(stderr.as_slice()).as_str());
            finish_git_op(run, op, *success, printed.as_str())
        },
    }
}

/// The commit that [`head_query`] printed, if it succeeded.
pub open spec fn commit_printed(end: GitEnd) -> Option<Seq<char>> {
    match end {
        GitEnd::Ended { success: true, stdout, .. } => Some(trimmed(lossy_text(stdout@))),
        _ => None,
    }
}

/// The commit that [`head_query`] printed, if it succeeded.
pub fn head_sha(end: &GitEnd) -> (r: Option<String>)
    ensures
        opt_text(r) == commit_printed(*end),
        *end matches GitEnd::Ended { success: true, stdout, .. } ==> reads_plainly(stdout@),
{
    match end {
        GitEnd::Ended { success, stdout, .. } => if *success {
            let printed = decode_lossy(stdout.as_slice());
            Some(trim(printed.as_str()).to_owned())
        } else {
            None
        },
        GitEnd::NotStarted(_) => None,
    }
}

/// The result of a git operation that printed `output`, where `head` is how
/// [`head_query`] ended.
pub fn git_op_result(output: String, head: &GitEnd) -> (r: GitOpResult)
    ensures
        r.output == output,
        opt_text(r.commit_sha) == commit_printed(*head),
        *head matches GitEnd::Ended { success: true, stdout, .. } ==> reads_plainly(stdout@),
{
    GitOpResult { commit_sha: head_sha(head), output }
}

// ---------------------------------------------------------------------------
// Laws
// ---------------------------------------------------------------------------

/// A git command for a confined repository stays below the directory of the
/// projects: its working copy is one entry of that directory, named by the
/// repository.
pub proof fn law_work_is_below_the_root(projects_root: Seq<char>, repo: Seq<char>)
    requires
        confined(repo),
        projects_root.len() > 0,
    ensures
        entry_path(projects_root, repo).len() > repo.len(),
        ({
            let work = entry_path(projects_root, repo);
            let dir = work.take(work.len() - repo.len());
            &&& work == dir + repo
            &&& dir.last() == '/'
            &&& dir == projects_root || dir == projects_root.push('/')
            &&& !repo.contains('/')
        }),
{
    let work = entry_path(projects_root, repo);
    let dir = if projects_root.last() == '/' {
        projects_root
    } else {
        projects_root.push('/')
    };
    assert(work == dir + repo);
    assert(work.take(work.len() - repo.len()) == dir);
}

/// No output names the user under which a token is presented.
pub proof fn law_output_names_no_token_user(s: Seq<char>, cap_url: Option<Seq<char>>)
    ensures
        !contains(sanitized(s, cap_url), "x-access-token"@),
{
    reveal_strlit("x-access-token");
    reveal_strlit("[redacted]");
    let p = "x-access-token"@;
    let r = "[redacted]"@;
    assert(!contains(r, p));
    assert(!p.contains('[') && !p.contains(']'));
    lemma_apart(p, r);
    let t = match cap_url {
        Some(url) => without_url(s, url),
        None => s,
    };
    lemma_replaced_is_gone(t, p, r);
}

/// What does not hold the remote does not hold the capability URL, which begins
/// with it.
proof fn lemma_remote_in_url(s: Seq<char>, url: Seq<char>)
    requires
        !contains(s, without_trailing(url, '/')),
    ensures
        !contains(s, url),
{
    let remote = without_trailing(url, '/');
    lemma_begins_with_stem(url, '/');
    if contains(s, url) {
        let i = choose|i: int| occurs_at(s, url, i);
        assert(s.subrange(i, i + remote.len()) == url.take(remote.len() as int)) by {
            assert(s.subrange(i, i + url.len()) == url);
        }
        assert(occurs_at(s, remote, i));
    }
}

/// A text begins with what is left of it without its trailing `c`s.
proof fn lemma_begins_with_stem(s: Seq<char>, c: char)
    ensures
        without_trailing(s, c).len() <= s.len(),
        s.take(without_trailing(s, c).len() as int) == without_trailing(s, c),
    decreases s.len(),
{
    if s.len() > 0 && s.last() == c {
        let t = s.drop_last();
        lemma_begins_with_stem(t, c);
        let n = without_trailing(s, c).len() as int;
        assert(s.take(n) == t.take(n));
    } else {
        assert(s.take(s.len() as int) == s);
    }
}

/// No output shows the remote that git is given, nor the capability URL that it
/// comes from, if neither of the texts that are put in its place can form the
/// remote together with what stands beside them.
pub proof fn law_output_shows_no_cap_url(s: Seq<char>, url: Seq<char>)
    requires
        without_trailing(url, '/').len() > 0,
        apart(without_trailing(url, '/'), "[remote]"@),
        apart(without_trailing(url, '/'), "[redacted]"@),
    ensures
        !contains(sanitized(s, Some(url)), without_trailing(url, '/')),
        !contains(sanitized(s, Some(url)), url),
{
    reveal_strlit("x-access-token");
    let remote = without_trailing(url, '/');
    lemma_replaced_is_gone(s, remote, "[remote]"@);
    lemma_replaced_is_gone(replaced(s, url, "[remote]"@), remote, "[remote]"@);
    let t = without_url(s, url);
    lemma_replaced_stays_gone(t, "x-access-token"@, "[redacted]"@, remote);
    lemma_remote_in_url(sanitized(s, Some(url)), url);
}

/// Output that holds neither the remote nor the name of the token user is
/// returned as it is.
pub proof fn law_clean_output_is_kept(s: Seq<char>, url: Seq<char>)
    requires
        without_trailing(url, '/').len() > 0,
        !contains(s, without_trailing(url, '/')),
        !contains(s, "x-access-token"@),
    ensures
        sanitized(s, Some(url)) == s,
        sanitized(s, None) == s,
{
    reveal_strlit("x-access-token");
    lemma_begins_with_stem(url, '/');
    lemma_remote_in_url(s, url);
    lemma_replaced_absent(s, url, "[remote]"@);
    lemma_replaced_absent(s, without_trailing(url, '/'), "[remote]"@);
    lemma_replaced_absent(s, "x-access-token"@, "[redacted]"@);
}

/// `url` has the shape of an HTTP URL: it begins with an `h`, has a slash and no
/// space, and an opening bracket in it begins an IP address.
pub open spec fn url_shaped(url: Seq<char>) -> bool {
    &&& url.len() > 0
    &&& url[0] == 'h'
    &&& url.contains('/')
    &&& !url.contains(' ')
    &&& forall|i: int|
        0 <= i < url.len() && (#[trigger] url[i]) == '[' ==> i + 1 < url.len() && url[i + 1] != 'r'
}

pub(crate) proof fn lemma_url_apart(url: Seq<char>, r: Seq<char>)
    requires
        url_shaped(url),
        r.len() > 1,
        r[0] == '[',
        r[1] == 'r',
        !r.contains('h'),
    ensures
        apart(url, r),
{
    if contains(url, r) {
        let i = choose|i: int| occurs_at(url, r, i);
        assert(url.subrange(i, i + r.len())[0] == url[i]);
        assert(url.subrange(i, i + r.len())[1] == url[i + 1]);
    }
    if contains(r, url) {
        let i = choose|i: int| occurs_at(r, url, i);
        assert(r.subrange(i, i + url.len())[0] == r[i]);
        assert(r.contains(r[i]));
    }
    assert forall|k: int| 0 < k <= url.len() && k <= r.len() implies #[trigger] r.skip(r.len() - k)
        != url.take(k) by {
        assert(r.skip(r.len() - k)[0] == r[r.len() - k]);
        assert(r.contains(r[r.len() - k]));
        assert(url.take(k)[0] == 'h');
    }
    assert forall|k: int| 0 < k <= url.len() && k <= r.len() implies #[trigger] url.skip(
        url.len() - k,
    ) != r.take(k) by {
        let e = url.skip(url.len() - k);
        assert(e[0] == url[url.len() - k]);
        if k > 1 {
            assert(e[1] == url[url.len() - k + 1]);
            assert(r.take(k)[1] == 'r');
        }
        assert(r.take(k)[0] == '[');
    }
}

/// Neither what a git operation returns nor the error that it ends in shows the
/// remote that git was given or the capability URL that it comes from, if the
/// remote has the shape of an HTTP URL.
pub proof fn law_answer_shows_no_remote(
    s: Seq<char>,
    creds: CredsView,
    repo: Seq<char>,
    op: GitOp,
)
    requires
        creds.caps.contains_key(repo),
        url_shaped(remote_of(creds, repo)),
    ensures
        ({
            let url = creds.caps[repo];
            let out = sanitized(s, Some(url));
            let message = "git "@ + op_name(op) + " failed: "@ + out;
            &&& !contains(out, remote_of(creds, repo))
            &&& !contains(out, url)
            &&& !contains(message, remote_of(creds, repo))
            &&& !contains(message, url)
        }),
{
    reveal_strlit("[remote]");
    reveal_strlit("[redacted]");
    let url = creds.caps[repo];
    let remote = remote_of(creds, repo);
    let out = sanitized(s, Some(url));
    assert(!"[remote]"@.contains('h'));
    assert(!"[redacted]"@.contains('h'));
    lemma_url_apart(remote, "[remote]"@);
    lemma_url_apart(remote, "[redacted]"@);
    law_output_shows_no_cap_url(s, url);
    lemma_message_shows_no_url(out, remote, op);
    lemma_remote_in_url("git "@ + op_name(op) + " failed: "@ + out, url);
}

/// The words before the output of a failed command form no URL with it.
proof fn lemma_message_shows_no_url(out: Seq<char>, url: Seq<char>, op: GitOp)
    requires
        url_shaped(url),
        !contains(out, url),
    ensures
        !contains("git "@ + op_name(op) + " failed: "@ + out, url),
{
    reveal_strlit("git ");
    reveal_strlit(" failed: ");
    reveal_strlit("Push");
    reveal_strlit("Fetch");
    reveal_strlit("Clone");
    let prefix = "git "@ + op_name(op) + " failed: "@;
    let n = prefix.len() as int;
    let m = prefix + out;
    if contains(m, url) {
        let i = choose|i: int| occurs_at(m, url, i);
        let e = i + url.len();
        let w = m.subrange(i, e);
        if n <= i {
            assert(out.subrange(i - n, e - n) == w);
            assert(occurs_at(out, url, i - n));
        } else if e <= n {
            let k = choose|k: int| 0 <= k < url.len() && url[k] == '/';
            assert(w[k] == prefix[i + k]);
            assert forall|j: int| 0 <= j < n implies prefix[j] != '/' by {
                let name = op_name(op);
                let l = name.len() as int;
                if 4 <= j < 4 + l {
                    assert(prefix[j] == name[j - 4]);
                } else if 4 + l <= j {
                    assert(prefix[j] == " failed: "@[j - 4 - l]);
                }
            }
        } else {
            assert(prefix[n - 1] == ' ');
            assert(w[n - 1 - i] == ' ');
            assert(url.contains(url[n - 1 - i]));
        }
    }
}

} // verus!
