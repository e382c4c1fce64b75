//! What a git operation runs, and what it returns.

use vstd::prelude::*;
use vstd::string::*;
use vstd::utf8::*;

use crate::contract::{CodeError, CodeErrorCode, GitOp, GitOpReq, GitOpResult};
use crate::creds::Creds;
use crate::git_ops::{
    finish_git_op, git_op_output, git_op_result, head_query, head_sha,
    law_output_names_no_token_user, law_output_shows_no_cap_url, lemma_url_apart, run_git_op,
    safe_repo, sanitize, url_shaped, GitEnd, GitRun,
};
use crate::laws::text::{
    lemma_run_behind, lemma_trimmed_middle, lemma_without_run_behind, run_of, tight,
};
use crate::lines::texts;
use crate::reading::lossy_text;
use crate::search::{
    contains, lemma_apart, lemma_join_apart, lemma_replaced_absent, occurs_at, replace, replaced,
};
use crate::text::{blank, trim_trailing};

verus! {

// ---------------------------------------------------------------------------
// What to run
// ---------------------------------------------------------------------------

/// The arguments of a list are the texts that it holds.
pub(crate) proof fn lemma_texts(v: Seq<String>, t: Seq<Seq<char>>)
    requires
        texts(v) == t,
    ensures
        v.len() == t.len(),
        forall|i: int| 0 <= i < v.len() ==> (#[trigger] v[i])@ == t[i],
{
    assert(texts(v).len() == v.len());
    assert forall|i: int| 0 <= i < v.len() implies (#[trigger] v[i])@ == t[i] by {
        assert(texts(v)[i] == v[i]@);
    }
}

/// A push or a fetch is given the operation, the remote and the ref of the
/// request, whatever the remote is and whoever holds a capability; a clone is
/// given the operation, the remote and the working copy.
pub proof fn law_ref_is_passed_on(creds: &Creds, root: &str, req: &GitOpReq, run: GitRun)
    requires
        call_ensures(run_git_op, (creds, root, req), Ok::<GitRun, CodeError>(run)),
    ensures
        req.op != GitOp::Clone ==> {
            &&& req.git_ref matches Some(r) ==> run.args@.len() == 3 && run.args@[2]@ == r@
            &&& req.git_ref is None ==> run.args@.len() == 2
        },
        req.op == GitOp::Clone ==> run.args@.len() == 3 && run.args@[2]@ == run.work@,
        req.op == GitOp::Push ==> run.args@[0]@ == "push"@,
        req.op == GitOp::Fetch ==> run.args@[0]@ == "fetch"@,
        req.op == GitOp::Clone ==> run.args@[0]@ == "clone"@,
{
    lemma_texts(run.args@, texts(run.args@));
}

/// The remote is the capability URL of the repository without the slashes at its
/// end, and the whole URL is kept for the output; without a capability the remote
/// is `origin` and there is nothing to keep.
pub proof fn law_remote_is_the_cap_url(
    creds: &Creds,
    root: &str,
    req: &GitOpReq,
    run: GitRun,
    repo: &str,
    url: Option<&str>,
)
    requires
        call_ensures(run_git_op, (creds, root, req), Ok::<GitRun, CodeError>(run)),
        call_ensures(Creds::git_cap_url, (creds, repo), url),
        repo@ == req.repo@,
    ensures
        run.args@.len() >= 2,
        match url {
            Some(u) => {
                &&& run.cap_url is Some && run.cap_url->0@ == u@
                &&& run.args@[1]@.len() > 0 ==> run.args@[1]@.last() != '/'
                &&& exists|n: nat| u@ == run.args@[1]@ + #[trigger] run_of('/', n)
            },
            None => run.args@[1]@ == "origin"@ && run.cap_url is None,
        },
{
    lemma_texts(run.args@, texts(run.args@));
    if let Some(u) = url {
        let n = lemma_run_behind(u@, '/');
        assert(u@ == run.args@[1]@ + run_of('/', n));
    }
}

/// The held credentials decide on the remote and on nothing else: for one request
/// the commands under any two of them differ at most in the remote and in the URL
/// that is kept for the output.
pub proof fn law_creds_decide_on_the_remote_alone(
    a: &Creds,
    b: &Creds,
    root: &str,
    req: &GitOpReq,
    run_a: GitRun,
    run_b: GitRun,
)
    requires
        call_ensures(run_git_op, (a, root, req), Ok::<GitRun, CodeError>(run_a)),
        call_ensures(run_git_op, (b, root, req), Ok::<GitRun, CodeError>(run_b)),
    ensures
        run_a.args@.len() == run_b.args@.len(),
        forall|i: int|
            0 <= i < run_a.args@.len() && i != 1 ==> (#[trigger] run_a.args@[i])@
                == run_b.args@[i]@,
        run_a.work@ == run_b.work@,
        run_a.cwd@ == run_b.cwd@,
{
    lemma_texts(run_a.args@, texts(run_a.args@));
    lemma_texts(run_b.args@, texts(run_b.args@));
}

/// The working copy is the entry of the directory of the projects that has the
/// name of the repository. A clone runs in that directory, any other operation in
/// the working copy.
pub proof fn law_command_runs_in_its_place(creds: &Creds, root: &str, req: &GitOpReq, run: GitRun)
    requires
        call_ensures(run_git_op, (creds, root, req), Ok::<GitRun, CodeError>(run)),
    ensures
        root@.len() > 0 && root@.last() != '/' ==> run.work@ == root@ + seq!['/'] + req.repo@,
        root@.len() == 0 || root@.last() == '/' ==> run.work@ == root@ + req.repo@,
        run.cwd@ == if req.op == GitOp::Clone {
            root@
        } else {
            run.work@
        },
{
    assert(root@.push('/') == root@ + seq!['/']);
}

/// Every name of one directory entry is taken, whatever else it holds; an empty
/// one, one with a slash and the two dot names are refused, each in its way.
pub proof fn law_only_paths_are_refused(
    creds: &Creds,
    root: &str,
    req: &GitOpReq,
    r: Result<GitRun, CodeError>,
    repo: &str,
    safe: Result<(), CodeError>,
)
    requires
        call_ensures(run_git_op, (creds, root, req), r),
        call_ensures(safe_repo, (repo,), safe),
        repo@ == req.repo@,
    ensures
        r is Ok == safe is Ok,
        safe is Ok <==> repo@.len() > 0 && repo@ != "."@ && repo@ != ".."@ && forall|i: int|
            0 <= i < repo@.len() ==> #[trigger] repo@[i] != '/',
        repo@.len() == 0 ==> {
            &&& r->Err_0.code == CodeErrorCode::Invalid && r->Err_0.message@ == "repo is required"@
            &&& safe->Err_0.code == CodeErrorCode::Invalid && safe->Err_0.message@
                == "repo is required"@
        },
        safe is Err && repo@.len() > 0 ==> {
            &&& r->Err_0.code == CodeErrorCode::Forbidden && r->Err_0.message@ == "invalid repo"@
            &&& safe->Err_0.code == CodeErrorCode::Forbidden && safe->Err_0.message@
                == "invalid repo"@
        },
{
    if repo@.contains('/') {
        let i = choose|i: int| 0 <= i < repo@.len() && repo@[i] == '/';
        assert(repo@[i] == '/');
    }
}

/// The commit is asked for in the working copy.
pub proof fn law_head_is_asked_of_the_working_copy(run: &GitRun, r: GitRun)
    requires
        call_ensures(head_query, (run,), r),
    ensures
        r.args@.len() == 2,
        r.args@[0]@ == "rev-parse"@,
        r.args@[1]@ == "HEAD"@,
        r.cwd@ == run.work@,
        r.work@ == run.work@,
        r.cap_url is Some == run.cap_url is Some,
        run.cap_url is Some ==> r.cap_url->0@ == run.cap_url->0@,
{
    lemma_texts(r.args@, texts(r.args@));
}

// ---------------------------------------------------------------------------
// What to return
// ---------------------------------------------------------------------------

/// `p` stands nowhere in `s`.
pub open spec fn free_of(s: Seq<char>, p: Seq<char>) -> bool {
    forall|i: int| 0 <= i <= s.len() - p.len() ==> #[trigger] s.subrange(i, i + p.len()) != p
}

pub(crate) proof fn lemma_free_of(s: Seq<char>, p: Seq<char>)
    ensures
        free_of(s, p) <==> !contains(s, p),
{
    if contains(s, p) {
        let i = choose|i: int| occurs_at(s, p, i);
        assert(s.subrange(i, i + p.len()) == p);
    }
    if !free_of(s, p) {
        let i = choose|i: int|
            0 <= i <= s.len() - p.len() && #[trigger] s.subrange(i, i + p.len()) == p;
        assert(occurs_at(s, p, i));
    }
}

/// Sanitized output shows neither the capability URL, nor that URL without the
/// slashes at its end, nor the name of the token user, wherever and however often
/// they were printed.
pub proof fn law_sanitized_is_free_of_secrets(
    s: &str,
    url: &str,
    r: String,
    plain: String,
    remote: Seq<char>,
    n: nat,
)
    requires
        call_ensures(sanitize, (s, Some(url)), r),
        call_ensures(sanitize, (s, None::<&str>), plain),
        url@ == remote + run_of('/', n),
        url_shaped(remote),
        remote.last() != '/',
    ensures
        free_of(r@, url@),
        free_of(r@, remote),
        free_of(r@, "x-access-token"@),
        free_of(plain@, "x-access-token"@),
{
    reveal_strlit("[remote]");
    reveal_strlit("[redacted]");
    assert(!"[remote]"@.contains('h'));
    assert(!"[redacted]"@.contains('h'));
    lemma_without_run_behind(remote, '/', n);
    lemma_url_apart(remote, "[remote]"@);
    lemma_url_apart(remote, "[redacted]"@);
    law_output_shows_no_cap_url(s@, url@);
    law_output_names_no_token_user(s@, Some(url@));
    law_output_names_no_token_user(s@, None);
    lemma_free_of(r@, url@);
    lemma_free_of(r@, remote);
    lemma_free_of(r@, "x-access-token"@);
    lemma_free_of(plain@, "x-access-token"@);
}

proof fn lemma_replaced_once(s: Seq<char>, p: Seq<char>, to: Seq<char>, a: Seq<char>, b: Seq<char>)
    requires
        p.len() > 0,
        s == a + p + b,
        forall|i: int|
            0 <= i < a.len() ==> #[trigger] s.subrange(i, i + p.len()) != p,
        free_of(b, p),
    ensures
        replaced(s, p, to) == a + to + b,
{
    crate::laws::text::lemma_replaced_step(s, p, to, a, b);
    lemma_free_of(b, p);
    lemma_replaced_absent(b, p, to);
}

/// Sanitizing is replacing: first the capability URL, then what is left of it
/// without the slashes at its end, then the name of the token user, everywhere.
pub proof fn law_sanitizing_is_replacing(
    s: &str,
    url: &str,
    r: String,
    plain: String,
    remote: &str,
    mark: &str,
    user: &str,
    redacted: &str,
    first: String,
    first_text: &str,
    second: String,
    second_text: &str,
    third: String,
    from_first: String,
    from_start: String,
)
    requires
        call_ensures(sanitize, (s, Some(url)), r),
        call_ensures(sanitize, (s, None::<&str>), plain),
        call_ensures(trim_trailing, (url, '/'), remote),
        mark@ == "[remote]"@,
        user@ == "x-access-token"@,
        redacted@ == "[redacted]"@,
        call_ensures(replace, (s, url, mark), first),
        first_text@ == first@,
        call_ensures(replace, (first_text, remote, mark), second),
        second_text@ == second@,
        call_ensures(replace, (second_text, user, redacted), third),
        call_ensures(replace, (first_text, user, redacted), from_first),
        call_ensures(replace, (s, user, redacted), from_start),
    ensures
        remote@.len() > 0 && remote@ != url@ ==> r@ == third@,
        remote@.len() == 0 || remote@ == url@ ==> r@ == from_first@,
        plain@ == from_start@,
{
}

/// In output that shows the remote once and does not name the token user, that
/// one place reads `[remote]` and everything else is kept. It is all the same
/// whether the slashes at the end of the capability URL were printed with it.
pub proof fn law_one_remote_is_replaced(
    s: &str,
    url: &str,
    r: String,
    a: Seq<char>,
    b: Seq<char>,
    remote: Seq<char>,
    n: nat,
)
    requires
        call_ensures(sanitize, (s, Some(url)), r),
        url@ == remote + run_of('/', n),
        url_shaped(remote),
        remote.last() != '/',
        s@ == a + url@ + b || (s@ == a + remote + b && free_of(s@, url@)),
        forall|i: int|
            0 <= i <= s@.len() - remote.len() && i != a.len() ==> #[trigger] s@.subrange(
                i,
                i + remote.len(),
            ) != remote,
        free_of(a, "x-access-token"@),
        free_of(b, "x-access-token"@),
    ensures
        r@ == a + "[remote]"@ + b,
{
    reveal_strlit("[remote]");
    reveal_strlit("[redacted]");
    reveal_strlit("x-access-token");
    let to = "[remote]"@;
    let t = s@;
    let u = url@;
    let xat = "x-access-token"@;
    assert(!to.contains('h'));
    lemma_without_run_behind(remote, '/', n);
    lemma_url_apart(remote, to);
    assert(u.take(remote.len() as int) == remote);
    let out = a + to + b;
    // Neither what stands before nor what stands behind shows the remote.
    assert forall|i: int| 0 <= i <= a.len() - remote.len() implies #[trigger] a.subrange(
        i,
        i + remote.len(),
    ) != remote by {
        assert(t.subrange(i, i + remote.len()) == a.subrange(i, i + remote.len()));
    }
    let m = t.len() - b.len();
    assert forall|i: int| 0 <= i <= b.len() - remote.len() implies #[trigger] b.subrange(
        i,
        i + remote.len(),
    ) != remote by {
        assert(t.subrange(m + i, m + i + remote.len()) == b.subrange(i, i + remote.len()));
    }
    lemma_free_of(a, remote);
    lemma_free_of(b, remote);
    lemma_join_apart(a, to, b, remote);
    assert forall|i: int| 0 <= i <= b.len() - u.len() implies #[trigger] b.subrange(i, i + u.len())
        != u by {
        let w = b.subrange(i, i + u.len());
        assert(w.take(remote.len() as int) == b.subrange(i, i + remote.len()));
    }
    if t == a + u + b {
        assert forall|i: int| 0 <= i < a.len() implies #[trigger] t.subrange(i, i + u.len())
            != u by {
            let w = t.subrange(i, i + u.len());
            assert(w.take(remote.len() as int) == t.subrange(i, i + remote.len()));
        }
        lemma_replaced_once(t, u, to, a, b);
        lemma_replaced_absent(out, remote, to);
    } else {
        lemma_free_of(t, u);
        lemma_replaced_absent(t, u, to);
        lemma_replaced_once(t, remote, to, a, b);
        if remote == u {
            assert(t == a + u + b);
        }
    }
    assert(!contains(to, xat));
    assert(!xat.contains('[') && !xat.contains(']'));
    lemma_apart(xat, to);
    lemma_free_of(a, xat);
    lemma_free_of(b, xat);
    lemma_join_apart(a, to, b, xat);
    lemma_replaced_absent(out, xat, "[redacted]"@);
}

/// In output that names the token user once and shows no remote, that one place
/// reads `[redacted]` and everything else is kept.
pub proof fn law_one_token_user_is_replaced(
    s: &str,
    url: Option<&str>,
    r: String,
    a: Seq<char>,
    b: Seq<char>,
    remote: Seq<char>,
    n: nat,
)
    requires
        call_ensures(sanitize, (s, url), r),
        url matches Some(u) ==> u@ == remote + run_of('/', n) && remote.len() > 0 && remote.last()
            != '/' && free_of(s@, remote),
        s@ == a + "x-access-token"@ + b,
        forall|i: int|
            0 <= i < a.len() ==> #[trigger] s@.subrange(i, i + "x-access-token"@.len())
                != "x-access-token"@,
        free_of(b, "x-access-token"@),
    ensures
        r@ == a + "[redacted]"@ + b,
{
    reveal_strlit("x-access-token");
    if let Some(u) = url {
        lemma_without_run_behind(remote, '/', n);
        lemma_free_of(s@, remote);
        lemma_replaced_absent(s@, remote, "[remote]"@);
        if contains(s@, u@) {
            let i = choose|i: int| occurs_at(s@, u@, i);
            assert(s@.subrange(i, i + u@.len()).take(remote.len() as int) == s@.subrange(
                i,
                i + remote.len(),
            ));
            assert(u@.take(remote.len() as int) == remote);
        }
        lemma_replaced_absent(s@, u@, "[remote]"@);
    }
    lemma_replaced_once(s@, "x-access-token"@, "[redacted]"@, a, b);
}

/// Output without anything to hide is kept.
pub proof fn law_clean_text_is_kept(
    s: &str,
    url: Option<&str>,
    r: String,
    remote: Seq<char>,
    n: nat,
)
    requires
        call_ensures(sanitize, (s, url), r),
        url matches Some(u) ==> u@ == remote + run_of('/', n) && remote.len() > 0 && remote.last()
            != '/' && free_of(s@, remote),
        free_of(s@, "x-access-token"@),
    ensures
        r@ == s@,
{
    reveal_strlit("x-access-token");
    lemma_free_of(s@, "x-access-token"@);
    if let Some(u) = url {
        lemma_without_run_behind(remote, '/', n);
        lemma_free_of(s@, remote);
        crate::git_ops::law_clean_output_is_kept(s@, u@);
    } else {
        lemma_replaced_absent(s@, "x-access-token"@, "[redacted]"@);
    }
}

/// The text that an optional slice and an optional string both hold.
pub open spec fn same_option(a: Option<&str>, b: Option<String>) -> bool {
    match (a, b) {
        (Some(x), Some(y)) => x@ == y@,
        (None, None) => true,
        _ => false,
    }
}

/// A command that succeeded returns its sanitized output; one that failed returns
/// an error that holds it, behind the name of the operation.
pub proof fn law_git_result_is_the_sanitized_output(
    run: &GitRun,
    op: GitOp,
    success: bool,
    printed: &str,
    r: Result<String, CodeError>,
    url: Option<&str>,
    clean: String,
)
    requires
        call_ensures(finish_git_op, (run, op, success, printed), r),
        call_ensures(sanitize, (printed, url), clean),
        same_option(url, run.cap_url),
    ensures
        success ==> r is Ok && r->Ok_0@ == clean@,
        !success ==> r is Err && r->Err_0.code == CodeErrorCode::Internal,
        !success && op == GitOp::Push ==> r->Err_0.message@ == "git "@ + "Push"@ + " failed: "@
            + clean@,
        !success && op == GitOp::Fetch ==> r->Err_0.message@ == "git "@ + "Fetch"@ + " failed: "@
            + clean@,
        !success && op == GitOp::Clone ==> r->Err_0.message@ == "git "@ + "Clone"@ + " failed: "@
            + clean@,
{
}

/// What both streams say, the error stream behind the other, is what a finished
/// command printed; a command that was not started is an error with the reason.
pub proof fn law_both_streams_are_returned(
    run: &GitRun,
    op: GitOp,
    end: &GitEnd,
    r: Result<String, CodeError>,
    success: bool,
    stdout: Vec<u8>,
    stderr: Vec<u8>,
    printed: &str,
    finished: Result<String, CodeError>,
    why: String,
)
    requires
        call_ensures(git_op_output, (run, op, end), r),
        call_ensures(finish_git_op, (run, op, success, printed), finished),
        printed@ == lossy_text(stdout@) + lossy_text(stderr@),
    ensures
        *end == (GitEnd::Ended { success, stdout, stderr }) ==> {
            &&& match (r, finished) {
                (Ok(x), Ok(y)) => x@ == y@,
                (Err(x), Err(y)) => x.code == y.code && x.message@ == y.message@,
                _ => false,
            }
            &&& valid_utf8(stdout@) && valid_utf8(stderr@) ==> printed@ == decode_utf8(stdout@)
                + decode_utf8(stderr@)
        },
        *end == GitEnd::NotStarted(why) ==> r is Err && r->Err_0.code == CodeErrorCode::Internal
            && r->Err_0.message@ == "git spawn"@ + ": "@ + why@,
{
}

/// The commit is what the query printed, without the white space around it, and
/// there is none if the query failed or was not started.
pub proof fn law_commit_is_what_was_printed(
    end: &GitEnd,
    sha: Option<String>,
    output: String,
    r: GitOpResult,
    success: bool,
    stdout: Vec<u8>,
    stderr: Vec<u8>,
    a: Seq<char>,
    commit: Seq<char>,
    b: Seq<char>,
)
    requires
        call_ensures(head_sha, (end,), sha),
        call_ensures(git_op_result, (output, end), r),
        lossy_text(stdout@) == a + commit + b,
        blank(a),
        blank(b),
        tight(commit),
    ensures
        *end == (GitEnd::Ended { success, stdout, stderr }) ==> {
            &&& success ==> sha is Some && sha->0@ == commit
            &&& success && valid_utf8(stdout@) ==> decode_utf8(stdout@) == a + commit + b
            &&& !success ==> sha is None
        },
        end is NotStarted ==> sha is None,
        r.output@ == output@,
        r.commit_sha is Some == sha is Some,
        sha is Some ==> r.commit_sha->0@ == sha->0@,
{
    lemma_trimmed_middle(a, commit, b);
}

} // verus!
