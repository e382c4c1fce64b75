//! Reading and writing files of a repository. The forge carries the contents of
//! a file in base64, with white space anywhere in it.

use vstd::prelude::*;
use vstd::string::*;
use vstd::utf8::*;

use base64::Engine;

use crate::creds::opt_slice;
use crate::forge::client::{
    accept, accepted, repo_path, repo_suffix, BodyView, CallView, ForgeBody, ForgeCall, ForgeClient,
    ForgeError, ForgeMethod, ForgeReply,
};
use crate::text::{chars_of, is_space, is_whitespace, same_text};

verus! {

/// A file of a repository.
#[derive(Debug)]
pub struct ForgeFile {
    pub content: String,
    /// The hash of the blob, which an update has to name.
    pub sha: String,
}

/// A file, as the forge describes it.
#[derive(Debug)]
pub struct GiteaContent {
    pub content: String,
    pub encoding: String,
    pub sha: String,
}

/// What the forge says of a written file.
#[derive(Debug)]
pub struct GiteaPutContent {
    pub sha: String,
}

/// The answer to writing a file.
#[derive(Debug)]
pub struct GiteaPutResp {
    pub content: GiteaPutContent,
}

// ---------------------------------------------------------------------------
// Base64
// ---------------------------------------------------------------------------

/// What the standard base64 engine makes of bytes.
pub uninterp spec fn base64_text(bytes: Seq<u8>) -> Seq<char>;

/// What the standard base64 engine reads from a text: bytes or, if it does not
/// accept the text, the message of its error.
pub uninterp spec fn base64_bytes(text: Seq<char>) -> Result<Seq<u8>, Seq<char>>;

/// The message of the error that bytes are no UTF-8.
pub uninterp spec fn utf8_complaint(bytes: Seq<u8>) -> Seq<char>;

/// How many characters `n` bytes take in padded base64.
pub open spec fn base64_len(n: nat) -> nat {
    (n + 2) / 3 * 4
}

/// `base64::Engine::encode` of `general_purpose::STANDARD`: the bytes in padded
/// base64, which is `base64_text`. The engine reads the bytes back from it, and
/// there is no white space in it.
#[verifier::external_body]
fn encode_base64(bytes: &[u8]) -> (r: String)
    requires
        base64_len(bytes@.len()) <= isize::MAX,
    ensures
        r@ == base64_text(bytes@),
        base64_bytes(r@) is Ok && base64_bytes(r@)->Ok_0 == bytes@,
        forall|i: int| 0 <= i < r@.len() ==> !is_space(#[trigger] r@[i]),
{
    base64::engine::general_purpose::STANDARD.encode(bytes)
}

/// `base64::Engine::decode` of `general_purpose::STANDARD`: the bytes of a text
/// in padded base64, or the text of the error. Which texts it accepts, what it
/// reads from them and what it says of the others is `base64_bytes`.
#[verifier::external_body]
fn decode_base64(text: &str) -> (r: Result<Vec<u8>, String>)
    ensures
        match r {
            Ok(b) => base64_bytes(text@) is Ok && base64_bytes(text@)->Ok_0 == b@,
            Err(why) => base64_bytes(text@) is Err && base64_bytes(text@)->Err_0 == why@,
        },
{
    match base64::engine::general_purpose::STANDARD.decode(text) {
        Ok(b) => Ok(b),
        Err(e) => Err(e.to_string()),
    }
}

/// `String::from_utf8`: the text of bytes that are valid UTF-8 and, for all
/// others, the text of the error, which is `utf8_complaint`.
#[verifier::external_body]
fn text_of(bytes: Vec<u8>) -> (r: Result<String, String>)
    ensures
        match r {
            Ok(s) => valid_utf8(bytes@) && s@ == decode_utf8(bytes@),
            Err(why) => !valid_utf8(bytes@) && why@ == utf8_complaint(bytes@),
        },
{
    match String::from_utf8(bytes) {
        Ok(s) => Ok(s),
        Err(e) => Err(e.to_string()),
    }
}

/// `s` without its white space.
pub open spec fn without_space(s: Seq<char>) -> Seq<char>
    decreases s.len(),
{
    if s.len() == 0 {
        seq![]
    } else if is_space(s.last()) {
        without_space(s.drop_last())
    } else {
        without_space(s.drop_last()).push(s.last())
    }
}

/// `s` without its white space.
pub fn strip_space(s: &str) -> (r: String)
    ensures
        r@ == without_space(s@),
{
    let v = chars_of(s);
    let mut out = String::new();
    let mut i: usize = 0;
    assert(out@ == without_space(v@.take(0)));
    while i < v.len()
        invariant
            i <= v.len(),
            v@ == s@,
            out@ == without_space(v@.take(i as int)),
        decreases v.len() - i,
    {
        assert(v@.take(i + 1).drop_last() == v@.take(i as int));
        if !is_whitespace(v[i]) {
            out.push(v[i]);
        }
        i += 1;
    }
    assert(v@.take(i as int) == v@);
    out
}

// ---------------------------------------------------------------------------
// Reading
// ---------------------------------------------------------------------------

/// The API path of a file.
pub open spec fn file_api_path(org: Seq<char>, repo: Seq<char>, path: Seq<char>) -> Seq<char> {
    repo_path(org, repo) + "/contents/"@ + path
}

/// The text that bytes hold, or the message of the failure to read it.
pub open spec fn utf8_text(bytes: Seq<u8>) -> Result<Seq<char>, Seq<char>> {
    if valid_utf8(bytes) {
        Ok(decode_utf8(bytes))
    } else {
        Err(utf8_complaint(bytes))
    }
}

/// The text that the forge carries as `content`, in base64 of UTF-8, or the
/// message of the failure to read it.
pub open spec fn carried(content: Seq<char>) -> Result<Seq<char>, Seq<char>> {
    match base64_bytes(without_space(content)) {
        Ok(bytes) => utf8_text(bytes),
        Err(why) => Err(why),
    }
}

fn file_suffix(org: &str, repo: &str, path: &str) -> (r: String)
    ensures
        r@ == file_api_path(org@, repo@, path@),
{
    let mut s = repo_suffix(org, repo);
    s.append("/contents/");
    s.append(path);
    s
}

/// The text of a decoded file.
pub fn decoded_text(bytes: Vec<u8>) -> (r: Result<String, ForgeError>)
    ensures
        utf8_text(bytes@) == (match r {
            Ok(s) => Ok::<Seq<char>, Seq<char>>(s@),
            Err(e) => Err(e.message@),
        }),
{
    match text_of(bytes) {
        Ok(s) => Ok(s),
        Err(why) => Err(ForgeError { message: why }),
    }
}

/// The call that a reply answers to, as failures name it.
pub open spec fn file_call_name(
    call: Seq<char>,
    org: Seq<char>,
    repo: Seq<char>,
) -> Seq<char> {
    call + " "@ + org + "/"@ + repo
}

fn call_name(call: &str, org: &str, repo: &str) -> (r: String)
    ensures
        r@ == file_call_name(call@, org@, repo@),
{
    let mut s = call.to_owned();
    s.append(" ");
    s.append(org);
    s.append("/");
    s.append(repo);
    s
}

/// The contents of a file, or the message of the failure to read it.
pub open spec fn contents_of(body: GiteaContent) -> Result<Seq<char>, Seq<char>> {
    if body.encoding@ != "base64"@ {
        Err("forge get_file: unexpected encoding "@ + body.encoding@)
    } else {
        carried(body.content@)
    }
}

/// The file that the forge describes.
pub fn file_content(body: GiteaContent) -> (r: Result<ForgeFile, ForgeError>)
    ensures
        match r {
            Ok(f) => contents_of(body) == Ok::<Seq<char>, Seq<char>>(f.content@) && f.sha
                == body.sha,
            Err(e) => contents_of(body) == Err::<Seq<char>, Seq<char>>(e.message@),
        },
{
    if !same_text(body.encoding.as_str(), "base64") {
        let mut message = "forge get_file: unexpected encoding ".to_owned();
        message.append(body.encoding.as_str());
        return Err(ForgeError { message });
    }
    let raw = strip_space(body.content.as_str());
    let bytes = match decode_base64(raw.as_str()) {
        Ok(bytes) => bytes,
        Err(why) => {
            return Err(ForgeError { message: why });
        },
    };
    match decoded_text(bytes) {
        Ok(content) => Ok(ForgeFile { content, sha: body.sha }),
        Err(e) => Err(e),
    }
}

/// What to return for the reply to [`ForgeClient::get_file`]. A file that is not
/// there is no failure.
pub fn file_read(org: &str, repo: &str, reply: ForgeReply<GiteaContent>) -> (r: Result<
    Option<ForgeFile>,
    ForgeError,
>)
    ensures
        if reply matches ForgeReply::Answer { code, .. } && code == 404 {
            r matches Ok(None)
        } else {
            match accepted(reply, file_call_name("forge get_file"@, org@, repo@)) {
                Err(why) => r matches Err(e) && e.message@ == why,
                Ok(body) => match r {
                    Ok(Some(f)) => contents_of(body) == Ok::<Seq<char>, Seq<char>>(f.content@)
                        && f.sha == body.sha,
                    Ok(None) => false,
                    Err(e) => contents_of(body) == Err::<Seq<char>, Seq<char>>(e.message@),
                },
            }
        },
{
    if let ForgeReply::Answer { code, .. } = &reply {
        if *code == 404 {
            return Ok(None);
        }
    }
    match accept(reply, call_name("forge get_file", org, repo).as_str()) {
        Ok(body) => match file_content(body) {
            Ok(f) => Ok(Some(f)),
            Err(e) => Err(e),
        },
        Err(e) => Err(e),
    }
}

// ---------------------------------------------------------------------------
// Writing
// ---------------------------------------------------------------------------

/// The hash of the blob that the forge wrote.
pub fn file_put(org: &str, repo: &str, reply: ForgeReply<GiteaPutResp>) -> (r: Result<
    String,
    ForgeError,
>)
    ensures
        match (accepted(reply, file_call_name("forge put_file"@, org@, repo@)), r) {
            (Ok(resp), Ok(sha)) => sha == resp.content.sha,
            (Err(why), Err(e)) => e.message@ == why,
            _ => false,
        },
{
    match accept(reply, call_name("forge put_file", org, repo).as_str()) {
        Ok(resp) => Ok(resp.content.sha),
        Err(e) => Err(e),
    }
}

/// A text without white space is what is left of it without white space.
proof fn lemma_without_space(s: Seq<char>)
    requires
        forall|i: int| 0 <= i < s.len() ==> !is_space(#[trigger] s[i]),
    ensures
        without_space(s) == s,
    decreases s.len(),
{
    if s.len() > 0 {
        let t = s.drop_last();
        assert forall|i: int| 0 <= i < t.len() implies !is_space(#[trigger] t[i]) by {
            assert(t[i] == s[i]);
        }
        lemma_without_space(t);
        assert(!is_space(s[s.len() - 1]));
        assert(t.push(s.last()) == s);
    } else {
        assert(without_space(s) == s);
    }
}

impl ForgeClient {
    /// The call that reads a file, at `git_ref` or at the default branch.
    pub fn get_file(&self, org: &str, repo: &str, path: &str, git_ref: Option<&str>) -> (r:
        ForgeCall)
        ensures
            r@ == (CallView {
                method: ForgeMethod::Get,
                url: self@.api(file_api_path(org@, repo@, path@)),
                auth: self@.admin(),
                query_ref: opt_slice(git_ref),
                body: BodyView::Nothing,
            }),
    {
        let query_ref = match git_ref {
            Some(g) => Some(g.to_owned()),
            None => None,
        };
        ForgeCall {
            method: ForgeMethod::Get,
            url: self.api(file_suffix(org, repo, path).as_str()),
            auth: self.admin(),
            query_ref,
            body: ForgeBody::Nothing,
        }
    }

    /// The call that creates a file or, with the hash of its blob, updates it.
    /// What it sends as the contents reads back as `content`, whatever white
    /// space is put into it. A content whose base64 no text can hold is left
    /// out.
    pub fn put_file(
        &self,
        org: &str,
        repo: &str,
        path: &str,
        message: &str,
        content: &str,
        branch: &str,
        sha: Option<&str>,
    ) -> (r: ForgeCall)
        requires
            base64_len(encode_utf8(content@).len()) <= isize::MAX,
        ensures
            r@ == (CallView {
                method: ForgeMethod::Put,
                url: self@.api(file_api_path(org@, repo@, path@)),
                auth: self@.admin(),
                query_ref: None,
                body: BodyView::File {
                    message: message@,
                    content: base64_text(encode_utf8(content@)),
                    branch: branch@,
                    sha: opt_slice(sha),
                },
            }),
            forall|spaced: Seq<char>|
                without_space(spaced) == base64_text(encode_utf8(content@)) ==> #[trigger] carried(
                    spaced,
                ) == Ok::<Seq<char>, Seq<char>>(content@),
            carried(base64_text(encode_utf8(content@))) == Ok::<Seq<char>, Seq<char>>(content@),
    {
        let encoded = encode_base64(content.as_bytes());
        proof {
            encode_utf8_valid_utf8(content@);
            encode_utf8_decode_utf8(content@);
            lemma_without_space(encoded@);
        }
        let sha = match sha {
            Some(s) => Some(s.to_owned()),
            None => None,
        };
        ForgeCall {
            method: ForgeMethod::Put,
            url: self.api(file_suffix(org, repo, path).as_str()),
            auth: self.admin(),
            query_ref: None,
            body: ForgeBody::File {
                message: message.to_owned(),
                content: encoded,
                branch: branch.to_owned(),
                sha,
            },
        }
    }
}

} // verus!
