//! The control endpoint: adding an SSH key for callers that hold the
//! authorized-keys capability, and dropping every credential before a snapshot.
//!
//! A request to add a key carries `Authorization: Bearer <cap>`. The key is
//! looked at only after the token has been found equal to the capability that
//! the broker holds; without a held capability every such request is refused.

use vstd::prelude::*;
use vstd::string::*;
use vstd::utf8::*;

use crate::authorized_keys::{acceptable, one_line, recognised, refused, validated_key};
use crate::contract::{opt_text, CodeError, CodeErrorCode};
use crate::creds::{
    constant_time_eq, covers, filled, filled_text, opt_slice, overwritten, Creds, CredsView,
};
use crate::frame::{head_and_body, joined, message, split_head};
use crate::json::{json_document, member, parse_json, read_member, Json, Member, MemberView};
use crate::lines::{lines, lines_of, slices, texts, words, words_of};
use crate::reading::{decode_lossy, lossy_text, reads_plainly};
use crate::search::{ends_with, split_at_first, split_once, strip_suffix};
use crate::text::{
    decimal, decimal_of, equal_ignoring_case, same_ignoring_case, same_text, trim, trimmed,
};

verus! {

/// The port of the control endpoint.
pub const BROKER_CTRL_PORT: u16 = 8732;

/// The path of a request to add a key.
pub const AUTH_KEYS_PATH: &'static str = "/v1/authorized-keys";

/// The path of a request to drop every credential.
pub const PRE_SNAPSHOT_SCRUB_PATH: &'static str = "/v1/pre-snapshot-scrub";

/// The file of the capability directory that holds the authorized-keys
/// capability.
pub const AUTHKEYS_CAP_FILE: &'static str = "authkeys.cap";

/// The file of the capability directory that holds the forge admin credentials.
pub const FORGE_ADMIN_FILE: &'static str = "forge-admin.token";

// ---------------------------------------------------------------------------
// Requests
// ---------------------------------------------------------------------------

/// What the endpoint reads of a request.
#[derive(Debug)]
pub struct ParsedRequest {
    pub method: String,
    pub path: String,
    /// The value of the `Authorization` header.
    pub authorization: Option<String>,
    pub body: String,
}

/// The texts of [`ParsedRequest`].
pub ghost struct RequestView {
    pub method: Seq<char>,
    pub path: Seq<char>,
    pub authorization: Option<Seq<char>>,
    pub body: Seq<char>,
}

impl View for ParsedRequest {
    type V = RequestView;

    open spec fn view(&self) -> RequestView {
        RequestView {
            method: self.method@,
            path: self.path@,
            authorization: opt_text(self.authorization),
            body: self.body@,
        }
    }
}

impl Default for ParsedRequest {
    fn default() -> (r: Self)
        ensures
            r.method@.len() == 0,
            r.path@.len() == 0,
            r.authorization is None,
            r.body@.len() == 0,
    {
        ParsedRequest {
            method: String::new(),
            path: String::new(),
            authorization: None,
            body: String::new(),
        }
    }
}

/// The trimmed value of a head line, if it is an `Authorization` header.
pub open spec fn authorization_value(line: Seq<char>) -> Option<Seq<char>> {
    match split_at_first(line, ":"@) {
        Some((name, value)) => if same_ignoring_case(trimmed(name), "authorization"@) {
            Some(trimmed(value))
        } else {
            None
        },
        None => None,
    }
}

/// The value of the last `Authorization` header among the head lines.
pub open spec fn authorization_of(headers: Seq<Seq<char>>) -> Option<Seq<char>>
    decreases headers.len(),
{
    if headers.len() == 0 {
        None
    } else {
        match authorization_value(headers.last()) {
            Some(v) => Some(v),
            None => authorization_of(headers.drop_last()),
        }
    }
}

/// The request that a frame holds: the first two words of its first line, the
/// `Authorization` header of the lines after it, and the body. A frame without
/// two words in its first line holds none.
pub open spec fn parsed(raw: Seq<char>) -> Option<RequestView> {
    let (head, body) = head_and_body(raw);
    let ls = lines(head);
    if ls.len() == 0 || words(ls[0]).len() < 2 {
        None
    } else {
        Some(
            RequestView {
                method: words(ls[0])[0],
                path: words(ls[0])[1],
                authorization: authorization_of(ls.drop_first()),
                body,
            },
        )
    }
}

/// The request that a frame holds.
pub fn parse_request(raw: &str) -> (r: Option<ParsedRequest>)
    ensures
        match r {
            Some(req) => parsed(raw@) == Some(req@),
            None => parsed(raw@) is None,
        },
{
    let (head, body) = split_head(raw);
    let all = lines_of(head);
    let ghost ls = lines(head@);
    assert(slices(all@) == ls);
    if all.len() == 0 {
        return None;
    }
    assert(slices(all@)[0] == all@[0]@);
    let parts = words_of(all[0]);
    assert(slices(parts@) == words(ls[0]));
    if parts.len() < 2 {
        return None;
    }
    assert(slices(parts@)[0] == parts@[0]@ && slices(parts@)[1] == parts@[1]@);
    let mut authorization: Option<String> = None;
    let mut i: usize = 1;
    assert(ls.subrange(1, 1) == Seq::<Seq<char>>::empty());
    while i < all.len()
        invariant
            1 <= i <= all.len(),
            slices(all@) == ls,
            opt_text(authorization) == authorization_of(ls.subrange(1, i as int)),
        decreases all.len() - i,
    {
        assert(slices(all@)[i as int] == all@[i as int]@);
        assert(ls.subrange(1, i + 1).drop_last() == ls.subrange(1, i as int));
        if let Some((name, value)) = split_once(all[i], ":") {
            if equal_ignoring_case(trim(name), "authorization") {
                authorization = Some(trim(value).to_owned());
            }
        }
        i += 1;
    }
    assert(ls.subrange(1, i as int) == ls.drop_first());
    Some(
        ParsedRequest {
            method: parts[0].to_owned(),
            path: parts[1].to_owned(),
            authorization,
            body: body.to_owned(),
        },
    )
}

// ---------------------------------------------------------------------------
// Authorization
// ---------------------------------------------------------------------------

/// The token of a bearer credential: what follows the first space, trimmed, if
/// the scheme before it is `bearer` in any case and something does follow.
pub open spec fn bearer(authorization: Option<Seq<char>>) -> Option<Seq<char>> {
    match authorization {
        Some(value) => match split_at_first(trimmed(value), " "@) {
            Some((scheme, rest)) => if same_ignoring_case(scheme, "bearer"@) && trimmed(rest).len()
                > 0 {
                Some(trimmed(rest))
            } else {
                None
            },
            None => None,
        },
        None => None,
    }
}

/// The token of a bearer credential.
pub fn bearer_token(authorization: Option<&str>) -> (r: Option<&str>)
    ensures
        opt_slice(r) == bearer(opt_slice(authorization)),
{
    match authorization {
        Some(value) => match split_once(trim(value), " ") {
            Some((scheme, rest)) => {
                if !equal_ignoring_case(scheme, "bearer") {
                    return None;
                }
                let token = trim(rest);
                if token.is_empty() {
                    None
                } else {
                    Some(token)
                }
            },
            None => None,
        },
        None => None,
    }
}

/// The request presents the held capability as its bearer token.
pub open spec fn authorized(held_cap: Option<Seq<char>>, req: RequestView) -> bool {
    held_cap is Some && bearer(req.authorization) == held_cap
}

/// The authorized-keys capability that the text of its file gives: none if there
/// is no file or it holds white space only.
pub fn read_authkeys_cap(contents: Option<&str>) -> (r: Option<String>)
    ensures
        opt_text(r) == filled(opt_slice(contents)),
{
    filled_text(contents)
}

/// Whether the request presents the held capability as its bearer token.
fn is_authorized(held_cap: Option<&str>, req: &ParsedRequest) -> (r: bool)
    ensures
        r == authorized(opt_slice(held_cap), req@),
{
    let authorization = match &req.authorization {
        Some(value) => Some(value.as_str()),
        None => None,
    };
    match (held_cap, bearer_token(authorization)) {
        (Some(held), Some(token)) => {
            proof {
                encode_utf8_decode_utf8(held@);
                encode_utf8_decode_utf8(token@);
            }
            constant_time_eq(held.as_bytes(), token.as_bytes())
        },
        _ => false,
    }
}

// ---------------------------------------------------------------------------
// Outcomes
// ---------------------------------------------------------------------------

/// The answer to a request: a status and a short text.
#[derive(Debug, PartialEq, Eq)]
pub struct HttpOutcome {
    pub status: u16,
    pub body: String,
}

impl HttpOutcome {
    /// This is the outcome with `status` and the text `body`.
    pub open spec fn says(&self, status: u16, body: Seq<char>) -> bool {
        self.status == status && self.body@ == body
    }

    pub fn new(status: u16, body: &str) -> (r: Self)
        ensures
            r.says(status, body@),
    {
        HttpOutcome { status, body: body.to_owned() }
    }
}

// ---------------------------------------------------------------------------
// Adding a key
// ---------------------------------------------------------------------------

/// What the endpoint reads of the body of a request to add a key.
#[derive(Debug, Clone)]
pub enum KeyBody {
    /// The body is no JSON document.
    Malformed,
    /// The members `public_key` and `pubkey` of the document.
    Members { public_key: Member, pubkey: Member },
}

/// The texts of [`KeyBody`].
pub ghost enum KeyBodyView {
    Malformed,
    Members { public_key: MemberView, pubkey: MemberView },
}

impl View for KeyBody {
    type V = KeyBodyView;

    open spec fn view(&self) -> KeyBodyView {
        match self {
            KeyBody::Malformed => KeyBodyView::Malformed,
            KeyBody::Members { public_key, pubkey } => KeyBodyView::Members {
                public_key: public_key@,
                pubkey: pubkey@,
            },
        }
    }
}

/// What the endpoint reads of a parsed body.
pub open spec fn key_body(doc: Option<Json>) -> KeyBodyView {
    match doc {
        Some(d) => KeyBodyView::Members {
            public_key: member(d, "public_key"@),
            pubkey: member(d, "pubkey"@),
        },
        None => KeyBodyView::Malformed,
    }
}

/// The key that a document submits: its `public_key` or, without such a member,
/// its `pubkey`, if that is a string that is not empty.
pub open spec fn submitted(public_key: MemberView, pubkey: MemberView) -> Option<Seq<char>> {
    let chosen = if public_key is Absent {
        pubkey
    } else {
        public_key
    };
    match chosen {
        MemberView::Text(key) => if key.len() > 0 {
            Some(key)
        } else {
            None
        },
        _ => None,
    }
}

/// Reads the body of a request to add a key.
pub fn read_key_body(body: &str) -> (r: KeyBody)
    ensures
        r@ == key_body(json_document(trimmed(body@))),
{
    match parse_json(trim(body)) {
        Ok(doc) => KeyBody::Members {
            public_key: read_member(&doc, "public_key"),
            pubkey: read_member(&doc, "pubkey"),
        },
        Err(_) => KeyBody::Malformed,
    }
}

/// The key that the body of a request submits, or the refusal.
pub fn submitted_key(body: &KeyBody) -> (r: Result<&str, HttpOutcome>)
    ensures
        match (body@, r) {
            (KeyBodyView::Malformed, Err(o)) => o.says(400, "bad json body"@),
            (KeyBodyView::Malformed, Ok(_)) => false,
            (KeyBodyView::Members { public_key, pubkey }, Ok(key)) => submitted(public_key, pubkey)
                == Some(key@),
            (KeyBodyView::Members { public_key, pubkey }, Err(o)) => submitted(
                public_key,
                pubkey,
            ) is None && o.says(400, "missing public_key"@),
        },
{
    let (public_key, pubkey) = match body {
        KeyBody::Malformed => {
            return Err(HttpOutcome::new(400, "bad json body"));
        },
        KeyBody::Members { public_key, pubkey } => (public_key, pubkey),
    };
    let chosen = match public_key {
        Member::Absent => pubkey,
        _ => public_key,
    };
    if let Member::Text(key) = chosen {
        if !key.as_str().is_empty() {
            return Ok(key.as_str());
        }
    }
    Err(HttpOutcome::new(400, "missing public_key"))
}

/// `o` tells the caller what became of appending a key: a refused key is the
/// caller's fault, any other failure is not.
pub open spec fn tells(o: HttpOutcome, appended: Result<(), CodeError>) -> bool {
    match appended {
        Ok(_) => o.says(200, "ok"@),
        Err(e) => o.says(
            if e.code == CodeErrorCode::Invalid {
                400
            } else {
                500
            },
            e.message@,
        ),
    }
}

/// The answer after a key was handed over to be appended.
pub fn key_outcome(appended: Result<(), CodeError>) -> (r: HttpOutcome)
    ensures
        tells(r, appended),
{
    match appended {
        Ok(()) => HttpOutcome::new(200, "ok"),
        Err(e) => {
            let status: u16 = if e.code == CodeErrorCode::Invalid {
                400
            } else {
                500
            };
            HttpOutcome { status, body: e.message }
        },
    }
}

/// The request reaches the body: it has the path and the method of a request to
/// add a key, and presents the held capability.
pub open spec fn admitted(held_cap: Option<Seq<char>>, req: RequestView) -> bool {
    &&& req.path == "/v1/authorized-keys"@
    &&& req.method == "POST"@
    &&& authorized(held_cap, req)
}

/// The answer to a request that does not reach the body.
pub open spec fn turned_away(
    held_cap: Option<Seq<char>>,
    req: RequestView,
    o: HttpOutcome,
) -> bool {
    if req.path != "/v1/authorized-keys"@ {
        o.says(404, "not found"@)
    } else if req.method != "POST"@ {
        o.says(405, "method not allowed"@)
    } else {
        !authorized(held_cap, req) && o.says(401, "unauthorized"@)
    }
}

/// Answers a request to add a key. `add_key` appends one; it is called once with
/// the submitted key if the request presents the held capability and submits
/// one, and else not at all.
pub fn handle_add_key<F>(held_cap: Option<&str>, req: &ParsedRequest, add_key: F) -> (r:
    HttpOutcome) where F: FnOnce(&str) -> Result<(), CodeError>
    requires
        admitted(opt_slice(held_cap), req@) ==> (match key_body(
            json_document(trimmed(req.body@)),
        ) {
            KeyBodyView::Malformed => true,
            KeyBodyView::Members { public_key, pubkey } => forall|k: &str|
                submitted(public_key, pubkey) == Some(k@) ==> #[trigger] call_requires(
                    add_key,
                    (k,),
                ),
        }),
    ensures
        !admitted(opt_slice(held_cap), req@) ==> turned_away(opt_slice(held_cap), req@, r),
        admitted(opt_slice(held_cap), req@) ==> match key_body(json_document(trimmed(req.body@))) {
            KeyBodyView::Malformed => r.says(400, "bad json body"@),
            KeyBodyView::Members { public_key, pubkey } => match submitted(public_key, pubkey) {
                None => r.says(400, "missing public_key"@),
                Some(key) => exists|k: &str, appended: Result<(), CodeError>|
                    k@ == key && #[trigger] call_ensures(add_key, (k,), appended) && tells(
                        r,
                        appended,
                    ),
            },
        },
{
    if !same_text(req.path.as_str(), AUTH_KEYS_PATH) {
        return HttpOutcome::new(404, "not found");
    }
    if !same_text(req.method.as_str(), "POST") {
        return HttpOutcome::new(405, "method not allowed");
    }
    if !is_authorized(held_cap, req) {
        return HttpOutcome::new(401, "unauthorized");
    }
    let body = read_key_body(req.body.as_str());
    match submitted_key(&body) {
        Ok(key) => key_outcome(add_key(key)),
        Err(o) => o,
    }
}

/// Answers a request to add a key as [`handle_add_key`] does, but only checks the
/// submitted key and appends it nowhere.
pub fn check_add_key(held_cap: Option<&str>, req: &ParsedRequest) -> (r: HttpOutcome)
    ensures
        !admitted(opt_slice(held_cap), req@) ==> turned_away(opt_slice(held_cap), req@, r),
        admitted(opt_slice(held_cap), req@) ==> match key_body(json_document(trimmed(req.body@))) {
            KeyBodyView::Malformed => r.says(400, "bad json body"@),
            KeyBodyView::Members { public_key, pubkey } => match submitted(public_key, pubkey) {
                None => r.says(400, "missing public_key"@),
                Some(key) => if !one_line(trimmed(key)) {
                    r.says(400, "key must be one line"@)
                } else if !recognised(trimmed(key)) {
                    r.says(400, "unrecognised key type"@)
                } else {
                    r.says(200, "ok"@)
                },
            },
        },
{
    let check = |k: &str| -> (c: Result<(), CodeError>)
        ensures
            match c {
                Ok(_) => acceptable(trimmed(k@)),
                Err(e) => refused(trimmed(k@), e),
            },
        {
            match validated_key(k) {
                Ok(_) => Ok(()),
                Err(e) => Err(e),
            }
        };
    handle_add_key(held_cap, req, check)
}

// ---------------------------------------------------------------------------
// Dropping every credential
// ---------------------------------------------------------------------------

/// The files of the capability directory to remove, where `listing` names the
/// files in it: the capability URLs in the order of the listing, the
/// authorized-keys capability and the forge admin credentials.
pub open spec fn cred_files(listing: Seq<Seq<char>>) -> Seq<Seq<char>> {
    listing.filter(|n: Seq<char>| ends_with(n, ".url"@)) + seq![
        "authkeys.cap"@,
        "forge-admin.token"@,
    ]
}

/// The files of the capability directory to remove.
pub fn remove_cred_files(listing: &Vec<String>) -> (r: Vec<String>)
    ensures
        texts(r@) == cred_files(texts(listing@)),
{
    let mut out: Vec<String> = Vec::new();
    let mut i: usize = 0;
    let ghost names = texts(listing@);
    let ghost is_url = |n: Seq<char>| ends_with(n, ".url"@);
    proof {
        reveal(Seq::filter);
    }
    assert(texts(out@) == names.take(0).filter(is_url));
    while i < listing.len()
        invariant
            i <= listing.len(),
            names == texts(listing@),
            is_url == (|n: Seq<char>| ends_with(n, ".url"@)),
            texts(out@) == names.take(i as int).filter(is_url),
        decreases listing.len() - i,
    {
        let ghost before = texts(out@);
        proof {
            reveal(Seq::filter);
            assert(names.take(i + 1).drop_last() == names.take(i as int));
            assert(names.take(i + 1).last() == listing@[i as int]@);
        }
        if strip_suffix(listing[i].as_str(), ".url").is_some() {
            out.push(listing[i].as_str().to_owned());
            assert(texts(out@) == before.push(listing@[i as int]@));
        }
        i += 1;
    }
    assert(names.take(i as int) == names);
    let ghost urls = texts(out@);
    out.push(AUTHKEYS_CAP_FILE.to_owned());
    out.push(FORGE_ADMIN_FILE.to_owned());
    assert(texts(out@) == urls + seq!["authkeys.cap"@, "forge-admin.token"@]);
    out
}

/// The answer to a request to drop every credential, the files of the capability
/// directory to remove, and the overwritten buffers of what was held.
#[derive(Debug)]
pub struct Scrub {
    pub outcome: HttpOutcome,
    pub remove: Vec<String>,
    pub wiped: Vec<Vec<u8>>,
}

/// Answers a request to drop every credential, where `listing` names the files
/// of the capability directory. It asks for no authorization: the request can
/// take credentials from the broker and give none.
pub fn handle_scrub(creds: &mut Creds, req: &ParsedRequest, listing: &Vec<String>) -> (r: Scrub)
    ensures
        if req.path@ != "/v1/pre-snapshot-scrub"@ {
            &&& r.outcome.says(404, "not found"@)
            &&& r.remove@.len() == 0
            &&& r.wiped@.len() == 0
            &&& final(creds)@ == old(creds)@
        } else if req.method@ != "POST"@ {
            &&& r.outcome.says(405, "method not allowed"@)
            &&& r.remove@.len() == 0
            &&& r.wiped@.len() == 0
            &&& final(creds)@ == old(creds)@
        } else {
            &&& r.outcome.says(200, "ok"@)
            &&& texts(r.remove@) == cred_files(texts(listing@))
            &&& final(creds)@ == CredsView::nothing()
            &&& covers(old(creds).secrets(), old(creds)@)
            &&& overwritten(old(creds).secrets(), r.wiped@)
        },
{
    if !same_text(req.path.as_str(), PRE_SNAPSHOT_SCRUB_PATH) {
        return Scrub {
            outcome: HttpOutcome::new(404, "not found"),
            remove: Vec::new(),
            wiped: Vec::new(),
        };
    }
    if !same_text(req.method.as_str(), "POST") {
        return Scrub {
            outcome: HttpOutcome::new(405, "method not allowed"),
            remove: Vec::new(),
            wiped: Vec::new(),
        };
    }
    let wiped = creds.scrub();
    Scrub { outcome: HttpOutcome::new(200, "ok"), remove: remove_cred_files(listing), wiped }
}

// ---------------------------------------------------------------------------
// Routing and answering
// ---------------------------------------------------------------------------

/// Which handler a frame goes to.
#[derive(Debug)]
pub enum Route {
    /// To [`handle_scrub`].
    Scrub(ParsedRequest),
    /// To [`handle_add_key`].
    AddKey(ParsedRequest),
    /// To none: it is answered at once.
    Answered(HttpOutcome),
}

/// `route` is where the frame `raw` goes.
pub open spec fn goes_to(raw: Seq<char>, route: Route) -> bool {
    match parsed(raw) {
        Some(req) => if req.path == "/v1/pre-snapshot-scrub"@ {
            route matches Route::Scrub(r) && r@ == req
        } else {
            route matches Route::AddKey(r) && r@ == req
        },
        None => route matches Route::Answered(o) && o.says(400, "malformed request"@),
    }
}

/// Which handler a frame goes to.
pub fn route_frame(raw: &str) -> (r: Route)
    ensures
        goes_to(raw@, r),
{
    match parse_request(raw) {
        Some(req) => if same_text(req.path.as_str(), PRE_SNAPSHOT_SCRUB_PATH) {
            Route::Scrub(req)
        } else {
            Route::AddKey(req)
        },
        None => Route::Answered(HttpOutcome::new(400, "malformed request")),
    }
}

/// Which handler the frame goes to that the bytes of a connection hold.
pub fn route_bytes(buf: &[u8]) -> (r: Route)
    ensures
        goes_to(lossy_text(buf@), r),
        reads_plainly(buf@),
{
    let raw = decode_lossy(buf);
    route_frame(raw.as_str())
}

/// The reason phrase of a status.
pub open spec fn reason_phrase(status: u16) -> Seq<char> {
    if status == 200 {
        "OK"@
    } else if status == 400 {
        "Bad Request"@
    } else if status == 401 {
        "Unauthorized"@
    } else if status == 404 {
        "Not Found"@
    } else if status == 405 {
        "Method Not Allowed"@
    } else {
        "Internal Server Error"@
    }
}

/// The reason phrase of a status.
pub fn reason(status: u16) -> (r: &'static str)
    ensures
        r@ == reason_phrase(status),
{
    match status {
        200 => "OK",
        400 => "Bad Request",
        401 => "Unauthorized",
        404 => "Not Found",
        405 => "Method Not Allowed",
        _ => "Internal Server Error",
    }
}

/// The head lines of the answer `o`.
pub open spec fn response_head(o: HttpOutcome) -> Seq<Seq<char>> {
    seq![
        "HTTP/1.1 "@ + decimal(o.status as nat) + " "@ + reason_phrase(o.status),
        "content-type: text/plain"@,
        "content-length: "@ + decimal(encode_utf8(o.body@).len()),
        "connection: close"@,
    ]
}

/// The answer as it is sent.
pub fn response(o: &HttpOutcome) -> (r: String)
    ensures
        r@ == message(response_head(*o), o.body@),
{
    let n: usize = o.body.as_str().as_bytes().len();
    let mut out = "HTTP/1.1 ".to_owned();
    out.append(decimal_of(o.status as u64).as_str());
    out.append(" ");
    out.append(reason(o.status));
    let ghost l0 = out@;
    out.append("\r\n");
    out.append("content-type: text/plain");
    out.append("\r\n");
    out.append("content-length: ");
    let length = decimal_of(n as u64);
    out.append(length.as_str());
    out.append("\r\n");
    out.append("connection: close");
    out.append("\r\n\r\n");
    out.append(o.body.as_str());
    proof {
        let ls = response_head(*o);
        let l1 = "content-type: text/plain"@;
        let l2 = "content-length: "@ + length@;
        let l3 = "connection: close"@;
        assert(ls == seq![l0, l1, l2, l3]);
        let t3 = ls.drop_first().drop_first().drop_first();
        let t2 = ls.drop_first().drop_first();
        let t1 = ls.drop_first();
        assert(t3 == seq![l3]);
        assert(t2.drop_first() == t3);
        assert(t1.drop_first() == t2);
        assert(joined(t3) == l3);
        assert(joined(t2) == l2 + "\r\n"@ + l3);
        assert(joined(t1) == l1 + "\r\n"@ + joined(t2));
        assert(joined(ls) == l0 + "\r\n"@ + joined(t1));
        assert(out@ == joined(ls) + "\r\n\r\n"@ + o.body@);
    }
    out
}

} // verus!
