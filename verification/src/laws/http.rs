//! What the control endpoint reads, whom it lets in and what it answers.

use vstd::prelude::*;
use vstd::string::*;
use vstd::utf8::*;

use crate::authorized_keys::validated_key;
use crate::contract::{CodeError, CodeErrorCode};
use crate::creds::{Creds, ForgeOwnerCreds};
use crate::frame::{head_line, joined, message, split_head};
use crate::http_ctrl::{
    authorization_of, authorization_value, bearer_token, check_add_key, handle_add_key,
    handle_scrub, key_outcome, parse_request, read_authkeys_cap, read_key_body, reason,
    remove_cred_files, response, route_bytes, route_frame, submitted_key, HttpOutcome, KeyBody,
    ParsedRequest, Route, Scrub,
};
use crate::http_laws::{law_frame_parses, lemma_cred_files};
use crate::json::{json_document, Json, Member};
use crate::laws::creds::some_zeroed;
use crate::laws::forge::member_read;
use crate::laws::git::{lemma_texts, same_option};
use crate::laws::text::{folded, lemma_folded, lemma_trim_decomposes, lemma_trimmed_middle, tight};
use crate::lines::{lines_of, slices, texts, words_of};
use crate::reading::{find_body_boundary, lossy_text, room, take_read, NextRead, ReadEvent};
use crate::search::{ends_with, find_from, lemma_find, lemma_find_is, occurs_at, split_at_first};
use crate::text::{blank, decimal_of, is_space, same_ignoring_case, same_letter, trimmed};

verus! {

// ---------------------------------------------------------------------------
// Headers
// ---------------------------------------------------------------------------

/// `a` and `b` are equal in lower case.
pub open spec fn equal_folded(a: Seq<char>, b: Seq<char>) -> bool {
    a.len() == b.len() && forall|i: int|
        0 <= i < a.len() ==> folded(#[trigger] a[i]) == folded(b[i])
}

proof fn lemma_equal_folded(a: Seq<char>, b: Seq<char>)
    ensures
        equal_folded(a, b) <==> same_ignoring_case(a, b),
{
    assert forall|x: char, y: char| same_letter(x, y) <==> folded(x) == folded(y) by {
        lemma_folded(x, y);
    }
}

/// `line` is the name `name`, a colon and `value`, with white space around both.
pub open spec fn header(line: Seq<char>, name: Seq<char>, value: Seq<char>) -> bool {
    exists|a: Seq<char>, b: Seq<char>, c: Seq<char>, d: Seq<char>| #[trigger]
        spelled(line, name, value, a, b, c, d)
}

/// `line` is `name` and `value`, with a colon and this white space.
pub open spec fn spelled(
    line: Seq<char>,
    name: Seq<char>,
    value: Seq<char>,
    a: Seq<char>,
    b: Seq<char>,
    c: Seq<char>,
    d: Seq<char>,
) -> bool {
    &&& line == a + name + b + ":"@ + (c + value + d)
    &&& blank(a) && blank(b) && blank(c) && blank(d)
    &&& tight(name) && tight(value)
    &&& !name.contains(':')
}

/// `line` is an `Authorization` header with the value `value`.
pub open spec fn authorizes(line: Seq<char>, value: Seq<char>) -> bool {
    exists|name: Seq<char>| #[trigger]
        header(line, name, value) && equal_folded(name, "authorization"@)
}

proof fn lemma_split_at_char(a: Seq<char>, p: Seq<char>, b: Seq<char>)
    requires
        p.len() == 1,
        !a.contains(p[0]),
    ensures
        split_at_first(a + p + b, p) == Some((a, b)),
{
    let s = a + p + b;
    let n = a.len() as int;
    assert(s.subrange(n, n + 1) == p);
    assert forall|j: int| 0 <= j < n implies !#[trigger] occurs_at(s, p, j) by {
        assert(s.subrange(j, j + 1)[0] == a[j]);
    }
    lemma_find_is(s, p, 0, n);
    assert(s.take(n) == a);
    assert(s.skip(n + 1) == b);
}

/// The endpoint finds the value of an `Authorization` header in exactly the lines
/// that are one.
proof fn lemma_authorizes(line: Seq<char>, value: Seq<char>)
    ensures
        authorizes(line, value) <==> authorization_value(line) == Some(value),
{
    reveal_strlit(":");
    reveal_strlit("authorization");
    let colon = ":"@;
    if authorizes(line, value) {
        let name = choose|name: Seq<char>| #[trigger]
            header(line, name, value) && equal_folded(name, "authorization"@);
        let (a, b, c, d) = choose|a: Seq<char>, b: Seq<char>, c: Seq<char>, d: Seq<char>| #[trigger]
            spelled(line, name, value, a, b, c, d);
        let n = a + name + b;
        assert forall|i: int| 0 <= i < n.len() implies n[i] != ':' by {
            assert(!is_space(':'));
            if i < a.len() {
                assert(n[i] == a[i]);
            } else if i < a.len() + name.len() {
                assert(n[i] == name[i - a.len()]);
                assert(name.contains(name[i - a.len()]));
            } else {
                assert(n[i] == b[i - a.len() - name.len()]);
            }
        }
        lemma_split_at_char(n, colon, c + value + d);
        lemma_trimmed_middle(a, name, b);
        lemma_trimmed_middle(c, value, d);
        lemma_equal_folded(name, "authorization"@);
    }
    if authorization_value(line) == Some(value) {
        lemma_find(line, colon, 0);
        let k = find_from(line, colon, 0)->0;
        let n = line.take(k);
        let v = line.skip(k + 1);
        let (a, b) = lemma_trim_decomposes(n);
        let (c, d) = lemma_trim_decomposes(v);
        let name = trimmed(n);
        assert(line == n + colon + v) by {
            assert(line.subrange(k, k + 1) == colon);
            assert(line =~= line.take(k) + line.subrange(k, k + 1) + line.skip(k + 1));
        }
        assert(!name.contains(':')) by {
            if name.contains(':') {
                let i = choose|i: int| 0 <= i < name.len() && name[i] == ':';
                let j = a.len() + i;
                assert(n[j] == ':');
                assert(line.subrange(j, j + 1) == colon);
                assert(occurs_at(line, colon, j));
            }
        }
        assert(spelled(line, name, value, a, b, c, d));
        assert(header(line, name, value));
        lemma_equal_folded(name, "authorization"@);
    }
}

proof fn lemma_authorization_of(headers: Seq<Seq<char>>, i: int)
    requires
        0 <= i < headers.len(),
        authorization_value(headers[i]) is Some,
        forall|j: int| i < j < headers.len() ==> authorization_value(#[trigger] headers[j]) is None,
    ensures
        authorization_of(headers) == authorization_value(headers[i]),
    decreases headers.len(),
{
    if i < headers.len() - 1 {
        let t = headers.drop_last();
        assert(authorization_value(headers[headers.len() - 1]) is None);
        assert(t[i] == headers[i]);
        assert forall|j: int| i < j < t.len() implies authorization_value(
            #[trigger] t[j],
        ) is None by {
            assert(t[j] == headers[j]);
        }
        lemma_authorization_of(t, i);
    }
}

proof fn lemma_no_authorization(headers: Seq<Seq<char>>)
    requires
        forall|j: int|
            0 <= j < headers.len() ==> authorization_value(#[trigger] headers[j]) is None,
    ensures
        authorization_of(headers) is None,
    decreases headers.len(),
{
    if headers.len() > 0 {
        let t = headers.drop_last();
        assert(authorization_value(headers[headers.len() - 1]) is None);
        assert forall|j: int| 0 <= j < t.len() implies authorization_value(
            #[trigger] t[j],
        ) is None by {
            assert(t[j] == headers[j]);
        }
        lemma_no_authorization(t);
    }
}

/// `line` is no `Authorization` header.
pub open spec fn authorizes_nothing(line: Seq<char>) -> bool {
    forall|v: Seq<char>| !#[trigger] authorizes(line, v)
}

proof fn lemma_authorizes_nothing(line: Seq<char>)
    ensures
        authorizes_nothing(line) <==> authorization_value(line) is None,
{
    assert forall|v: Seq<char>| #[trigger] authorizes(line, v) <==> authorization_value(line)
        == Some(v) by {
        lemma_authorizes(line, v);
    }
    if authorization_value(line) is Some {
        assert(authorizes(line, authorization_value(line)->0));
    }
}

// ---------------------------------------------------------------------------
// Frames
// ---------------------------------------------------------------------------

/// A frame is split at its first empty line: after two CRLF or, if it has none,
/// after two line feeds; without an empty line it is all head.
pub proof fn law_head_ends_at_the_first_empty_line(raw: &str, h: &str, b: &str)
    requires
        call_ensures(split_head, (raw,), (h, b)),
    ensures
        ({
            let crlf = "\r\n\r\n"@;
            let lf = "\n\n"@;
            let n = h@.len() as int;
            ||| raw@ == h@ + crlf + b@ && forall|i: int|
                0 <= i < n ==> #[trigger] raw@.subrange(i, i + crlf.len()) != crlf
            ||| raw@ == h@ + lf + b@ && (forall|i: int|
                0 <= i < n ==> #[trigger] raw@.subrange(i, i + lf.len()) != lf) && forall|i: int|
                0 <= i <= raw@.len() - crlf.len() ==> #[trigger] raw@.subrange(i, i + crlf.len())
                    != crlf
            ||| raw@ == h@ && b@.len() == 0 && (forall|i: int|
                0 <= i <= raw@.len() - lf.len() ==> #[trigger] raw@.subrange(i, i + lf.len()) != lf)
                && forall|i: int|
                0 <= i <= raw@.len() - crlf.len() ==> #[trigger] raw@.subrange(i, i + crlf.len())
                    != crlf
        }),
{
    let crlf = "\r\n\r\n"@;
    let lf = "\n\n"@;
    lemma_find(raw@, crlf, 0);
    lemma_find(raw@, lf, 0);
    assert forall|i: int|
        0 <= i <= raw@.len() - crlf.len() && (find_from(raw@, crlf, 0) is None || i < find_from(
            raw@,
            crlf,
            0,
        )->0) implies #[trigger] raw@.subrange(i, i + crlf.len()) != crlf by {
        assert(!occurs_at(raw@, crlf, i));
    }
    assert forall|i: int|
        0 <= i <= raw@.len() - lf.len() && (find_from(raw@, lf, 0) is None || i < find_from(
            raw@,
            lf,
            0,
        )->0) implies #[trigger] raw@.subrange(i, i + lf.len()) != lf by {
        assert(!occurs_at(raw@, lf, i));
    }
    match find_from(raw@, crlf, 0) {
        Some(k) => {
            assert(raw@ =~= raw@.take(k) + raw@.subrange(k, k + crlf.len()) + raw@.skip(
                k + crlf.len(),
            ));
        },
        None => match find_from(raw@, lf, 0) {
            Some(k) => {
                assert(raw@ =~= raw@.take(k) + raw@.subrange(k, k + lf.len()) + raw@.skip(
                    k + lf.len(),
                ));
            },
            None => {},
        },
    }
}

/// A request is made of its frame: the method and the path are the first two
/// words of the first line, the body is what follows the head, and the
/// authorization is the value of the last `Authorization` header, wherever in the
/// head that stands and however it is spelled. A frame without two words in its
/// first line is no request.
pub proof fn law_request_is_made_of_its_frame(
    raw: &str,
    r: Option<ParsedRequest>,
    h: &str,
    b: &str,
    ls: Vec<&str>,
    ws: Vec<&str>,
    i: int,
    value: Seq<char>,
)
    requires
        call_ensures(parse_request, (raw,), r),
        call_ensures(split_head, (raw,), (h, b)),
        call_ensures(lines_of, (h,), ls),
        ls@.len() > 0 ==> call_ensures(words_of, (ls@[0],), ws),
    ensures
        r is Some <==> ls@.len() > 0 && ws@.len() >= 2,
        r matches Some(req) ==> {
            &&& req.method@ == ws@[0]@
            &&& req.path@ == ws@[1]@
            &&& req.body@ == b@
            &&& 1 <= i < ls@.len() && authorizes(ls@[i]@, value) && (forall|j: int|
                i < j < ls@.len() ==> authorizes_nothing((#[trigger] ls@[j])@))
                ==> req.authorization is Some && req.authorization->0@ == value
            &&& (forall|j: int|
                1 <= j < ls@.len() ==> authorizes_nothing((#[trigger] ls@[j])@))
                ==> req.authorization is None
        },
{
    let all = slices(ls@);
    assert(all.len() == ls@.len());
    if let Some(req) = r {
        let rest = all.drop_first();
        assert(all[0] == ls@[0]@);
        assert(slices(ws@).len() == ws@.len());
        assert(slices(ws@)[0] == ws@[0]@ && slices(ws@)[1] == ws@[1]@);
        assert forall|j: int| 0 <= j < rest.len() implies #[trigger] rest[j] == ls@[j + 1]@ by {
            assert(all[j + 1] == ls@[j + 1]@);
        }
        if 1 <= i < ls@.len() && authorizes(ls@[i]@, value) && (forall|j: int|
            i < j < ls@.len() ==> authorizes_nothing((#[trigger] ls@[j])@)) {
            lemma_authorizes(ls@[i]@, value);
            assert(rest[i - 1] == ls@[i]@);
            assert forall|j: int| i - 1 < j < rest.len() implies authorization_value(
                #[trigger] rest[j],
            ) is None by {
                assert(authorizes_nothing(ls@[j + 1]@));
                lemma_authorizes_nothing(ls@[j + 1]@);
            }
            lemma_authorization_of(rest, i - 1);
        }
        if forall|j: int| 1 <= j < ls@.len() ==> authorizes_nothing((#[trigger] ls@[j])@) {
            assert forall|j: int| 0 <= j < rest.len() implies authorization_value(
                #[trigger] rest[j],
            ) is None by {
                assert(authorizes_nothing(ls@[j + 1]@));
                lemma_authorizes_nothing(ls@[j + 1]@);
            }
            lemma_no_authorization(rest);
        }
    }
    if ls@.len() > 0 {
        assert(all[0] == ls@[0]@);
        assert(slices(ws@).len() == ws@.len());
    }
}

/// A request that was not read from a frame is empty.
pub proof fn law_default_request_is_empty(req: ParsedRequest)
    requires
        call_ensures(ParsedRequest::default, (), req),
    ensures
        req.method@.len() == 0,
        req.path@.len() == 0,
        req.authorization is None,
        req.body@.len() == 0,
{
}

/// The frame of a message ends each head line with CRLF and sets the body apart
/// by an empty line.
pub proof fn law_message_sets_lines_apart(l: Seq<char>, rest: Seq<Seq<char>>, body: Seq<char>)
    ensures
        message(seq![l], body) == l + "\r\n\r\n"@ + body,
        rest.len() > 0 ==> message(seq![l] + rest, body) == l + "\r\n"@ + message(rest, body),
{
    let ls = seq![l] + rest;
    if rest.len() > 0 {
        assert(ls.drop_first() == rest);
        assert(ls[0] == l);
        assert(l + "\r\n"@ + joined(rest) + "\r\n\r\n"@ + body == l + "\r\n"@ + (joined(rest)
            + "\r\n\r\n"@ + body));
    }
}

/// Whatever method, path and body a frame is made of, and wherever its
/// `Authorization` header stands, the request has them.
pub proof fn law_frame_is_parsed_back(
    method: Seq<char>,
    path: Seq<char>,
    version: Seq<char>,
    before: Seq<Seq<char>>,
    line: Seq<char>,
    value: Seq<char>,
    after: Seq<Seq<char>>,
    body: Seq<char>,
    raw: &str,
    r: Option<ParsedRequest>,
)
    requires
        call_ensures(parse_request, (raw,), r),
        method.len() > 0 && forall|i: int|
            0 <= i < method.len() ==> !is_space(#[trigger] method[i]),
        path.len() > 0 && forall|i: int| 0 <= i < path.len() ==> !is_space(#[trigger] path[i]),
        version.len() > 0 && forall|i: int|
            0 <= i < version.len() ==> !is_space(#[trigger] version[i]),
        forall|i: int| 0 <= i < before.len() ==> head_line(#[trigger] before[i]),
        head_line(line),
        authorizes(line, value),
        forall|i: int|
            0 <= i < after.len() ==> head_line(#[trigger] after[i]) && authorizes_nothing(after[i]),
        raw@ == message(
            seq![method + " "@ + path + " "@ + version] + (before + seq![line] + after),
            body,
        ),
    ensures
        r is Some,
        r->0.method@ == method,
        r->0.path@ == path,
        r->0.body@ == body,
        r->0.authorization is Some,
        r->0.authorization->0@ == value,
{
    let headers = before + seq![line] + after;
    let n = before.len() as int;
    assert forall|i: int| 0 <= i < headers.len() implies head_line(#[trigger] headers[i]) by {
        if i < n {
            assert(headers[i] == before[i]);
        } else if i > n {
            assert(headers[i] == after[i - n - 1]);
        }
    }
    law_frame_parses(method, path, version, headers, body);
    lemma_authorizes(line, value);
    assert(headers[n] == line);
    assert forall|j: int| n < j < headers.len() implies authorization_value(
        #[trigger] headers[j],
    ) is None by {
        assert(headers[j] == after[j - n - 1]);
        lemma_authorizes_nothing(after[j - n - 1]);
    }
    lemma_authorization_of(headers, n);
}

// ---------------------------------------------------------------------------
// Authorization
// ---------------------------------------------------------------------------

/// The token of a bearer credential is what follows the scheme, without the white
/// space around it, however the scheme is spelled; any other scheme, a credential
/// of one word and none at all have no token.
pub proof fn law_bearer_token_follows_the_scheme(
    authorization: Option<&str>,
    r: Option<&str>,
    a: Seq<char>,
    scheme: Seq<char>,
    gap: Seq<char>,
    token: Seq<char>,
    b: Seq<char>,
)
    requires
        call_ensures(bearer_token, (authorization,), r),
        blank(a),
        blank(gap),
        blank(b),
        scheme.len() > 0,
        !is_space(scheme[0]),
        !scheme.contains(' '),
        token.len() > 0,
        tight(token),
    ensures
        authorization is None ==> r is None,
        authorization matches Some(v) ==> {
            &&& v@ == a + (scheme + " "@ + (gap + token)) + b && equal_folded(scheme, "bearer"@)
                ==> r is Some && r->0@ == token
            &&& v@ == a + (scheme + " "@ + (gap + token)) + b && !equal_folded(scheme, "bearer"@)
                ==> r is None
            &&& v@ == a + scheme + b && tight(scheme) ==> r is None
            &&& blank(v@) ==> r is None
        },
{
    reveal_strlit(" ");
    reveal_strlit("bearer");
    let space = " "@;
    let whole = scheme + space + (gap + token);
    assert(whole[0] == scheme[0]);
    assert(whole.last() == token.last());
    lemma_trimmed_middle(a, whole, b);
    if tight(scheme) {
        lemma_trimmed_middle(a, scheme, b);
    }
    lemma_split_at_char(scheme, space, gap + token);
    assert(gap + token + Seq::<char>::empty() == gap + token);
    lemma_trimmed_middle(gap, token, Seq::empty());
    lemma_equal_folded(scheme, "bearer"@);
    lemma_find(scheme, space, 0);
    assert forall|j: int| !#[trigger] occurs_at(scheme, space, j) by {
        if occurs_at(scheme, space, j) {
            assert(scheme.subrange(j, j + 1)[0] == scheme[j]);
        }
    }
    if let Some(v) = authorization {
        if blank(v@) {
            crate::text::lemma_trimmed(v@);
            lemma_find(trimmed(v@), space, 0);
        }
    }
}

/// The authorized-keys capability is what its file holds, without the white space
/// around it; a blank file and none give none.
pub proof fn law_authkeys_cap_is_trimmed(
    contents: Option<&str>,
    r: Option<String>,
    a: Seq<char>,
    m: Seq<char>,
    b: Seq<char>,
)
    requires
        call_ensures(read_authkeys_cap, (contents,), r),
        contents matches Some(s) ==> s@ == a + m + b && blank(a) && blank(b) && tight(m),
    ensures
        r is Some <==> contents is Some && m.len() > 0,
        r is Some ==> r->0@ == m,
{
    if contents is Some {
        lemma_trimmed_middle(a, m, b);
    }
}

// ---------------------------------------------------------------------------
// Adding a key
// ---------------------------------------------------------------------------

/// The two members of the body that can hold a key are read under their names, if
/// the body is a JSON document, white space around it aside.
pub proof fn law_key_members_are_read(
    body: &str,
    r: KeyBody,
    a: Seq<char>,
    m: Seq<char>,
    b: Seq<char>,
)
    requires
        call_ensures(read_key_body, (body,), r),
        body@ == a + m + b,
        blank(a),
        blank(b),
        tight(m),
    ensures
        json_document(m) is None <==> r is Malformed,
        json_document(m) matches Some(Json::Object(o)) ==> member_read(
            o,
            "public_key"@,
            r->public_key,
        ) && member_read(o, "pubkey"@, r->pubkey),
        json_document(m) is Some && !(json_document(m)->0 is Object) ==> r->public_key is Absent
            && r->pubkey is Absent,
{
    lemma_trimmed_middle(a, m, b);
}

/// The submitted key is the `public_key`, and only without such a member the
/// `pubkey`; a member that is no text or an empty one submits nothing.
pub proof fn law_public_key_comes_first(body: &KeyBody, r: Result<&str, HttpOutcome>)
    requires
        call_ensures(submitted_key, (body,), r),
    ensures
        match *body {
            KeyBody::Malformed => r is Err && r->Err_0.status == 400 && r->Err_0.body@
                == "bad json body"@,
            KeyBody::Members { public_key, pubkey } => {
                &&& public_key matches Member::Text(k) ==> {
                    &&& k@.len() > 0 ==> r is Ok && r->Ok_0@ == k@
                    &&& k@.len() == 0 ==> r is Err
                }
                &&& public_key is Other ==> r is Err
                &&& public_key is Absent ==> {
                    &&& pubkey matches Member::Text(k) ==> {
                        &&& k@.len() > 0 ==> r is Ok && r->Ok_0@ == k@
                        &&& k@.len() == 0 ==> r is Err
                    }
                    &&& !(pubkey is Text) ==> r is Err
                }
                &&& r is Err ==> r->Err_0.status == 400 && r->Err_0.body@ == "missing public_key"@
            },
        },
{
}

/// `o` is the answer to a key that was appended, or could not be: the caller's
/// fault if the key was invalid.
pub open spec fn answers_append(o: HttpOutcome, appended: Result<(), CodeError>) -> bool {
    &&& appended is Ok ==> o.status == 200 && o.body@ == "ok"@
    &&& appended matches Err(e) ==> o.body@ == e.message@ && o.status == if e.code
        == CodeErrorCode::Invalid {
        400u16
    } else {
        500u16
    }
}

/// An appended key is answered with success, an invalid one is the caller's fault
/// and any other failure is not.
pub proof fn law_append_is_answered(appended: Result<(), CodeError>, o: HttpOutcome)
    requires
        call_ensures(key_outcome, (appended,), o),
    ensures
        answers_append(o, appended),
{
}

/// A request to add a key is let in exactly if it has the path and the method of
/// one and its bearer token is the held capability; otherwise it is turned away,
/// whatever it carries. Once it is let in, the submitted key is handed over and
/// the answer is what came of that.
pub proof fn law_only_the_holder_adds_a_key<F: FnOnce(&str) -> Result<(), CodeError>>(
    held: Option<&str>,
    req: &ParsedRequest,
    add_key: F,
    r: HttpOutcome,
    authorization: Option<&str>,
    token: Option<&str>,
    text: &str,
    body: KeyBody,
    submitted: Result<&str, HttpOutcome>,
)
    requires
        call_ensures(handle_add_key::<F>, (held, req, add_key), r),
        same_option(authorization, req.authorization),
        call_ensures(bearer_token, (authorization,), token),
        text@ == req.body@,
        call_ensures(read_key_body, (text,), body),
        call_ensures(submitted_key, (&body,), submitted),
    ensures
        req.path@ != "/v1/authorized-keys"@ ==> r.status == 404 && r.body@ == "not found"@,
        req.path@ == "/v1/authorized-keys"@ && req.method@ != "POST"@ ==> r.status == 405 && r.body@
            == "method not allowed"@,
        req.path@ == "/v1/authorized-keys"@ && req.method@ == "POST"@ ==> {
            let holder = held is Some && token is Some && held->0@ == token->0@;
            &&& !holder ==> r.status == 401 && r.body@ == "unauthorized"@
            &&& holder ==> match submitted {
                Err(o) => r.status == o.status && r.body@ == o.body@,
                Ok(key) => exists|k: &str, appended: Result<(), CodeError>|
                    k@ == key@ && #[trigger] call_ensures(add_key, (k,), appended)
                        && answers_append(r, appended),
            }
        },
{
}

/// Checking alone lets in the same requests, and answers with success exactly if
/// the submitted key is a valid one.
pub proof fn law_check_answers_like_adding(
    held: Option<&str>,
    req: &ParsedRequest,
    r: HttpOutcome,
    authorization: Option<&str>,
    token: Option<&str>,
    text: &str,
    body: KeyBody,
    submitted: Result<&str, HttpOutcome>,
    valid: Result<&str, CodeError>,
)
    requires
        call_ensures(check_add_key, (held, req), r),
        same_option(authorization, req.authorization),
        call_ensures(bearer_token, (authorization,), token),
        text@ == req.body@,
        call_ensures(read_key_body, (text,), body),
        call_ensures(submitted_key, (&body,), submitted),
        submitted is Ok ==> call_ensures(validated_key, (submitted->Ok_0,), valid),
    ensures
        req.path@ != "/v1/authorized-keys"@ ==> r.status == 404 && r.body@ == "not found"@,
        req.path@ == "/v1/authorized-keys"@ && req.method@ != "POST"@ ==> r.status == 405 && r.body@
            == "method not allowed"@,
        req.path@ == "/v1/authorized-keys"@ && req.method@ == "POST"@ ==> {
            let holder = held is Some && token is Some && held->0@ == token->0@;
            &&& !holder ==> r.status == 401 && r.body@ == "unauthorized"@
            &&& holder ==> match submitted {
                Err(o) => r.status == o.status && r.body@ == o.body@,
                Ok(_) => match valid {
                    Ok(_) => r.status == 200 && r.body@ == "ok"@,
                    Err(e) => r.status == 400 && r.body@ == e.message@,
                },
            }
        },
{
}

// ---------------------------------------------------------------------------
// Dropping every credential
// ---------------------------------------------------------------------------

/// A file is removed exactly if it holds a capability URL by its name, or is one
/// of the two other credential files, which are removed in any case.
pub proof fn law_every_cred_file_is_removed(listing: &Vec<String>, r: Vec<String>, n: Seq<char>)
    requires
        call_ensures(remove_cred_files, (listing,), r),
    ensures
        (exists|i: int| 0 <= i < r@.len() && (#[trigger] r@[i])@ == n) <==> n == "authkeys.cap"@
            || n == "forge-admin.token"@ || ((exists|i: int|
            0 <= i < listing@.len() && (#[trigger] listing@[i])@ == n) && exists|stem: Seq<char>|
            n == #[trigger] (stem + ".url"@)),
        r@.len() >= 2,
        r@[r@.len() - 2]@ == "authkeys.cap"@,
        r@[r@.len() - 1]@ == "forge-admin.token"@,
{
    let t = texts(r@);
    let l = texts(listing@);
    lemma_texts(r@, t);
    lemma_texts(listing@, l);
    lemma_cred_files(l, n);
    assert((exists|i: int| 0 <= i < r@.len() && (#[trigger] r@[i])@ == n) <==> t.contains(n)) by {
        if t.contains(n) {
            let i = choose|i: int| 0 <= i < t.len() && t[i] == n;
            assert(r@[i]@ == n);
        }
        if exists|i: int| 0 <= i < r@.len() && (#[trigger] r@[i])@ == n {
            let i = choose|i: int| 0 <= i < r@.len() && (#[trigger] r@[i])@ == n;
            assert(t[i] == n);
        }
    }
    assert((exists|i: int| 0 <= i < listing@.len() && (#[trigger] listing@[i])@ == n)
        <==> l.contains(n)) by {
        if l.contains(n) {
            let i = choose|i: int| 0 <= i < l.len() && l[i] == n;
            assert(listing@[i]@ == n);
        }
        if exists|i: int| 0 <= i < listing@.len() && (#[trigger] listing@[i])@ == n {
            let i = choose|i: int| 0 <= i < listing@.len() && (#[trigger] listing@[i])@ == n;
            assert(l[i] == n);
        }
    }
    let e = ".url"@;
    assert((exists|stem: Seq<char>| n == #[trigger] (stem + e)) <==> ends_with(n, e)) by {
        if ends_with(n, e) {
            let stem = n.take(n.len() - e.len());
            assert(n == stem + e);
        }
        if exists|stem: Seq<char>| n == #[trigger] (stem + e) {
            let stem = choose|stem: Seq<char>| n == #[trigger] (stem + e);
            assert(n.skip(n.len() - e.len()) == e);
        }
    }
    let k = l.filter(|x: Seq<char>| ends_with(x, ".url"@)).len() as int;
    assert(t.len() == k + 2);
    assert(t[k] == "authkeys.cap"@);
    assert(t[k + 1] == "forge-admin.token"@);
}

/// The files are removed in the order of the listing: those of a listing that is
/// put together of two are those of the first and then those of the second.
pub proof fn law_cred_files_keep_their_order(
    first: &Vec<String>,
    second: &Vec<String>,
    both: &Vec<String>,
    first_r: Vec<String>,
    second_r: Vec<String>,
    both_r: Vec<String>,
)
    requires
        both@ == first@ + second@,
        call_ensures(remove_cred_files, (first,), first_r),
        call_ensures(remove_cred_files, (second,), second_r),
        call_ensures(remove_cred_files, (both,), both_r),
    ensures
        both_r@.len() + 2 == first_r@.len() + second_r@.len(),
        forall|i: int|
            0 <= i < both_r@.len() ==> (#[trigger] both_r@[i])@ == if i < first_r@.len() - 2 {
                first_r@[i]@
            } else {
                second_r@[i - (first_r@.len() - 2)]@
            },
{
    let p = |x: Seq<char>| ends_with(x, ".url"@);
    let a = texts(first@);
    let b = texts(second@);
    assert(texts(both@) == a + b);
    Seq::filter_distributes_over_add(a, b, p);
    let fa = a.filter(p);
    let fb = b.filter(p);
    let ends = seq!["authkeys.cap"@, "forge-admin.token"@];
    lemma_texts(first_r@, fa + ends);
    lemma_texts(second_r@, fb + ends);
    lemma_texts(both_r@, fa + fb + ends);
}

/// Each name of a listing is taken once at most.
pub proof fn law_cred_files_are_taken_once(listing: &Vec<String>, r: Vec<String>)
    requires
        call_ensures(remove_cred_files, (listing,), r),
    ensures
        listing@.len() == 0 ==> r@.len() == 2,
        r@.len() <= listing@.len() + 2,
{
    let l = texts(listing@);
    let p = |x: Seq<char>| ends_with(x, ".url"@);
    lemma_texts(r@, texts(r@));
    assert(l.len() == listing@.len());
    l.lemma_filter_len(p);
}

/// A request to drop every credential drops them, removes their files and is
/// answered with success; by any other path or method nothing is touched.
pub proof fn law_scrub_request_drops_everything(
    creds: &mut Creds,
    req: &ParsedRequest,
    listing: &Vec<String>,
    r: Scrub,
    files: Vec<String>,
    repo: &str,
    url: Option<&str>,
    token: Option<&str>,
    owner: Option<&ForgeOwnerCreds>,
    url_after: Option<&str>,
    token_after: Option<&str>,
    owner_after: Option<&ForgeOwnerCreds>,
)
    requires
        call_ensures(Creds::git_cap_url, (&*old(creds), repo), url),
        call_ensures(Creds::forge_admin_token, (&*old(creds),), token),
        call_ensures(Creds::forge_owner, (&*old(creds),), owner),
        call_ensures(handle_scrub, (creds, req, listing), r),
        call_ensures(remove_cred_files, (listing,), files),
        call_ensures(Creds::git_cap_url, (&*final(creds), repo), url_after),
        call_ensures(Creds::forge_admin_token, (&*final(creds),), token_after),
        call_ensures(Creds::forge_owner, (&*final(creds),), owner_after),
    ensures
        req.path@ == "/v1/pre-snapshot-scrub"@ && req.method@ == "POST"@ ==> {
            &&& r.outcome.status == 200 && r.outcome.body@ == "ok"@
            &&& r.remove@.len() == files@.len()
            &&& forall|i: int| 0 <= i < files@.len() ==> (#[trigger] files@[i])@ == r.remove@[i]@
            &&& url_after is None && token_after is None && owner_after is None
            &&& url matches Some(u) ==> some_zeroed(r.wiped@, u@)
            &&& token matches Some(t) ==> some_zeroed(r.wiped@, t@)
            &&& owner matches Some(o) ==> some_zeroed(r.wiped@, o.owner_user@) && some_zeroed(
                r.wiped@,
                o.owner_password@,
            ) && some_zeroed(r.wiped@, o.admin_token@)
        },
        req.path@ != "/v1/pre-snapshot-scrub"@ ==> r.outcome.status == 404 && r.outcome.body@
            == "not found"@,
        req.path@ == "/v1/pre-snapshot-scrub"@ && req.method@ != "POST"@ ==> r.outcome.status == 405
            && r.outcome.body@ == "method not allowed"@,
        req.path@ != "/v1/pre-snapshot-scrub"@ || req.method@ != "POST"@ ==> {
            &&& r.remove@.len() == 0 && r.wiped@.len() == 0
            &&& url is Some == url_after is Some
            &&& url is Some ==> url->0@ == url_after->0@
            &&& token is Some == token_after is Some
            &&& token is Some ==> token->0@ == token_after->0@
            &&& owner is Some == owner_after is Some
            &&& owner is Some ==> owner->0@ == owner_after->0@
        },
{
    lemma_texts(files@, texts(files@));
    lemma_texts(r.remove@, texts(r.remove@));
    if req.path@ == "/v1/pre-snapshot-scrub"@ && req.method@ == "POST"@ {
        let all = old(creds).secrets();
        if let Some(u) = url {
            assert(old(creds)@.caps.contains_key(repo@));
            let k = choose|k: int| 0 <= k < all.len() && all[k] == u@;
            assert(crate::laws::creds::zeroed(r.wiped@[k], u@));
        }
        if let Some(t) = token {
            let k = choose|k: int| 0 <= k < all.len() && all[k] == t@;
            assert(crate::laws::creds::zeroed(r.wiped@[k], t@));
        }
        if let Some(o) = owner {
            let k = choose|k: int| 0 <= k < all.len() && all[k] == o.owner_user@;
            assert(crate::laws::creds::zeroed(r.wiped@[k], o.owner_user@));
            let k = choose|k: int| 0 <= k < all.len() && all[k] == o.owner_password@;
            assert(crate::laws::creds::zeroed(r.wiped@[k], o.owner_password@));
            let k = choose|k: int| 0 <= k < all.len() && all[k] == o.admin_token@;
            assert(crate::laws::creds::zeroed(r.wiped@[k], o.admin_token@));
        }
    }
}

// ---------------------------------------------------------------------------
// Routing, reading and answering
// ---------------------------------------------------------------------------

/// `q` is the request `req`.
pub open spec fn same_request(q: ParsedRequest, req: ParsedRequest) -> bool {
    &&& q.method@ == req.method@
    &&& q.path@ == req.path@
    &&& q.body@ == req.body@
    &&& q.authorization is Some == req.authorization is Some
    &&& req.authorization is Some ==> q.authorization->0@ == req.authorization->0@
}

/// `route` is where the request `parsed` goes.
pub open spec fn routed(parsed: Option<ParsedRequest>, route: Route) -> bool {
    match parsed {
        None => route is Answered && route->Answered_0.status == 400 && route->Answered_0.body@
            == "malformed request"@,
        Some(req) => if req.path@ == "/v1/pre-snapshot-scrub"@ {
            route is Scrub && same_request(route->Scrub_0, req)
        } else {
            route is AddKey && same_request(route->AddKey_0, req)
        },
    }
}

/// A frame goes where the path of its request leads, with the request unchanged,
/// and is answered at once if it is none. The frame of bytes is their text.
pub proof fn law_path_decides_on_the_route(
    raw: &str,
    parsed: Option<ParsedRequest>,
    route: Route,
    buf: &[u8],
    of_bytes: Route,
)
    requires
        call_ensures(parse_request, (raw,), parsed),
        call_ensures(route_frame, (raw,), route),
        call_ensures(route_bytes, (buf,), of_bytes),
    ensures
        routed(parsed, route),
        lossy_text(buf@) == raw@ ==> routed(parsed, of_bytes),
        valid_utf8(buf@) ==> lossy_text(buf@) == decode_utf8(buf@),
{
}

/// The boundary is the position behind the first two CRLF or, without any, behind
/// the first two line feeds.
pub proof fn law_boundary_is_behind_the_empty_line(buf: &[u8], r: Option<usize>)
    requires
        call_ensures(find_body_boundary, (buf,), r),
    ensures
        ({
            let crlf = seq![13u8, 10, 13, 10];
            let lf = seq![10u8, 10];
            let b = buf@;
            match r {
                Some(k) => {
                    ||| 4 <= k <= b.len() && b.subrange(k - 4, k as int) == crlf && forall|i: int|
                        0 <= i < k - 4 ==> #[trigger] b.subrange(i, i + 4) != crlf
                    ||| 2 <= k <= b.len() && b.subrange(k - 2, k as int) == lf && (forall|i: int|
                        0 <= i < k - 2 ==> #[trigger] b.subrange(i, i + 2) != lf) && forall|i: int|
                        0 <= i <= b.len() - 4 ==> #[trigger] b.subrange(i, i + 4) != crlf
                },
                None => (forall|i: int|
                    0 <= i <= b.len() - 2 ==> #[trigger] b.subrange(i, i + 2) != lf)
                    && forall|i: int|
                    0 <= i <= b.len() - 4 ==> #[trigger] b.subrange(i, i + 4) != crlf,
            }
        }),
{
    let crlf = seq![13u8, 10, 13, 10];
    let lf = seq![10u8, 10];
    let b = buf@;
    lemma_find(b, crlf, 0);
    lemma_find(b, lf, 0);
    assert forall|i: int|
        0 <= i <= b.len() - 4 && (find_from(b, crlf, 0) is None || i < find_from(b, crlf, 0)->0)
        implies #[trigger] b.subrange(i, i + 4) != crlf by {
        assert(!occurs_at(b, crlf, i));
    }
    assert forall|i: int|
        0 <= i <= b.len() - 2 && (find_from(b, lf, 0) is None || i < find_from(b, lf, 0)->0)
        implies #[trigger] b.subrange(i, i + 2) != lf by {
        assert(!occurs_at(b, lf, i));
    }
}

/// One read takes at most a chunk and never more than the buffer still has room
/// for.
pub proof fn law_reads_fit_the_buffer(buf: &Vec<u8>, r: usize)
    requires
        call_ensures(room, (buf,), r),
    ensures
        r <= 1024,
        buf@.len() <= 16384 ==> buf@.len() + r <= 16384,
        buf@.len() <= 15360 ==> r == 1024,
        15360 < buf@.len() <= 16384 ==> r == 16384 - buf@.len(),
        buf@.len() > 16384 ==> r == 0,
{
}

/// Bytes that were read go behind those that were there, up to the limit, and no
/// byte that was there is lost. A read without bytes ends the frame, and so does a
/// full buffer; a frame whose head is complete is waited for once more, briefly;
/// any other frame is read on.
pub proof fn law_reads_are_kept(
    buf: &mut Vec<u8>,
    asked: NextRead,
    event: ReadEvent,
    r: NextRead,
    all: &[u8],
    boundary: Option<usize>,
)
    requires
        call_ensures(take_read, (buf, asked, event), r),
        all@ == final(buf)@,
        call_ensures(find_body_boundary, (all,), boundary),
    ensures
        event matches ReadEvent::Bytes(b) ==> {
            &&& old(buf)@.len() + b@.len() <= 16384 ==> final(buf)@ == old(buf)@ + b@
            &&& old(buf)@.len() < 16384 < old(buf)@.len() + b@.len() ==> final(buf)@.len() == 16384
                && final(buf)@ == old(buf)@ + b@.take(16384 - old(buf)@.len())
            &&& old(buf)@.len() >= 16384 ==> final(buf)@ == old(buf)@
            &&& b@.len() == 0 ==> r == NextRead::Done
            &&& b@.len() > 0 && final(buf)@.len() < 16384 ==> r == if asked == NextRead::Wait
                && boundary is Some {
                NextRead::WaitBriefly
            } else {
                NextRead::Wait
            }
        },
        event is TimedOut ==> final(buf)@ == old(buf)@ && r == NextRead::Done,
        final(buf)@.len() >= 16384 ==> r == NextRead::Done,
{
    if let ReadEvent::Bytes(b) = event {
        if old(buf)@.len() < 16384 < old(buf)@.len() + b@.len() {
            assert((old(buf)@ + b@).take(16384) == old(buf)@ + b@.take(16384 - old(buf)@.len()));
        }
    } else {
        assert(old(buf)@ + Seq::<u8>::empty() == old(buf)@);
    }
}

/// Each status of the endpoint has its reason phrase; every other one is a
/// failure of the server.
pub proof fn law_status_has_its_reason(status: u16, r: &'static str)
    requires
        call_ensures(reason, (status,), r),
    ensures
        status == 200 ==> r@ == "OK"@,
        status == 400 ==> r@ == "Bad Request"@,
        status == 401 ==> r@ == "Unauthorized"@,
        status == 404 ==> r@ == "Not Found"@,
        status == 405 ==> r@ == "Method Not Allowed"@,
        status != 200 && status != 400 && status != 401 && status != 404 && status != 405 ==> r@
            == "Internal Server Error"@,
{
}

/// An answer as it is sent: its status and reason, that it is plain text, how many
/// bytes the body has, that the connection ends with it, and the body.
pub proof fn law_answer_is_sent_whole(
    o: &HttpOutcome,
    r: String,
    status: u64,
    code: String,
    phrase: &'static str,
    n: u64,
    length: String,
)
    requires
        call_ensures(response, (o,), r),
        call_ensures(decimal_of, (status,), code),
        call_ensures(reason, (o.status,), phrase),
        call_ensures(decimal_of, (n,), length),
        status == o.status,
        n == encode_utf8(o.body@).len(),
    ensures
        r@ == "HTTP/1.1 "@ + code@ + " "@ + phrase@ + "\r\n"@ + "content-type: text/plain"@
            + "\r\n"@ + "content-length: "@ + length@ + "\r\n"@ + "connection: close"@
            + "\r\n\r\n"@ + o.body@,
{
    let l0 = "HTTP/1.1 "@ + code@ + " "@ + phrase@;
    let l1 = "content-type: text/plain"@;
    let l2 = "content-length: "@ + length@;
    let l3 = "connection: close"@;
    law_message_sets_lines_apart(l3, seq![], o.body@);
    law_message_sets_lines_apart(l2, seq![l3], o.body@);
    law_message_sets_lines_apart(l1, seq![l2, l3], o.body@);
    law_message_sets_lines_apart(l0, seq![l1, l2, l3], o.body@);
    assert(seq![l2] + seq![l3] == seq![l2, l3]);
    assert(seq![l1] + seq![l2, l3] == seq![l1, l2, l3]);
    assert(seq![l0] + seq![l1, l2, l3] == seq![l0, l1, l2, l3]);
    assert(r@ == message(seq![l0, l1, l2, l3], o.body@));
}

/// An outcome has the status and the text that it was made with.
pub proof fn law_outcome_says_what_it_was_made_with(status: u16, body: &str, o: HttpOutcome)
    requires
        call_ensures(HttpOutcome::new, (status, body), o),
    ensures
        o.status == status,
        o.body@ == body@,
{
}

} // verus!
