//! What holds of the control endpoint as a whole: who is let in, what a frame is
//! parsed into, and what a scrub leaves behind.

use vstd::prelude::*;
use vstd::string::*;
use vstd::utf8::*;

use crate::creds::{filled, loaded, CapFile, CredsView, OwnerView};
use crate::frame::{
    head_and_body, head_line, joined, law_message_splits, lemma_three_words, message,
};
use crate::http_ctrl::{
    admitted, authorization_of, authorization_value, authorized, bearer, cred_files, parsed,
    reason_phrase, response_head, turned_away, HttpOutcome, RequestView,
};
use crate::lines::lines;
use crate::reading::{brought, buffered, room_for, MAX_REQUEST_BYTES, ReadEvent};
use crate::search::{ends_with, lemma_find_is, occurs_at};
use crate::text::{
    decimal, is_space, lemma_decimal, lemma_trimmed, lemma_trimmed_after, lemma_trimmed_is,
    same_letter, trimmed,
};

verus! {

/// Without a held capability every request to add a key is refused, whatever it
/// presents.
pub proof fn law_no_cap_fails_closed(req: RequestView, o: HttpOutcome)
    requires
        req.path == "/v1/authorized-keys"@,
        req.method == "POST"@,
        turned_away(None, req, o),
    ensures
        !admitted(None, req),
        o.says(401, "unauthorized"@),
{
}

/// One request can present at most one capability: it is authorized for none but
/// exactly that one.
pub proof fn law_token_matches_one_cap(a: Seq<char>, b: Seq<char>, req: RequestView)
    requires
        authorized(Some(a), req),
    ensures
        authorized(Some(b), req) <==> a == b,
{
}

/// A capability that is read from its file is neither empty nor surrounded by
/// white space, so presenting it as a bearer token gives it back.
pub proof fn law_bearer_gives_the_cap_back(contents: Seq<char>)
    requires
        filled(Some(contents)) is Some,
    ensures
        bearer(Some("Bearer "@ + filled(Some(contents))->0)) == filled(Some(contents)),
{
    let cap = filled(Some(contents))->0;
    lemma_trimmed(contents);
    lemma_bearer(cap);
}

proof fn lemma_bearer(cap: Seq<char>)
    requires
        cap.len() > 0,
        !is_space(cap[0]),
        !is_space(cap.last()),
    ensures
        trimmed("Bearer "@ + cap) == "Bearer "@ + cap,
        bearer(Some("Bearer "@ + cap)) == Some(cap),
{
    reveal_strlit("Bearer ");
    reveal_strlit("bearer");
    reveal_strlit(" ");
    let s = "Bearer "@ + cap;
    assert(s[0] == 'B');
    assert(s.last() == cap.last());
    lemma_trimmed_is(s);
    assert(s.subrange(6, 7) == " "@);
    assert forall|j: int| 0 <= j < 6 implies !#[trigger] occurs_at(s, " "@, j) by {
        assert(s.subrange(j, j + 1)[0] == "Bearer "@[j]);
        assert("Bearer "@[j] != ' ');
    }
    lemma_find_is(s, " "@, 0, 6);
    assert(s.skip(7) == cap);
    lemma_trimmed_is(cap);
    let scheme = s.take(6);
    assert forall|i: int| 0 <= i < 6 implies same_letter(#[trigger] scheme[i], "bearer"@[i]) by {
        assert(scheme[i] == "Bearer "@[i]);
    }
}

proof fn lemma_authorization_header(cap: Seq<char>)
    requires
        cap.len() > 0,
        !is_space(cap[0]),
        !is_space(cap.last()),
    ensures
        authorization_value("authorization: Bearer "@ + cap) == Some("Bearer "@ + cap),
{
    reveal_strlit("authorization: Bearer ");
    reveal_strlit("authorization");
    reveal_strlit("Bearer ");
    reveal_strlit(":");
    let name = "authorization"@;
    let s = "authorization: Bearer "@ + cap;
    assert(s.subrange(13, 14) == ":"@);
    assert forall|j: int| 0 <= j < 13 implies !#[trigger] occurs_at(s, ":"@, j) by {
        assert(s.subrange(j, j + 1)[0] == name[j]);
        assert(name[j] != ':');
    }
    lemma_find_is(s, ":"@, 0, 13);
    assert(s.take(13) == name);
    lemma_trimmed_is(name);
    let value = s.skip(14);
    let u = seq![' '];
    assert(value == u + ("Bearer "@ + cap));
    lemma_bearer(cap);
    lemma_trimmed_after(u, "Bearer "@ + cap);
}

/// Head lines that are no `Authorization` headers do not change the value.
proof fn lemma_authorization_stays(headers: Seq<Seq<char>>, after: Seq<Seq<char>>)
    requires
        forall|i: int| 0 <= i < after.len() ==> authorization_value(#[trigger] after[i]) is None,
    ensures
        authorization_of(headers + after) == authorization_of(headers),
    decreases after.len(),
{
    if after.len() == 0 {
        assert(headers + after == headers);
    } else {
        assert((headers + after).last() == after.last());
        assert((headers + after).drop_last() == headers + after.drop_last());
        lemma_authorization_stays(headers, after.drop_last());
    }
}

/// A frame is parsed into the method, the path, the `Authorization` header and
/// the body that it was made of.
pub proof fn law_frame_parses(
    method: Seq<char>,
    path: Seq<char>,
    version: Seq<char>,
    headers: Seq<Seq<char>>,
    body: Seq<char>,
)
    requires
        method.len() > 0 && forall|i: int|
            0 <= i < method.len() ==> !is_space(#[trigger] method[i]),
        path.len() > 0 && forall|i: int| 0 <= i < path.len() ==> !is_space(#[trigger] path[i]),
        version.len() > 0 && forall|i: int|
            0 <= i < version.len() ==> !is_space(#[trigger] version[i]),
        forall|i: int| 0 <= i < headers.len() ==> head_line(#[trigger] headers[i]),
    ensures
        parsed(message(seq![method + " "@ + path + " "@ + version] + headers, body)) == Some(
            RequestView { method, path, authorization: authorization_of(headers), body },
        ),
{
    reveal_strlit(" ");
    let first = method + " "@ + path + " "@ + version;
    let ls = seq![first] + headers;
    assert(head_line(first)) by {
        assert forall|i: int| 0 <= i < first.len() implies first[i] != '\r' && first[i] != '\n' by {
            assert(is_space('\r') && is_space('\n'));
            let m = method.len() as int;
            let n = path.len() as int;
            if i < m {
                assert(first[i] == method[i]);
            } else if m < i < m + 1 + n {
                assert(first[i] == path[i - m - 1]);
            } else if m + 1 + n < i {
                assert(first[i] == version[i - m - n - 2]);
            }
        }
    }
    assert forall|i: int| 0 <= i < ls.len() implies head_line(#[trigger] ls[i]) by {
        if i > 0 {
            assert(ls[i] == headers[i - 1]);
        }
    }
    law_message_splits(ls, body);
    lemma_three_words(method, path, version);
    assert(ls.drop_first() == headers);
}

/// A caller that presents the held capability is let in: the frame of a request
/// to add a key with the header `authorization: Bearer <cap>` is admitted, if no
/// `Authorization` header follows that one, and its body is the submitted one.
pub proof fn law_holder_is_admitted(
    cap: Seq<char>,
    before: Seq<Seq<char>>,
    after: Seq<Seq<char>>,
    body: Seq<char>,
)
    requires
        head_line(cap) && !is_space(cap[0]) && !is_space(cap.last()),
        forall|i: int| 0 <= i < before.len() ==> head_line(#[trigger] before[i]),
        forall|i: int| 0 <= i < after.len() ==> head_line(#[trigger] after[i]),
        forall|i: int| 0 <= i < after.len() ==> authorization_value(#[trigger] after[i]) is None,
    ensures
        parsed(
            message(
                seq!["POST /v1/authorized-keys HTTP/1.1"@] + before + seq![
                    "authorization: Bearer "@ + cap,
                ] + after,
                body,
            ),
        ) matches Some(req) && admitted(Some(cap), req) && req.body == body,
{
    reveal_strlit("POST /v1/authorized-keys HTTP/1.1");
    reveal_strlit("POST");
    reveal_strlit("/v1/authorized-keys");
    reveal_strlit("HTTP/1.1");
    reveal_strlit(" ");
    reveal_strlit("authorization: Bearer ");
    let auth = "authorization: Bearer "@ + cap;
    let given = before + seq![auth];
    let headers = given + after;
    let version = "HTTP/1.1"@;
    let first = "POST /v1/authorized-keys HTTP/1.1"@;
    assert(first == "POST"@ + " "@ + "/v1/authorized-keys"@ + " "@ + version);
    assert(head_line(auth)) by {
        assert forall|i: int| 0 <= i < auth.len() implies auth[i] != '\r' && auth[i] != '\n' by {
            if i >= 22 {
                assert(cap.contains(cap[i - 22]));
            }
        }
    }
    assert forall|i: int| 0 <= i < headers.len() implies head_line(#[trigger] headers[i]) by {
        if i < before.len() {
            assert(headers[i] == before[i]);
        } else if i > before.len() {
            assert(headers[i] == after[i - before.len() - 1]);
        }
    }
    law_frame_parses("POST"@, "/v1/authorized-keys"@, version, headers, body);
    assert(seq![first] + headers == seq![first] + before + seq![auth] + after);
    lemma_authorization_stays(given, after);
    assert(given.last() == auth);
    lemma_authorization_header(cap);
    lemma_bearer(cap);
}

/// An answer splits into its head lines and its body, and its head gives the
/// length of the body in bytes.
pub proof fn law_response_splits(o: HttpOutcome)
    ensures
        head_and_body(message(response_head(o), o.body@)) == (joined(response_head(o)), o.body@),
        lines(joined(response_head(o))) == response_head(o),
{
    reveal_strlit("HTTP/1.1 ");
    reveal_strlit(" ");
    reveal_strlit("OK");
    reveal_strlit("Bad Request");
    reveal_strlit("Unauthorized");
    reveal_strlit("Not Found");
    reveal_strlit("Method Not Allowed");
    reveal_strlit("Internal Server Error");
    reveal_strlit("content-type: text/plain");
    reveal_strlit("content-length: ");
    reveal_strlit("connection: close");
    let ls = response_head(o);
    lemma_decimal(o.status as nat);
    lemma_decimal(encode_utf8(o.body@).len());
    let code = decimal(o.status as nat);
    let n = decimal(encode_utf8(o.body@).len());
    let phrase = reason_phrase(o.status);
    assert forall|i: int| 0 <= i < phrase.len() implies phrase[i] != '\r' && phrase[i] != '\n' by {
    }
    assert(head_line(ls[0])) by {
        let l = ls[0];
        assert forall|i: int| 0 <= i < l.len() implies l[i] != '\r' && l[i] != '\n' by {
            if 9 <= i < 9 + code.len() {
                assert(l[i] == code[i - 9]);
            } else if i > 9 + code.len() {
                assert(l[i] == phrase[i - 10 - code.len()]);
            }
        }
    }
    assert(head_line(ls[2])) by {
        let l = ls[2];
        assert forall|i: int| 0 <= i < l.len() implies l[i] != '\r' && l[i] != '\n' by {
            if 16 <= i {
                assert(l[i] == n[i - 16]);
            }
        }
    }
    assert(head_line(ls[1]));
    assert(head_line(ls[3]));
    law_message_splits(ls, o.body@);
}

/// However its bytes come, no more than [`MAX_REQUEST_BYTES`] of a frame are ever
/// buffered; and if no read takes more than there is room for, no byte that was
/// read is dropped.
pub proof fn law_buffer_is_bounded(buf: Seq<u8>, event: ReadEvent)
    requires
        buf.len() <= MAX_REQUEST_BYTES,
    ensures
        buffered(buf, brought(event)).len() <= MAX_REQUEST_BYTES,
        brought(event).len() <= room_for(buf) ==> buffered(buf, brought(event)) == buf + brought(
            event,
        ),
{
    if brought(event).len() == 0 {
        assert(buf + brought(event) == buf);
    }
}

/// Once the files that a scrub names are removed, nothing is left to load: the
/// files that remain give no capability, and neither the authorized-keys
/// capability nor the forge admin credentials are among them.
pub proof fn law_scrub_leaves_nothing_to_load(
    listing: Seq<Seq<char>>,
    left: Seq<CapFile>,
    owner: Option<OwnerView>,
)
    requires
        forall|i: int|
            0 <= i < left.len() ==> listing.contains((#[trigger] left[i]).name@)
                && !cred_files(listing).contains(left[i].name@),
    ensures
        loaded(left, None, owner) == CredsView::nothing(),
        cred_files(listing).contains("authkeys.cap"@),
        cred_files(listing).contains("forge-admin.token"@),
    decreases left.len(),
{
    lemma_cred_files(listing, "authkeys.cap"@);
    lemma_cred_files(listing, "forge-admin.token"@);
    if left.len() > 0 {
        let rest = left.drop_last();
        assert forall|i: int| 0 <= i < rest.len() implies listing.contains(
            (#[trigger] rest[i]).name@,
        ) && !cred_files(listing).contains(rest[i].name@) by {
            assert(rest[i] == left[i]);
        }
        law_scrub_leaves_nothing_to_load(listing, rest, owner);
        lemma_cred_files(listing, left[left.len() - 1].name@);
    }
}

/// A second scrub finds nothing to remove: none of the names that are left after
/// the first one is named again. What the first one removes are the capability
/// URLs, the authorized-keys capability and the forge admin credentials; every
/// other file stays.
pub proof fn law_second_scrub_removes_nothing(listing: Seq<Seq<char>>, left: Seq<Seq<char>>)
    requires
        forall|n: Seq<char>| #[trigger]
            left.contains(n) <==> listing.contains(n) && !cred_files(listing).contains(n),
    ensures
        forall|n: Seq<char>| #[trigger] left.contains(n) ==> !cred_files(left).contains(n),
        forall|n: Seq<char>|
            listing.contains(n) && !ends_with(n, ".url"@) && n != "authkeys.cap"@ && n
                != "forge-admin.token"@ ==> #[trigger] left.contains(n),
{
    assert forall|n: Seq<char>| #[trigger] left.contains(n) implies !cred_files(left).contains(
        n,
    ) by {
        lemma_cred_files(listing, n);
        lemma_cred_files(left, n);
    }
    assert forall|n: Seq<char>|
        listing.contains(n) && !ends_with(n, ".url"@) && n != "authkeys.cap"@ && n
            != "forge-admin.token"@ implies #[trigger] left.contains(n) by {
        lemma_cred_files(listing, n);
    }
}

/// Which names a scrub removes.
pub(crate) proof fn lemma_cred_files(listing: Seq<Seq<char>>, n: Seq<char>)
    ensures
        cred_files(listing).contains(n) <==> (listing.contains(n) && ends_with(n, ".url"@)) || n
            == "authkeys.cap"@ || n == "forge-admin.token"@,
{
    let is_url = |x: Seq<char>| ends_with(x, ".url"@);
    let urls = listing.filter(is_url);
    let gone = cred_files(listing);
    let k = urls.len() as int;
    assert(gone[k] == "authkeys.cap"@);
    assert(gone[k + 1] == "forge-admin.token"@);
    if listing.contains(n) && ends_with(n, ".url"@) {
        let m = choose|m: int| 0 <= m < listing.len() && listing[m] == n;
        listing.lemma_filter_contains(is_url, m);
        let i = choose|i: int| 0 <= i < urls.len() && urls[i] == n;
        assert(gone[i] == n);
    }
    if gone.contains(n) {
        let i = choose|i: int| 0 <= i < gone.len() && gone[i] == n;
        if i < k {
            assert(urls[i] == n);
            listing.lemma_filter_contains_rev(is_url, n);
            listing.lemma_filter_pred(is_url, i);
        }
    }
}

} // verus!
