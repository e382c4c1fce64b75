//! Push capabilities: 256 bits in hexadecimal, which tell nothing of what they
//! stand for.

use vstd::prelude::*;
use vstd::string::*;
use vstd::utf8::*;

verus! {

/// The hexadecimal digit of `n`, in lower case.
pub open spec fn hex_digit(n: int) -> char {
    if n < 10 {
        (48 + n) as char
    } else {
        (87 + n) as char
    }
}

/// `c` is a hexadecimal digit in lower case.
pub open spec fn is_hex(c: char) -> bool {
    48 <= c as int <= 57 || 97 <= c as int <= 102
}

/// The bytes in hexadecimal, two digits for each.
pub open spec fn hex_text(bytes: Seq<u8>) -> Seq<char> {
    Seq::new(
        2 * bytes.len(),
        |i: int|
            hex_digit(
                if i % 2 == 0 {
                    bytes[i / 2] as int / 16
                } else {
                    bytes[i / 2] as int % 16
                },
            ),
    )
}

/// `hex::encode`: the bytes in hexadecimal, in lower case.
#[verifier::external_body]
fn encode_hex(bytes: &[u8]) -> (r: String)
    requires
        bytes@.len() <= usize::MAX / 4,
    ensures
        r@ == hex_text(bytes@),
{
    hex::encode(bytes)
}

/// The BLAKE3 digest of bytes.
pub uninterp spec fn blake3_digest(bytes: Seq<u8>) -> Seq<u8>;

/// `blake3::hash`: the digest of the bytes, which is `blake3_digest`, in 32
/// bytes.
#[verifier::external_body]
fn hash_blake3(bytes: &[u8]) -> (r: Vec<u8>)
    ensures
        r@ == blake3_digest(bytes@),
        r@.len() == 32,
{
    blake3::hash(bytes).as_bytes().to_vec()
}

/// `s` is a random UUID as it is written: 32 hexadecimal digits in lower case,
/// in groups of 8, 4, 4, 4 and 12 with hyphens between, where the third group
/// begins with the version 4 and the fourth with the variant.
pub open spec fn random_uuid(s: Seq<char>) -> bool {
    &&& s.len() == 36
    &&& forall|i: int|
        0 <= i < 36 ==> if i == 8 || i == 13 || i == 18 || i == 23 {
            #[trigger] s[i] == '-'
        } else {
            is_hex(s[i])
        }
    &&& s[14] == '4'
    &&& s[19] == '8' || s[19] == '9' || s[19] == 'a' || s[19] == 'b'
}

/// The `Display` text of `uuid::Uuid::new_v4`: a random UUID. Which one is left
/// to chance. There is none, and no return, if the operating system gives no
/// random bytes.
#[verifier::external_body]
fn new_uuid() -> (r: String)
    ensures
        random_uuid(r@),
{
    uuid::Uuid::new_v4().to_string()
}

/// What a capability for `repo` in `org` is the digest of.
pub open spec fn cap_input(
    org: Seq<char>,
    repo: Seq<char>,
    salt_a: Seq<char>,
    salt_b: Seq<char>,
) -> Seq<char> {
    org + "/"@ + repo + ":"@ + salt_a + ":"@ + salt_b
}

/// The capability for `repo` in `org` with the two salts.
pub open spec fn cap_text(
    org: Seq<char>,
    repo: Seq<char>,
    salt_a: Seq<char>,
    salt_b: Seq<char>,
) -> Seq<char> {
    hex_text(blake3_digest(encode_utf8(cap_input(org, repo, salt_a, salt_b))))
}

/// `cap` has the shape of a capability: 64 hexadecimal digits in lower case.
pub open spec fn cap_shaped(cap: Seq<char>) -> bool {
    cap.len() == 64 && forall|i: int| 0 <= i < 64 ==> is_hex(#[trigger] cap[i])
}

/// A byte is written in hexadecimal digits.
proof fn lemma_hex_text(bytes: Seq<u8>)
    ensures
        forall|i: int| 0 <= i < hex_text(bytes).len() ==> is_hex(#[trigger] hex_text(bytes)[i]),
{
    assert forall|i: int| 0 <= i < hex_text(bytes).len() implies is_hex(
        #[trigger] hex_text(bytes)[i],
    ) by {
        let b = bytes[i / 2] as int;
        assert(0 <= b < 256);
    }
}

/// The capability that a digest of 32 bytes gives.
pub fn cap_of_digest(digest: &[u8]) -> (r: String)
    requires
        digest@.len() == 32,
    ensures
        r@ == hex_text(digest@),
        cap_shaped(r@),
{
    proof {
        lemma_hex_text(digest@);
    }
    encode_hex(digest)
}

/// The capability for `repo` in `org` with the two salts.
pub fn forge_cap_from(org: &str, repo: &str, salt_a: &str, salt_b: &str) -> (r: String)
    ensures
        r@ == cap_text(org@, repo@, salt_a@, salt_b@),
        cap_shaped(r@),
{
    let mut input = org.to_owned();
    input.append("/");
    input.append(repo);
    input.append(":");
    input.append(salt_a);
    input.append(":");
    input.append(salt_b);
    let digest = hash_blake3(input.as_str().as_bytes());
    cap_of_digest(digest.as_slice())
}

/// A fresh capability for `repo` in `org`: one with two random salts.
pub fn generate_forge_cap(org: &str, repo: &str) -> (r: String)
    ensures
        cap_shaped(r@),
        exists|a: Seq<char>, b: Seq<char>|
            random_uuid(a) && random_uuid(b) && r@ == #[trigger] cap_text(org@, repo@, a, b),
{
    let salt_a = new_uuid();
    let salt_b = new_uuid();
    forge_cap_from(org, repo, salt_a.as_str(), salt_b.as_str())
}

} // verus!
