//! Signed requests: the query text of a request and its signature.
use vstd::prelude::*;

use vstd::utf8::encode_utf8;

use crate::encoding::form_text;
use crate::text::{i64_text, joined, signed_text, u64_text, nat_text};

verus! {

/// The HMAC-SHA-256 of a message under a key.
pub uninterp spec fn hmac_sha256_of(key: Seq<u8>, message: Seq<u8>) -> Seq<u8>;

/// `Hmac::<Sha256>::new_from_slice`, `update` and `finalize` of `hmac` with the
/// hash of `sha2`: the 32 bytes of the code, for a key of any length.
#[verifier::external_body]
fn hmac_sha256(key: &[u8], message: &[u8]) -> (r: Vec<u8>)
    ensures
        r@ == hmac_sha256_of(key@, message@),
        r@.len() == 32,
{
    let mut mac = <hmac::Hmac<sha2::Sha256> as hmac::Mac>::new_from_slice(key).expect(
        "a key of any length is accepted",
    );
    hmac::Mac::update(&mut mac, message);
    hmac::Mac::finalize(mac).into_bytes().to_vec()
}

/// A hexadecimal digit in lower case.
pub open spec fn hex_digit(d: int) -> char {
    if d < 10 {
        (('0' as int) + d) as char
    } else {
        (('a' as int) + d - 10) as char
    }
}

/// Two hexadecimal digits for each byte.
pub open spec fn hex_text(b: Seq<u8>) -> Seq<char> {
    Seq::new(
        b.len() * 2,
        |i: int|
            if i % 2 == 0 {
                hex_digit(b[i / 2] as int / 16)
            } else {
                hex_digit(b[i / 2] as int % 16)
            },
    )
}

/// `hex::encode`: two lower-case hexadecimal digits for each byte.
#[verifier::external_body]
fn hex_of(b: &Vec<u8>) -> (r: String)
    ensures
        r@ == hex_text(b@),
{
    hex::encode(b)
}

/// The pairs of names and values of a request.
pub open spec fn pairs(v: Seq<(String, String)>) -> Seq<(Seq<char>, Seq<char>)> {
    v.map_values(|p: (String, String)| (p.0@, p.1@))
}

/// `serde_urlencoded::to_string` of a list of pairs of texts: each pair is written with an
/// equals sign in it and an ampersand before the next one. Of the UTF-8 bytes of a name or a
/// value, letters, digits, `*`, `-`, `.` and `_` are kept, a blank becomes `+`, and every
/// other one is written as `%` and two hexadecimal digits in upper case. Pairs of texts are
/// never refused.
#[verifier::external_body]
fn form_encoded(p: &Vec<(String, String)>) -> (r: Option<String>)
    ensures
        r is Some,
        r->0@ == form_text(pairs(p@)),
{
    serde_urlencoded::to_string(p).ok()
}

/// The signature of a query text under a secret.
pub open spec fn signature_of(secret: Seq<char>, query: Seq<char>) -> Seq<char> {
    hex_text(hmac_sha256_of(encode_utf8(secret), encode_utf8(query)))
}

/// A query text followed by its signature.
pub open spec fn signed_query(query: Seq<char>, secret: Seq<char>) -> Seq<char> {
    query + "&signature="@ + signature_of(secret, query)
}

/// The signature of a query text: its HMAC-SHA-256 under the secret, in hexadecimal.
pub fn sign(secret: &str, query: &str) -> (r: String)
    ensures
        r@ == signature_of(secret@, query@),
        r@.len() == 64,
{
    let mac = hmac_sha256(secret.as_bytes(), query.as_bytes());
    hex_of(&mac)
}

/// The pairs that are signed: those of the request, the time, and the window
/// within which the request is good, unless it is zero.
pub open spec fn stamped(
    params: Seq<(Seq<char>, Seq<char>)>,
    timestamp: int,
    recv_window_ms: nat,
) -> Seq<(Seq<char>, Seq<char>)> {
    let with_time = params.push(("timestamp"@, signed_text(timestamp)));
    if recv_window_ms > 0 {
        with_time.push(("recvWindow"@, nat_text(recv_window_ms)))
    } else {
        with_time
    }
}

/// The pairs that are signed.
fn stamp(params: Vec<(String, String)>, timestamp: i64, recv_window_ms: u64) -> (r: Vec<
    (String, String),
>)
    ensures
        pairs(r@) == stamped(pairs(params@), timestamp as int, recv_window_ms as nat),
{
    let mut p = params;
    p.push(("timestamp".to_owned(), i64_text(timestamp)));
    assert(pairs(p@) =~= pairs(params@).push(("timestamp"@, signed_text(timestamp as int))));
    if recv_window_ms > 0 {
        let ghost before = p@;
        p.push(("recvWindow".to_owned(), u64_text(recv_window_ms)));
        assert(pairs(p@) =~= pairs(before).push(
            ("recvWindow"@, nat_text(recv_window_ms as nat)),
        ));
    }
    p
}

/// The text of a query followed by its signature.
pub fn with_signature(query: &str, secret: &str) -> (r: String)
    ensures
        r@ == signed_query(query@, secret@),
{
    let head = joined(query, "&signature=");
    let s = sign(secret, query);
    joined(head.as_str(), s.as_str())
}

/// The text of a signed request: the stamped pairs as a form, and their signature. Every
/// request can be written as a form.
pub fn sign_params(
    params: Vec<(String, String)>,
    timestamp: i64,
    recv_window_ms: u64,
    secret: &str,
) -> (r: Option<String>)
    ensures
        r is Some,
        r->0@ == signed_query(
            form_text(stamped(pairs(params@), timestamp as int, recv_window_ms as nat)),
            secret@,
        ),
{
    let p = stamp(params, timestamp, recv_window_ms);
    match form_encoded(&p) {
        Some(q) => Some(with_signature(q.as_str(), secret)),
        None => None,
    }
}

/// A byte is written as two digits, the higher first, and can be read back from them.
pub proof fn law_hex(b: Seq<u8>, i: int)
    requires
        0 <= i < b.len(),
    ensures
        hex_text(b).len() == 2 * b.len(),
        hex_value(hex_text(b)[2 * i]) * 16 + hex_value(hex_text(b)[2 * i + 1]) == b[i],
{
    assert((2 * i) / 2 == i && (2 * i + 1) / 2 == i && (2 * i) % 2 == 0 && (2 * i + 1) % 2 == 1);
}

/// What a digit in lower case stands for.
pub open spec fn hex_value(c: char) -> int {
    if '0' <= c && c <= '9' {
        c as int - '0' as int
    } else {
        c as int - 'a' as int + 10
    }
}

/// Parameters are stamped with their time, and with the window they are good for where there is one;
/// the signature stands last, after the query that it signs.
pub proof fn law_stamped(
    params: Seq<(Seq<char>, Seq<char>)>,
    timestamp: int,
    recv_window_ms: nat,
    query: Seq<char>,
    secret: Seq<char>,
)
    ensures
        ({
            let s = stamped(params, timestamp, recv_window_ms);
            &&& s[params.len() as int] == ("timestamp"@, signed_text(timestamp))
            &&& s.take(params.len() as int) == params
            &&& recv_window_ms == 0 ==> s.len() == params.len() + 1
            &&& recv_window_ms > 0 ==> s.len() == params.len() + 2 && s.last() == (
                "recvWindow"@,
                nat_text(recv_window_ms),
            )
            &&& signed_query(query, secret).take(query.len() as int) == query
            &&& signed_query(query, secret) == query + "&signature="@ + signature_of(secret, query)
        }),
{
    let s = stamped(params, timestamp, recv_window_ms);
    assert(s.take(params.len() as int) =~= params);
    assert(signed_query(query, secret).take(query.len() as int) =~= query);
}

} // verus!
