//! The query texts of requests: names and values, joined as they are.
use vstd::prelude::*;

use crate::connection::push_param;
use crate::encoding::percent_encoded;
use crate::signing::{pairs, signature_of, signed_query, with_signature};
use crate::text::{copy_of, joined, nat_text, u64_text};

verus! {

/// One name with its value.
pub open spec fn assignment(p: (Seq<char>, Seq<char>)) -> Seq<char> {
    p.0 + "="@ + p.1
}

/// Names and values with ampersands between them.
pub open spec fn plain_query(p: Seq<(Seq<char>, Seq<char>)>) -> Seq<char>
    decreases p.len(),
{
    if p.len() == 0 {
        Seq::empty()
    } else if p.len() == 1 {
        assignment(p[0])
    } else {
        plain_query(p.drop_last()) + "&"@ + assignment(p.last())
    }
}

/// Names and values with ampersands between them.
pub fn query_text(params: &Vec<(String, String)>) -> (r: String)
    ensures
        r@ == plain_query(pairs(params@)),
{
    let mut s = String::new();
    let mut i: usize = 0;
    assert(pairs(params@).take(0) =~= Seq::<(Seq<char>, Seq<char>)>::empty());
    while i < params.len()
        invariant
            i <= params.len(),
            s@ == plain_query(pairs(params@).take(i as int)),
        decreases params.len() - i,
    {
        let ghost before = s@;
        proof {
            let t = pairs(params@).take(i as int + 1);
            assert(t.drop_last() =~= pairs(params@).take(i as int));
            assert(t.last() == (params@[i as int].0@, params@[i as int].1@));
        }
        if i > 0 {
            s.append("&");
        }
        s.append(params[i].0.as_str());
        s.append("=");
        s.append(params[i].1.as_str());
        proof {
            let a = assignment((params@[i as int].0@, params@[i as int].1@));
            if i > 0 {
                assert(s@ =~= before + "&"@ + a);
            } else {
                assert(before =~= Seq::<char>::empty());
                assert(s@ =~= a);
            }
        }
        i += 1;
    }
    assert(pairs(params@).take(params@.len() as int) =~= pairs(params@));
    s
}

/// The address of a signed request: base, path, query and signature.
pub open spec fn signed_url(
    base: Seq<char>,
    path: Seq<char>,
    p: Seq<(Seq<char>, Seq<char>)>,
    secret: Seq<char>,
) -> Seq<char> {
    base + path + "?"@ + signed_query(plain_query(p), secret)
}

/// The address of a signed request.
pub fn signed_address(
    base: &str,
    path: &str,
    params: &Vec<(String, String)>,
    secret: &str,
) -> (r: String)
    ensures
        r@ == signed_url(base@, path@, pairs(params@), secret@),
{
    let q = query_text(params);
    let signed = with_signature(q.as_str(), secret);
    let mut url = joined(base, path);
    url.append("?");
    url.append(signed.as_str());
    url
}

/// The time of a request and the window within which it is good, as every signed
/// request of the venue carries them.
pub open spec fn clocked(
    p: Seq<(Seq<char>, Seq<char>)>,
    timestamp: nat,
    recv_window_ms: nat,
) -> Seq<(Seq<char>, Seq<char>)> {
    p.push(("timestamp"@, nat_text(timestamp))).push(("recvWindow"@, nat_text(recv_window_ms)))
}

/// Appends the time of a request and the window within which it is good.
pub fn push_clock(params: &mut Vec<(String, String)>, timestamp: u64, recv_window_ms: u64)
    ensures
        pairs(final(params)@) == clocked(
            pairs(old(params)@),
            timestamp as nat,
            recv_window_ms as nat,
        ),
{
    let t = u64_text(timestamp);
    let w = u64_text(recv_window_ms);
    push_param(params, "timestamp", t.as_str());
    push_param(params, "recvWindow", w.as_str());
}

/// The parameters of a request that asks for one symbol, or for all.
pub fn lookup_params(symbol: Option<&str>, timestamp: u64, recv_window_ms: u64) -> (r: Vec<
    (String, String),
>)
    ensures
        pairs(r@) == clocked(
            match symbol {
                Some(s) => seq![("symbol"@, s@)],
                None => Seq::empty(),
            },
            timestamp as nat,
            recv_window_ms as nat,
        ),
{
    let mut v: Vec<(String, String)> = Vec::new();
    assert(pairs(v@) =~= Seq::<(Seq<char>, Seq<char>)>::empty());
    if let Some(s) = symbol {
        push_param(&mut v, "symbol", s);
        assert(pairs(v@) =~= seq![("symbol"@, s@)]);
    }
    push_clock(&mut v, timestamp, recv_window_ms);
    v
}

/// `urlencoding::encode`: of the UTF-8 bytes of the text, each letter, digit, `-`, `_`, `.`
/// and `~` is kept, and every other one is written as `%` and two hexadecimal digits in
/// upper case.
#[verifier::external_body]
fn url_encode(s: &str) -> (r: String)
    ensures
        r@ == percent_encoded(s@),
{
    urlencoding::encode(s).into_owned()
}

/// The address under which the rules of a symbol are found.
pub fn exchange_info_url(base: &str, symbol: &str) -> (r: String)
    ensures
        r@ == base@ + "/fapi/v1/exchangeInfo?symbol="@ + percent_encoded(symbol@),
{
    let e = url_encode(symbol);
    let mut url = joined(base, "/fapi/v1/exchangeInfo?symbol=");
    url.append(e.as_str());
    url
}

/// The address under which the best prices of a symbol are found.
pub fn depth_url(base: &str, symbol: &str) -> (r: String)
    ensures
        r@ == base@ + "/fapi/v1/depth?symbol="@ + percent_encoded(symbol@) + "&limit=5"@,
{
    let e = url_encode(symbol);
    let mut url = joined(base, "/fapi/v1/depth?symbol=");
    url.append(e.as_str());
    url.append("&limit=5");
    url
}

/// The address of the futures exchange: that of the test network where the
/// configured one names it.
pub fn venue_base(futures_base: &str) -> (r: String)
    ensures
        r@ == if crate::text::occurs_in(futures_base@, "testnet"@) {
            "https://testnet.binancefuture.com"@
        } else {
            futures_base@
        },
{
    if crate::text::contains_text(futures_base, "testnet") {
        copy_of("https://testnet.binancefuture.com")
    } else {
        copy_of(futures_base)
    }
}

/// A query joins each name with its value, and these with one another, in the order given.
pub proof fn law_queries(p: Seq<(Seq<char>, Seq<char>)>, name: Seq<char>, value: Seq<char>)
    ensures
        plain_query(Seq::empty()) == Seq::<char>::empty(),
        p.len() == 0 ==> plain_query(p.push((name, value))) == name + "="@ + value,
        p.len() > 0 ==> plain_query(p.push((name, value))) == plain_query(p) + "&"@ + (name + "="@
            + value),
{
    let all = p.push((name, value));
    assert(all.drop_last() =~= p);
    assert(all.last() == (name, value));
    if p.len() == 0 {
        assert(all[0] == (name, value));
    }
}

/// Every request is stamped last, with its time and then the window it is good for, and what came
/// before stays.
pub proof fn law_clocked(p: Seq<(Seq<char>, Seq<char>)>, timestamp: nat, recv_window_ms: nat)
    ensures
        ({
            let c = clocked(p, timestamp, recv_window_ms);
            &&& c.len() == p.len() + 2
            &&& c.take(p.len() as int) == p
            &&& c[p.len() as int] == ("timestamp"@, nat_text(timestamp))
            &&& c.last() == ("recvWindow"@, nat_text(recv_window_ms))
        }),
{
    assert(clocked(p, timestamp, recv_window_ms).take(p.len() as int) =~= p);
}

/// An address that is signed begins with the address and the query, and ends with the signature of
/// just that query.
pub proof fn law_signed_addresses(
    base: Seq<char>,
    path: Seq<char>,
    p: Seq<(Seq<char>, Seq<char>)>,
    secret: Seq<char>,
)
    ensures
        signed_url(base, path, p, secret) == base + path + "?"@ + (plain_query(p) + "&signature="@
            + signature_of(secret, plain_query(p))),
{
}

} // verus!
