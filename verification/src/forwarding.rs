//! Helpers for the host-side forwarding path: hop-by-hop header filtering
//! for requests and responses, the upstream target URL, and the
//! content-length read-out of a response.

use vstd::prelude::*;
use vstd::string::*;
use crate::director::pairs_view;
use crate::strutil::{all_digits, dec_str, dec_value, fmt_u64, lower_seq, parse_u64, push_char,
    str_eq, str_to_lowercase};

verus! {

/// Header names never forwarded to an upstream.
pub open spec fn hop_by_hop_request(n: Seq<char>) -> bool {
    ||| n == "connection"@
    ||| n == "keep-alive"@
    ||| n == "proxy-authenticate"@
    ||| n == "proxy-authorization"@
    ||| n == "te"@
    ||| n == "trailers"@
    ||| n == "transfer-encoding"@
    ||| n == "upgrade"@
    ||| n == "x-forwarded-for"@
    ||| n == "x-forwarded-host"@
    ||| n == "x-forwarded-proto"@
}

/// Header names never returned to the client.
pub open spec fn hop_by_hop_response(n: Seq<char>) -> bool {
    ||| n == "connection"@
    ||| n == "keep-alive"@
    ||| n == "proxy-authenticate"@
    ||| n == "proxy-authorization"@
    ||| n == "te"@
    ||| n == "trailers"@
    ||| n == "transfer-encoding"@
    ||| n == "upgrade"@
}

/// Predicate keeping request headers that are not hop-by-hop.
pub open spec fn request_keep_pred() -> spec_fn((Seq<char>, Seq<char>)) -> bool {
    |h: (Seq<char>, Seq<char>)| !hop_by_hop_request(lower_seq(h.0))
}

/// Predicate keeping response headers that are not hop-by-hop.
pub open spec fn response_keep_pred() -> spec_fn((Seq<char>, Seq<char>)) -> bool {
    |h: (Seq<char>, Seq<char>)| !hop_by_hop_response(lower_seq(h.0))
}

/// Whether a lowercased name is hop-by-hop for requests.
fn is_hop_by_hop_request(lowered: &str) -> (r: bool)
    ensures
        r == hop_by_hop_request(lowered@),
{
    str_eq(lowered, "connection") || str_eq(lowered, "keep-alive") || str_eq(
        lowered,
        "proxy-authenticate",
    ) || str_eq(lowered, "proxy-authorization") || str_eq(lowered, "te") || str_eq(
        lowered,
        "trailers",
    ) || str_eq(lowered, "transfer-encoding") || str_eq(lowered, "upgrade") || str_eq(
        lowered,
        "x-forwarded-for",
    ) || str_eq(lowered, "x-forwarded-host") || str_eq(lowered, "x-forwarded-proto")
}

/// Whether a lowercased name is hop-by-hop for responses.
fn is_hop_by_hop_response(lowered: &str) -> (r: bool)
    ensures
        r == hop_by_hop_response(lowered@),
{
    str_eq(lowered, "connection") || str_eq(lowered, "keep-alive") || str_eq(
        lowered,
        "proxy-authenticate",
    ) || str_eq(lowered, "proxy-authorization") || str_eq(lowered, "te") || str_eq(
        lowered,
        "trailers",
    ) || str_eq(lowered, "transfer-encoding") || str_eq(lowered, "upgrade")
}

/// Copy the request headers, dropping the hop-by-hop ones.
#[verifier::loop_isolation(false)]
pub fn collect_request_headers(headers: &Vec<(String, String)>) -> (r: Vec<(String, String)>)
    ensures
        pairs_view(r@) == pairs_view(headers@).filter(request_keep_pred()),
{
    let ghost hv = pairs_view(headers@);
    let ghost pred = request_keep_pred();
    let n = headers.len();
    let mut out: Vec<(String, String)> = Vec::new();
    let mut i: usize = 0;
    proof {
        reveal(Seq::filter);
        assert(hv.subrange(0, 0).filter(pred) =~= Seq::<(Seq<char>, Seq<char>)>::empty());
        assert(pairs_view(out@) =~= Seq::<(Seq<char>, Seq<char>)>::empty());
    }
    while i < n
        invariant
            i <= n,
            pairs_view(out@) == hv.subrange(0, i as int).filter(pred),
        decreases n - i,
    {
        proof {
            reveal(Seq::filter);
            assert(hv.subrange(0, i + 1).drop_last() =~= hv.subrange(0, i as int));
            assert(hv.subrange(0, i + 1).last() == hv[i as int]);
            assert(hv[i as int] == (headers@[i as int].0@, headers@[i as int].1@));
        }
        let lowered = str_to_lowercase(headers[i].0.as_str());
        if !is_hop_by_hop_request(lowered.as_str()) {
            out.push((headers[i].0.clone(), headers[i].1.clone()));
            proof {
                assert(pairs_view(out@) =~= hv.subrange(0, i + 1).filter(pred));
            }
        } else {
            proof {
                assert(pairs_view(out@) =~= hv.subrange(0, i + 1).filter(pred));
            }
        }
        i += 1;
    }
    proof {
        assert(hv.subrange(0, n as int) =~= hv);
    }
    out
}

/// Copy the response headers, dropping the hop-by-hop ones.
#[verifier::loop_isolation(false)]
pub fn filter_response_headers(headers: &Vec<(String, String)>) -> (r: Vec<(String, String)>)
    ensures
        pairs_view(r@) == pairs_view(headers@).filter(response_keep_pred()),
{
    let ghost hv = pairs_view(headers@);
    let ghost pred = response_keep_pred();
    let n = headers.len();
    let mut out: Vec<(String, String)> = Vec::new();
    let mut i: usize = 0;
    proof {
        reveal(Seq::filter);
        assert(hv.subrange(0, 0).filter(pred) =~= Seq::<(Seq<char>, Seq<char>)>::empty());
        assert(pairs_view(out@) =~= Seq::<(Seq<char>, Seq<char>)>::empty());
    }
    while i < n
        invariant
            i <= n,
            pairs_view(out@) == hv.subrange(0, i as int).filter(pred),
        decreases n - i,
    {
        proof {
            reveal(Seq::filter);
            assert(hv.subrange(0, i + 1).drop_last() =~= hv.subrange(0, i as int));
            assert(hv.subrange(0, i + 1).last() == hv[i as int]);
            assert(hv[i as int] == (headers@[i as int].0@, headers@[i as int].1@));
        }
        let lowered = str_to_lowercase(headers[i].0.as_str());
        if !is_hop_by_hop_response(lowered.as_str()) {
            out.push((headers[i].0.clone(), headers[i].1.clone()));
            proof {
                assert(pairs_view(out@) =~= hv.subrange(0, i + 1).filter(pred));
            }
        } else {
            proof {
                assert(pairs_view(out@) =~= hv.subrange(0, i + 1).filter(pred));
            }
        }
        i += 1;
    }
    proof {
        assert(hv.subrange(0, n as int) =~= hv);
    }
    out
}

/// The upstream target URL: `http://address:port` followed by the request
/// URL.
pub fn upstream_url(address: &str, port: u16, url: &str) -> (r: String)
    ensures
        r@ == "http://"@ + address@ + seq![':'] + dec_str(port as nat) + url@,
{
    let mut out = String::from_str("http://");
    out.append(address);
    push_char(&mut out, ':');
    out.append(fmt_u64(port as u64).as_str());
    out.append(url);
    proof {
        assert(out@ =~= "http://"@ + address@ + seq![':'] + dec_str(port as nat) + url@);
    }
    out
}

/// A digit string that fits a `u64`.
pub open spec fn parses_u64(s: Seq<char>) -> bool {
    s.len() > 0 && all_digits(s) && dec_value(s) <= u64::MAX
}

/// The first `Content-Length` header with a numeric value, if any.
pub open spec fn content_length_spec(headers: Seq<(Seq<char>, Seq<char>)>) -> Option<int>
    decreases headers.len(),
{
    if headers.len() == 0 {
        None
    } else if lower_seq(headers[0].0) == "content-length"@ && parses_u64(headers[0].1) {
        Some(dec_value(headers[0].1))
    } else {
        content_length_spec(headers.skip(1))
    }
}

/// Read the content length out of a response's headers: the first
/// `Content-Length` line whose value is a plain number.
#[verifier::loop_isolation(false)]
pub fn content_length_of(headers: &Vec<(String, String)>) -> (r: Option<u64>)
    ensures
        match r {
            Some(v) => content_length_spec(pairs_view(headers@)) == Some(v as int),
            None => content_length_spec(pairs_view(headers@)) is None,
        },
{
    let ghost hv = pairs_view(headers@);
    let n = headers.len();
    let mut i: usize = 0;
    proof {
        assert(hv.skip(0) =~= hv);
    }
    while i < n
        invariant
            i <= n,
            content_length_spec(hv) == content_length_spec(hv.skip(i as int)),
        decreases n - i,
    {
        let ghost tail = hv.skip(i as int);
        proof {
            assert(tail[0] == (headers@[i as int].0@, headers@[i as int].1@));
            assert(tail.skip(1) =~= hv.skip(i + 1));
        }
        let lowered = str_to_lowercase(headers[i].0.as_str());
        if str_eq(lowered.as_str(), "content-length") {
            match parse_u64(headers[i].1.as_str()) {
                Some(v) => {
                    return Some(v);
                },
                None => {},
            }
        }
        i += 1;
    }
    proof {
        assert(hv.skip(n as int) =~= Seq::<(Seq<char>, Seq<char>)>::empty());
    }
    None
}

} // verus!
