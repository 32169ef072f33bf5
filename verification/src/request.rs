//! Decoding of the inbound query parameters into a resolved target, and
//! assembly of the outbound request: fixed identity headers, an injected
//! cookie, and a verbatim forwarded range.

use vstd::prelude::*;
use crate::ascii::copy_bytes;
use crate::codec;
use crate::errors::ProxyError;
use crate::errors::status_of;
use crate::foreign::is_utf8;
use crate::foreign::utf8_ok;
use crate::headers::views_of;

verus! {

/// The target of one proxied request, decoded once and immutable afterwards.
pub struct ResolvedTarget {
    /// The decoded target URL, UTF-8 text held as bytes.
    pub url: Vec<u8>,
    /// The decoded cookie; empty where absent or undecodable.
    pub cookie: Vec<u8>,
    /// The cookie parameter as it arrived, re-used verbatim in rewritten
    /// manifest lines.
    pub encoded_cookie: Vec<u8>,
}

/// A fully assembled outbound request; the method is always GET.
pub struct UpstreamRequest {
    pub url: Vec<u8>,
    pub headers: Vec<(Vec<u8>, Vec<u8>)>,
}

pub open spec fn opt_bytes(o: Option<Vec<u8>>) -> Option<Seq<u8>> {
    match o {
        Option::None => Option::None,
        Option::Some(v) => Option::Some(v@),
    }
}

/// "User-Agent"
pub open spec fn ua_name() -> Seq<u8> {
    seq![85u8, 115u8, 101u8, 114u8, 45u8, 65u8, 103u8, 101u8, 110u8, 116u8]
}

/// The fixed browser-identity string sent upstream.
pub open spec fn ua_value() -> Seq<u8> {
    seq![
        77u8, 111u8, 122u8, 105u8, 108u8, 108u8, 97u8, 47u8, 53u8, 46u8, 48u8, 32u8, 40u8, 87u8,
        105u8, 110u8, 100u8, 111u8, 119u8, 115u8, 32u8, 78u8, 84u8, 32u8, 49u8, 48u8, 46u8, 48u8,
        59u8, 32u8, 87u8, 105u8, 110u8, 54u8, 52u8, 59u8, 32u8, 120u8, 54u8, 52u8, 41u8, 32u8,
        65u8, 112u8, 112u8, 108u8, 101u8, 87u8, 101u8, 98u8, 75u8, 105u8, 116u8, 47u8, 53u8, 51u8,
        55u8, 46u8, 51u8, 54u8, 32u8, 40u8, 75u8, 72u8, 84u8, 77u8, 76u8, 44u8, 32u8, 108u8,
        105u8, 107u8, 101u8, 32u8, 71u8, 101u8, 99u8, 107u8, 111u8, 41u8, 32u8, 113u8, 117u8,
        97u8, 114u8, 107u8, 45u8, 99u8, 108u8, 111u8, 117u8, 100u8, 45u8, 100u8, 114u8, 105u8,
        118u8, 101u8, 47u8, 50u8, 46u8, 53u8, 46u8, 50u8, 48u8, 32u8, 67u8, 104u8, 114u8, 111u8,
        109u8, 101u8, 47u8, 49u8, 48u8, 48u8, 46u8, 48u8, 46u8, 52u8, 56u8, 57u8, 54u8, 46u8,
        49u8, 54u8, 48u8, 32u8, 69u8, 108u8, 101u8, 99u8, 116u8, 114u8, 111u8, 110u8, 47u8, 49u8,
        56u8, 46u8, 51u8, 46u8, 53u8, 46u8, 52u8, 45u8, 98u8, 52u8, 55u8, 56u8, 52u8, 57u8, 49u8,
        49u8, 48u8, 48u8, 32u8, 83u8, 97u8, 102u8, 97u8, 114u8, 105u8, 47u8, 53u8, 51u8, 55u8,
        46u8, 51u8, 54u8, 32u8, 67u8, 104u8, 97u8, 110u8, 110u8, 101u8, 108u8, 47u8, 112u8, 99u8,
        107u8, 107u8, 95u8, 111u8, 116u8, 104u8, 101u8, 114u8, 95u8, 99u8, 104u8,
    ]
}

/// "Referer"
pub open spec fn referer_name() -> Seq<u8> {
    seq![82u8, 101u8, 102u8, 101u8, 114u8, 101u8, 114u8]
}

/// "Origin"
pub open spec fn origin_name() -> Seq<u8> {
    seq![79u8, 114u8, 105u8, 103u8, 105u8, 110u8]
}

/// The fixed page identity the upstream expects: "https://pan.quark.cn/".
pub open spec fn page_value() -> Seq<u8> {
    seq![
        104u8, 116u8, 116u8, 112u8, 115u8, 58u8, 47u8, 47u8, 112u8, 97u8, 110u8, 46u8, 113u8,
        117u8, 97u8, 114u8, 107u8, 46u8, 99u8, 110u8, 47u8,
    ]
}

/// "Cookie"
pub open spec fn cookie_name() -> Seq<u8> {
    seq![67u8, 111u8, 111u8, 107u8, 105u8, 101u8]
}

/// "Range"
pub open spec fn range_name() -> Seq<u8> {
    seq![82u8, 97u8, 110u8, 103u8, 101u8]
}

/// What the cookie parameter decodes to: empty where it is absent, is not
/// base64, or is not UTF-8 — a bad cookie never fails the request.
pub open spec fn spec_cookie_of(c: Option<Seq<u8>>) -> Seq<u8> {
    match c {
        Option::None => Seq::empty(),
        Option::Some(cb) => match codec::spec_decode(cb) {
            Option::Some(d) => if is_utf8(d) {
                d
            } else {
                Seq::empty()
            },
            Option::None => Seq::empty(),
        },
    }
}

/// The whole parameter-decoding step: `(url, cookie, encoded cookie)` on
/// success; `MissingTarget` with no target parameter; `InvalidTarget` where
/// the target is not base64 or not UTF-8 once decoded.
pub open spec fn spec_resolve_target(u: Option<Seq<u8>>, c: Option<Seq<u8>>) -> Result<
    (Seq<u8>, Seq<u8>, Seq<u8>),
    ProxyError,
> {
    match u {
        Option::None => Result::Err(ProxyError::MissingTarget),
        Option::Some(ub) => match codec::spec_decode(ub) {
            Option::None => Result::Err(ProxyError::InvalidTarget),
            Option::Some(d) => if !is_utf8(d) {
                Result::Err(ProxyError::InvalidTarget)
            } else {
                Result::Ok(
                    (
                        d,
                        spec_cookie_of(c),
                        match c {
                            Option::None => Seq::empty(),
                            Option::Some(cb) => cb,
                        },
                    ),
                )
            },
        },
    }
}

/// A request with no target parameter is answered 400, whatever the cookie.
pub proof fn lemma_missing_target_is_bad_request(c: Option<Seq<u8>>)
    ensures
        spec_resolve_target(Option::None, c) == Result::<(Seq<u8>, Seq<u8>, Seq<u8>),
            ProxyError,
        >::Err(ProxyError::MissingTarget),
        status_of(ProxyError::MissingTarget) == 400,
{
}

/// A target parameter that is not base64, or not UTF-8 once decoded, is
/// answered 400, whatever the cookie.
pub proof fn lemma_invalid_target_is_bad_request(u: Seq<u8>, c: Option<Seq<u8>>)
    requires
        codec::spec_decode(u) is None || !is_utf8(codec::spec_decode(u).unwrap()),
    ensures
        spec_resolve_target(Option::Some(u), c) == Result::<(Seq<u8>, Seq<u8>, Seq<u8>),
            ProxyError,
        >::Err(ProxyError::InvalidTarget),
        status_of(ProxyError::InvalidTarget) == 400,
{
}

/// Decodes the two query parameters into the target of this request.
pub fn resolve_target(url_param: Option<Vec<u8>>, cookie_param: Option<Vec<u8>>) -> (r: Result<
    ResolvedTarget,
    ProxyError,
>)
    ensures
        (match (spec_resolve_target(opt_bytes(url_param), opt_bytes(cookie_param)), r) {
            (Result::Ok(m), Result::Ok(t)) => t.url@ == m.0 && t.cookie@ == m.1
                && t.encoded_cookie@ == m.2,
            (Result::Err(e), Result::Err(e2)) => e == e2,
            _ => false,
        }),
{
    let ub = match url_param {
        Option::Some(ub) => ub,
        Option::None => {
            return Result::Err(ProxyError::MissingTarget);
        },
    };
    let url = match codec::decode(ub.as_slice()) {
        Option::Some(d) => d,
        Option::None => {
            return Result::Err(ProxyError::InvalidTarget);
        },
    };
    if !utf8_ok(url.as_slice()) {
        return Result::Err(ProxyError::InvalidTarget);
    }
    match cookie_param {
        Option::None => Result::Ok(
            ResolvedTarget { url, cookie: Vec::new(), encoded_cookie: Vec::new() },
        ),
        Option::Some(cb) => {
            let cookie = match codec::decode(cb.as_slice()) {
                Option::Some(d) => {
                    if utf8_ok(d.as_slice()) {
                        d
                    } else {
                        Vec::new()
                    }
                },
                Option::None => Vec::new(),
            };
            Result::Ok(ResolvedTarget { url, cookie, encoded_cookie: cb })
        },
    }
}

/// The outbound header list: the three fixed identity headers, then the
/// cookie where one was decoded, then the inbound range verbatim where one
/// was given.
pub open spec fn spec_upstream_headers(cookie: Seq<u8>, range: Option<Seq<u8>>) -> Seq<
    (Seq<u8>, Seq<u8>),
> {
    let fixed = seq![
        (ua_name(), ua_value()),
        (referer_name(), page_value()),
        (origin_name(), page_value()),
    ];
    let with_cookie = if cookie.len() > 0 {
        fixed.push((cookie_name(), cookie))
    } else {
        fixed
    };
    match range {
        Option::Some(rv) => with_cookie.push((range_name(), rv)),
        Option::None => with_cookie,
    }
}

/// Builds the single outbound GET request for a resolved target.
pub fn build_upstream_request(t: &ResolvedTarget, range: Option<Vec<u8>>) -> (r: UpstreamRequest)
    ensures
        r.url@ == t.url@,
        views_of(r.headers@) == spec_upstream_headers(t.cookie@, opt_bytes(range)),
{
    let mut headers: Vec<(Vec<u8>, Vec<u8>)> = Vec::new();
    let ua_n: Vec<u8> = vec![85u8, 115u8, 101u8, 114u8, 45u8, 65u8, 103u8, 101u8, 110u8, 116u8];
    let ua_v: Vec<u8> = vec![
        77u8, 111u8, 122u8, 105u8, 108u8, 108u8, 97u8, 47u8, 53u8, 46u8, 48u8, 32u8, 40u8, 87u8,
        105u8, 110u8, 100u8, 111u8, 119u8, 115u8, 32u8, 78u8, 84u8, 32u8, 49u8, 48u8, 46u8, 48u8,
        59u8, 32u8, 87u8, 105u8, 110u8, 54u8, 52u8, 59u8, 32u8, 120u8, 54u8, 52u8, 41u8, 32u8,
        65u8, 112u8, 112u8, 108u8, 101u8, 87u8, 101u8, 98u8, 75u8, 105u8, 116u8, 47u8, 53u8, 51u8,
        55u8, 46u8, 51u8, 54u8, 32u8, 40u8, 75u8, 72u8, 84u8, 77u8, 76u8, 44u8, 32u8, 108u8,
        105u8, 107u8, 101u8, 32u8, 71u8, 101u8, 99u8, 107u8, 111u8, 41u8, 32u8, 113u8, 117u8,
        97u8, 114u8, 107u8, 45u8, 99u8, 108u8, 111u8, 117u8, 100u8, 45u8, 100u8, 114u8, 105u8,
        118u8, 101u8, 47u8, 50u8, 46u8, 53u8, 46u8, 50u8, 48u8, 32u8, 67u8, 104u8, 114u8, 111u8,
        109u8, 101u8, 47u8, 49u8, 48u8, 48u8, 46u8, 48u8, 46u8, 52u8, 56u8, 57u8, 54u8, 46u8,
        49u8, 54u8, 48u8, 32u8, 69u8, 108u8, 101u8, 99u8, 116u8, 114u8, 111u8, 110u8, 47u8, 49u8,
        56u8, 46u8, 51u8, 46u8, 53u8, 46u8, 52u8, 45u8, 98u8, 52u8, 55u8, 56u8, 52u8, 57u8, 49u8,
        49u8, 48u8, 48u8, 32u8, 83u8, 97u8, 102u8, 97u8, 114u8, 105u8, 47u8, 53u8, 51u8, 55u8,
        46u8, 51u8, 54u8, 32u8, 67u8, 104u8, 97u8, 110u8, 110u8, 101u8, 108u8, 47u8, 112u8, 99u8,
        107u8, 107u8, 95u8, 111u8, 116u8, 104u8, 101u8, 114u8, 95u8, 99u8, 104u8,
    ];
    let referer_n: Vec<u8> = vec![82u8, 101u8, 102u8, 101u8, 114u8, 101u8, 114u8];
    let origin_n: Vec<u8> = vec![79u8, 114u8, 105u8, 103u8, 105u8, 110u8];
    let page_v: Vec<u8> = vec![
        104u8, 116u8, 116u8, 112u8, 115u8, 58u8, 47u8, 47u8, 112u8, 97u8, 110u8, 46u8, 113u8,
        117u8, 97u8, 114u8, 107u8, 46u8, 99u8, 110u8, 47u8,
    ];
    let page_v2: Vec<u8> = copy_bytes(page_v.as_slice());
    headers.push((ua_n, ua_v));
    headers.push((referer_n, page_v));
    headers.push((origin_n, page_v2));
    if t.cookie.len() > 0 {
        let cookie_n: Vec<u8> = vec![67u8, 111u8, 111u8, 107u8, 105u8, 101u8];
        headers.push((cookie_n, copy_bytes(t.cookie.as_slice())));
    }
    match range {
        Option::Some(rv) => {
            let range_n: Vec<u8> = vec![82u8, 97u8, 110u8, 103u8, 101u8];
            headers.push((range_n, rv));
        },
        Option::None => {},
    }
    proof {
        assert(views_of(headers@) =~~= spec_upstream_headers(t.cookie@, opt_bytes(range)));
    }
    UpstreamRequest { url: copy_bytes(t.url.as_slice()), headers }
}

} // verus!
