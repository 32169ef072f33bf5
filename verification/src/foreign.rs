//! The calls that leave the verified core: UTF-8 validation and URL
//! resolution. Each contract names the outside function it relies on.

use vstd::prelude::*;

verus! {

/// Whether a byte sequence is well-formed UTF-8.
pub uninterp spec fn is_utf8(s: Seq<u8>) -> bool;

/// Whether a byte sequence is well-formed UTF-8 and parses as an absolute URL.
pub uninterp spec fn url_parseable(s: Seq<u8>) -> bool;

/// The absolute URL that a reference resolves to against a base URL, as the
/// URL standard's resolution algorithm gives it; `None` where the base does
/// not parse or the reference cannot be joined to it.
pub uninterp spec fn resolved(base: Seq<u8>, reference: Seq<u8>) -> Option<Seq<u8>>;

/// Relies on `core::str::from_utf8`: `Ok` exactly on well-formed UTF-8. The
/// result depends on the bytes alone.
#[verifier::external_body]
pub fn utf8_ok(b: &[u8]) -> (r: bool)
    ensures
        r == is_utf8(b@),
{
    core::str::from_utf8(b).is_ok()
}

/// Relies on `url::Url::parse`: `Ok` exactly on text that parses as an
/// absolute URL. The result depends on the bytes alone.
#[verifier::external_body]
pub fn parse_ok(b: &[u8]) -> (r: bool)
    ensures
        r == url_parseable(b@),
{
    match core::str::from_utf8(b) {
        Ok(s) => url::Url::parse(s).is_ok(),
        Err(_) => false,
    }
}

/// Relies on `url::Url::parse` and `url::Url::join`: standard URL reference
/// resolution, a function of the two texts alone.
#[verifier::external_body]
pub fn resolve_reference(base: &[u8], reference: &[u8]) -> (r: Option<Vec<u8>>)
    ensures
        match r {
            Some(v) => resolved(base@, reference@) == Some(v@),
            None => resolved(base@, reference@) is None,
        },
{
    let base_str = core::str::from_utf8(base).ok()?;
    let ref_str = core::str::from_utf8(reference).ok()?;
    let base_url = url::Url::parse(base_str).ok()?;
    let joined = base_url.join(ref_str).ok()?;
    Some(String::from(joined.as_str()).into_bytes())
}

} // verus!
