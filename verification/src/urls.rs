//! URL parsing and relative-reference resolution, through the `url`
//! crate. A URL is carried everywhere as its canonical serialization,
//! a byte vector; that string is also the dedup key.

use vstd::prelude::*;

verus! {

/// The canonical serialization of `s` parsed as an absolute URL, or
/// `None` when `s` does not parse. The result depends on the bytes of
/// `s` alone.
pub uninterp spec fn url_parse_norm(s: Seq<u8>) -> Option<Seq<u8>>;

/// The path component of `u` parsed as an absolute URL, or the empty
/// sequence when `u` does not parse. The result depends on the bytes
/// of `u` alone.
pub uninterp spec fn url_path(u: Seq<u8>) -> Seq<u8>;

/// The canonical serialization of the reference `rel` resolved
/// against the absolute URL `base`, or `None` when `base` does not
/// parse or the resolution fails. The result depends on the bytes of
/// the two arguments alone.
pub uninterp spec fn url_join(base: Seq<u8>, rel: Seq<u8>) -> Option<Seq<u8>>;

/// Relies on `url::Url::parse` and `url::Url::as_str`: parses `s` and
/// returns the canonical serialization, `None` when parsing fails.
#[verifier::external_body]
pub fn normalize_url(s: &Vec<u8>) -> (r: Option<Vec<u8>>)
    ensures
        r is Some <==> url_parse_norm(s@) is Some,
        r matches Some(v) ==> Some(v@) == url_parse_norm(s@),
{
    match url::Url::parse(&String::from_utf8_lossy(s)) {
        Ok(u) => Some(u.as_str().as_bytes().to_vec()),
        Err(_) => None,
    }
}

/// Relies on `url::Url::parse` and `url::Url::path`: the path
/// component of `u`, or empty when `u` does not parse.
#[verifier::external_body]
pub fn path_of_url(u: &Vec<u8>) -> (r: Vec<u8>)
    ensures
        r@ == url_path(u@),
{
    match url::Url::parse(&String::from_utf8_lossy(u)) {
        Ok(p) => p.path().as_bytes().to_vec(),
        Err(_) => Vec::new(),
    }
}

/// Relies on `url::Url::parse`, `url::Url::join` and
/// `url::Url::as_str`: resolves `rel` against `base`, returning the
/// canonical serialization of the resolved URL, `None` when `base`
/// does not parse or the resolution fails.
#[verifier::external_body]
pub fn join_url(base: &Vec<u8>, rel: &Vec<u8>) -> (r: Option<Vec<u8>>)
    ensures
        r is Some <==> url_join(base@, rel@) is Some,
        r matches Some(v) ==> Some(v@) == url_join(base@, rel@),
{
    let b = match url::Url::parse(&String::from_utf8_lossy(base)) {
        Ok(b) => b,
        Err(_) => return None,
    };
    match b.join(&String::from_utf8_lossy(rel)) {
        Ok(j) => Some(j.as_str().as_bytes().to_vec()),
        Err(_) => None,
    }
}

/// An anchor target resolved to `link` is re-joined against its own
/// path, which strips any query and fragment, before it meets the
/// scope filter.
pub open spec fn spec_normalize_anchor(link: Seq<u8>) -> Option<Seq<u8>> {
    url_join(link, url_path(link))
}

/// Re-joins `link` against its own path (anchor normalization).
pub fn normalize_anchor(link: &Vec<u8>) -> (r: Option<Vec<u8>>)
    ensures
        r is Some <==> spec_normalize_anchor(link@) is Some,
        r matches Some(v) ==> Some(v@) == spec_normalize_anchor(link@),
{
    let path = path_of_url(link);
    join_url(link, &path)
}

} // verus!
