//! Decisions of the local asset webserver: which file a request may see,
//! and under which content type it goes out.
//!
//! The server loop, the sockets and the files live outside; they ask this
//! module what to do with each decoded request.

use vstd::prelude::*;

use crate::text::{ends_with_str, find_char_from, lemma_spec_find, spec_find, starts_with_str, str_eq};

verus! {

/// What `urlencoding::decode` yields on a request path: the percent-decoded
/// text, or nothing when the encoding is not valid UTF-8.
pub uninterp spec fn url_decoded(s: Seq<char>) -> Option<Seq<char>>;

/// Percent-decode a request path.
///
/// Relies on `urlencoding::decode`: it percent-decodes the string, failing
/// only when the decoded bytes are not valid UTF-8; the result depends on
/// the input alone.
#[verifier::external_body]
fn decode_url(s: &str) -> (r: Option<String>)
    ensures
        match r {
            Some(t) => url_decoded(s@) == Some(t@),
            None => url_decoded(s@) is None,
        },
{
    match urlencoding::decode(s) {
        Ok(t) => Some(t.into_owned()),
        Err(_) => None,
    }
}

/// The MIME type served for a file extension.
pub open spec fn spec_mime(extension: Seq<char>) -> Seq<char> {
    if extension == "htm"@ || extension == "html"@ || extension == "xhtml"@ {
        "text/html"@
    } else if extension == "js"@ || extension == "cjs"@ || extension == "mjs"@ {
        "text/javascript"@
    } else if extension == "css"@ {
        "text/css"@
    } else if extension == "png"@ || extension == "jpg"@ || extension == "jpeg"@ || extension
        == "gif"@ || extension == "webp"@ {
        "image/"@ + extension
    } else if extension == "svg"@ {
        "image/svg+xml"@
    } else {
        "application/octet-stream"@
    }
}

/// The MIME type served for a file extension.
pub fn mime(extension: &str) -> (r: String)
    ensures
        r@ == spec_mime(extension@),
{
    if str_eq(extension, "htm") || str_eq(extension, "html") || str_eq(extension, "xhtml") {
        "text/html".to_owned()
    } else if str_eq(extension, "js") || str_eq(extension, "cjs") || str_eq(extension, "mjs") {
        "text/javascript".to_owned()
    } else if str_eq(extension, "css") {
        "text/css".to_owned()
    } else if str_eq(extension, "png") || str_eq(extension, "jpg") || str_eq(extension, "jpeg")
        || str_eq(extension, "gif") || str_eq(extension, "webp") {
        let mut s = "image/".to_owned();
        s.append(extension);
        proof {
            assert(s@ == "image/"@ + extension@);
        }
        s
    } else if str_eq(extension, "svg") {
        "image/svg+xml".to_owned()
    } else {
        "application/octet-stream".to_owned()
    }
}

/// What the webserver does with a request.
pub enum RouteDecision {
    /// The request is not decodable.
    BadRequest,
    /// The resolved path escapes the served root and developer mode is
    /// off.
    Forbidden,
    /// Serve the file as a property-inspector page, with the bridge script
    /// appended.
    PropertyInspector(String),
    /// Serve the file plainly.
    File(String),
}

/// The suffix that marks a property-inspector request.
pub open spec fn pi_suffix() -> Seq<char> {
    "|opendeck_property_inspector"@
}

/// The request path with any query string cut off.
pub open spec fn spec_strip_query(url: Seq<char>) -> Seq<char> {
    match spec_find(url, '?', 0) {
        Some(i) => url.take(i),
        None => url,
    }
}

/// What routing decides for a raw request path: decode it, refuse paths
/// that leave the served root unless developer mode is on, and tell
/// property-inspector pages apart by their marker suffix.
pub open spec fn spec_route(url: Seq<char>, prefix: Seq<char>, developer: bool) -> RouteDecision {
    match url_decoded(spec_strip_query(url)) {
        None => RouteDecision::BadRequest,
        Some(path) => if !developer && !prefix.is_prefix_of(path) {
            RouteDecision::Forbidden
        } else if pi_suffix().is_suffix_of(path) {
            RouteDecision::PropertyInspector(arbitrary())
        } else {
            RouteDecision::File(arbitrary())
        },
    }
}

/// Route one request. The decision follows [`spec_route`]; a
/// property-inspector decision carries the path without its marker
/// suffix, a file decision the path itself.
pub fn route_request(url: &str, prefix: &str, developer: bool) -> (r: RouteDecision)
    ensures
        ({
            let decision = spec_route(url@, prefix@, developer);
            match r {
                RouteDecision::BadRequest => decision is BadRequest,
                RouteDecision::Forbidden => decision is Forbidden,
                RouteDecision::PropertyInspector(p) => decision is PropertyInspector && (
                url_decoded(spec_strip_query(url@)) matches Some(path) && p@ == path.take(
                    path.len() - pi_suffix().len(),
                )),
                RouteDecision::File(p) => decision is File && url_decoded(spec_strip_query(url@))
                    == Some(p@),
            }
        }),
{
    let len = url.unicode_len();
    let stripped: &str = match find_char_from(url, '?', 0) {
        Some(i) => {
            proof {
                lemma_spec_find(url@, '?', 0);
            }
            url.substring_char(0, i)
        },
        None => url,
    };
    proof {
        assert(stripped@ == spec_strip_query(url@));
    }
    let path = match decode_url(stripped) {
        Some(p) => p,
        None => {
            return RouteDecision::BadRequest;
        },
    };
    if !developer && !starts_with_str(path.as_str(), prefix) {
        return RouteDecision::Forbidden;
    }
    let suffix = "|opendeck_property_inspector";
    if ends_with_str(path.as_str(), suffix) {
        let n = path.as_str().unicode_len();
        let sn = suffix.unicode_len();
        let bare = path.as_str().substring_char(0, n - sn);
        RouteDecision::PropertyInspector(bare.to_owned())
    } else {
        RouteDecision::File(path)
    }
}

} // verus!
