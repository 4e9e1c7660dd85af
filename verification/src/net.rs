//! The decisions of a page fetch: which schemes may be fetched, how the MIME
//! type is read from the response headers, and how large a body may be.
use vstd::prelude::*;
use crate::text::{lowercase, push_str, str_eq, str_from, to_lowercase};

verus! {

/// Maximum number of redirects to follow.
pub const MAX_REDIRECTS: usize = 10;

/// Maximum response body size (10 MB).
pub const MAX_BODY_SIZE: usize = 10485760;

/// The MIME type assumed when the response names none.
pub const DEFAULT_MIME: &'static str = "application/octet-stream";

/// Why a fetch was refused by the browser's own rules.
#[derive(Debug, Clone, PartialEq, Eq)]
pub enum FetchRefusal {
    /// The capability needed was not granted.
    CapabilityDenied(String),
    /// Too many redirects.
    RedirectLimitExceeded(usize),
    /// The body is larger than the limit.
    ResponseTooLarge { size: usize, limit: usize },
    /// The scheme or content type cannot be handled.
    UnsupportedContentType(String),
}

/// Whether a URL scheme may be fetched: only `http` and `https`.
pub open spec fn scheme_ok(s: Seq<char>) -> bool {
    s == "http"@ || s == "https"@
}

/// Check the scheme of a URL before fetching it.
pub fn check_scheme(scheme: &str) -> (r: Result<(), FetchRefusal>)
    ensures
        r is Ok <==> scheme_ok(scheme@),
        r matches Err(e) ==> e matches FetchRefusal::UnsupportedContentType(m) && m@ == "Unsupported scheme: "@
            + scheme@,
{
    if str_eq(scheme, "http") || str_eq(scheme, "https") {
        Ok(())
    } else {
        let mut m = str_from("Unsupported scheme: ");
        push_str(&mut m, scheme);
        Err(FetchRefusal::UnsupportedContentType(m))
    }
}

/// Check the size of a response body against the limit.
pub fn check_body_size(size: usize) -> (r: Result<(), FetchRefusal>)
    ensures
        r is Ok <==> size <= MAX_BODY_SIZE,
        r matches Err(e) ==> e == (FetchRefusal::ResponseTooLarge { size, limit: MAX_BODY_SIZE }),
{
    if size > MAX_BODY_SIZE {
        Err(FetchRefusal::ResponseTooLarge { size, limit: MAX_BODY_SIZE })
    } else {
        Ok(())
    }
}

/// The part of a header value before its first `;`.
pub open spec fn before_semicolon(v: Seq<char>) -> Seq<char>
    decreases v.len(),
{
    if v.len() == 0 {
        Seq::empty()
    } else if v[0] == ';' {
        Seq::empty()
    } else {
        seq![v[0]] + before_semicolon(v.drop_first())
    }
}

/// The headers' content of a list of name/value pairs.
pub open spec fn headers_view(h: Seq<(String, String)>) -> Seq<(Seq<char>, Seq<char>)> {
    h.map_values(|p: (String, String)| (p.0@, p.1@))
}

/// The MIME type named by the first header whose lowercased name is
/// `content-type`: its value up to the first `;`. Without one, the default.
pub open spec fn mime_of(h: Seq<(Seq<char>, Seq<char>)>) -> Seq<char>
    decreases h.len(),
{
    if h.len() == 0 {
        DEFAULT_MIME@
    } else if lowercase(h[0].0) == "content-type"@ {
        before_semicolon(h[0].1)
    } else {
        mime_of(h.drop_first())
    }
}

/// The value up to its first `;`.
fn cut_at_semicolon(v: &str) -> (r: String)
    ensures
        r@ == before_semicolon(v@),
{
    let cs = crate::text::chars_of(v);
    let mut out = String::new();
    proof {
        assert(cs@.skip(0) =~= v@);
        assert(out@ + before_semicolon(v@) =~= before_semicolon(v@));
    }
    let mut i: usize = 0;
    while i < cs.len() && cs[i] != ';'
        invariant
            i <= cs.len(),
            cs@ == v@,
            forall|j: int| 0 <= j < i ==> cs@[j] != ';',
            out@ + before_semicolon(cs@.skip(i as int)) == before_semicolon(v@),
        decreases cs.len() - i,
    {
        let ghost rest = cs@.skip(i as int);
        crate::text::string_push(&mut out, cs[i]);
        proof {
            assert(rest.drop_first() =~= cs@.skip(i + 1));
            assert(rest[0] == cs@[i as int]);
        }
        i = i + 1;
    }
    proof {
        if i < cs.len() {
            assert(cs@.skip(i as int)[0] == ';');
        } else {
            assert(cs@.skip(i as int) =~= Seq::<char>::empty());
        }
        assert(out@ + Seq::<char>::empty() =~= out@);
    }
    out
}

/// Detect the MIME type from the response headers.
pub fn detect_mime(headers: &[(String, String)]) -> (r: String)
    ensures
        r@ == mime_of(headers_view(headers@)),
{
    proof {
        assert(headers_view(headers@).skip(0) =~= headers_view(headers@));
    }
    let mut i: usize = 0;
    while i < headers.len()
        invariant
            i <= headers.len(),
            mime_of(headers_view(headers@)) == mime_of(headers_view(headers@).skip(i as int)),
        decreases headers.len() - i,
    {
        let ghost rest = headers_view(headers@).skip(i as int);
        proof {
            assert(rest.drop_first() =~= headers_view(headers@).skip(i + 1));
            assert(rest[0] == (headers@[i as int].0@, headers@[i as int].1@));
        }
        let name = to_lowercase(headers[i].0.as_str());
        if str_eq(name.as_str(), "content-type") {
            return cut_at_semicolon(headers[i].1.as_str());
        }
        i = i + 1;
    }
    proof {
        assert(headers_view(headers@).skip(headers@.len() as int) =~= Seq::<(Seq<char>, Seq<char>)>::empty());
    }
    str_from(DEFAULT_MIME)
}

/// A MIME type read from a header never holds a `;`.
pub proof fn law_mime_has_no_parameters(v: Seq<char>)
    ensures
        forall|i: int| 0 <= i < before_semicolon(v).len() ==> before_semicolon(v)[i] != ';',
    decreases v.len(),
{
    if v.len() > 0 && v[0] != ';' {
        law_mime_has_no_parameters(v.drop_first());
        let r = before_semicolon(v.drop_first());
        assert forall|i: int| 0 <= i < before_semicolon(v).len() implies before_semicolon(v)[i] != ';' by {
            if i > 0 {
                assert(before_semicolon(v)[i] == r[i - 1]);
            }
        }
    }
}

} // verus!
