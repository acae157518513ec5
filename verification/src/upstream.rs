//! The address of the upstream service.

use vstd::prelude::*;
use vstd::string::*;
use vstd::utf8::*;

use crate::text::{find_char, has_prefix, lemma_position, position, trim_end_char, trimmed_end};

verus! {

/// What is read off an absolute address: whether it has a host, and its path and its query, both
/// in their percent-encoded form.
pub struct UrlParts {
    pub has_host: bool,
    pub path: String,
    pub query: Option<String>,
}

/// What is read off an absolute address.
pub ghost struct UrlView {
    pub has_host: bool,
    pub path: Seq<char>,
    pub query: Option<Seq<char>>,
}

/// Whether `url::Url` finds a host in an address, and the path and the query that it finds; nothing
/// where it is no absolute address.
pub uninterp spec fn url_parts(address: Seq<char>) -> Option<UrlView>;

/// What the parts of an address hold.
pub open spec fn parts_view(parts: Option<UrlParts>) -> Option<UrlView> {
    match parts {
        Some(parts) => Some(
            UrlView {
                has_host: parts.has_host,
                path: parts.path@,
                query: match parts.query {
                    Some(query) => Some(query@),
                    None => None,
                },
            },
        ),
        None => None,
    }
}

/// Calls `url::Url::parse`, and reads off the result whether it has a host, and its path and its
/// query. What is added to the path of a web address ends up in its path: where nothing but the
/// host stands in the address, it parses with the usual route added, and then has a route.
#[verifier::external_body]
fn parse_url(address: &str) -> (r: Option<UrlParts>)
    ensures
        parts_view(r) == url_parts(address@),
        r is Some && is_web_address(address@) && !has_route(parts_view(r)) ==> has_route(
            url_parts(with_usual_route(address@)),
        ),
{
    let url = url::Url::parse(address).ok()?;
    Some(
        UrlParts {
            has_host: url.has_host(),
            path: url.path().to_string(),
            query: url.query().map(str::to_string),
        },
    )
}

/// Whether an address is one of the web, without a fragment, white space and control characters,
/// and well below the 4 GiB to which `url::Url` is limited.
pub open spec fn is_web_address(address: Seq<char>) -> bool {
    &&& address.len() <= 0x100_0000
    &&& has_prefix(address, "http://"@) || has_prefix(address, "https://"@)
    &&& forall|i: int| 0 <= i < address.len() ==> ' ' < #[trigger] address[i] && address[i] != '#'
}

/// An address with the usual route in place of the slashes at its end.
pub open spec fn with_usual_route(base: Seq<char>) -> Seq<char> {
    trimmed_end(base, '/') + "/v1/chat/completions"@
}

/// The part of a path that leads further than to a host. A bare `host:port` reads as a scheme and
/// a path, so without a host the route begins with the first slash.
pub open spec fn route(parts: UrlView) -> Seq<char> {
    if parts.has_host {
        parts.path
    } else {
        match position(parts.path, '/') {
            Some(i) => parts.path.skip(i),
            None => Seq::empty(),
        }
    }
}

/// Whether an address leads further than to a host: its route is more than a slash, or it has a
/// query.
pub open spec fn has_route(parts: Option<UrlView>) -> bool {
    match parts {
        Some(parts) => encode_utf8(route(parts)).len() > 1 || parts.query is Some,
        None => false,
    }
}

/// The address to send requests to: `base` itself where it leads further than to a host, else the
/// usual route on that host.
pub open spec fn upstream_url(base: Seq<char>, parts: Option<UrlView>) -> Seq<char> {
    if has_route(parts) {
        base
    } else {
        with_usual_route(base)
    }
}

/// Whether the route of an address is more than a slash.
fn leads_further(parts: &UrlParts) -> (r: bool)
    ensures
        r == (encode_utf8(route(parts_view(Some(*parts))->0)).len() > 1),
{
    let path = parts.path.as_str();
    if parts.has_host {
        return path.as_bytes().len() > 1;
    }
    match find_char(path, '/') {
        Some(i) => {
            proof {
                lemma_position(path@, '/');
            }
            let rest = path.substring_char(i, path.unicode_len());
            assert(rest@ =~= path@.skip(i as int));
            rest.as_bytes().len() > 1
        },
        None => {
            proof {
                assert(is_ascii_chars(Seq::<char>::empty()));
                is_ascii_chars_encode_utf8(Seq::<char>::empty());
            }
            false
        },
    }
}

/// The address to send requests to, when `base` has been taken apart into `parts`.
pub fn upstream_url_from(base: &str, parts: &Option<UrlParts>) -> (r: String)
    ensures
        r@ == upstream_url(base@, parts_view(*parts)),
{
    if let Some(parts) = parts {
        if leads_further(parts) || parts.query.is_some() {
            return base.to_owned();
        }
    }
    let mut url = trim_end_char(base, '/').to_owned();
    url.append("/v1/chat/completions");
    url
}

/// The address to send requests to. The usual route is not added twice: built again from the
/// result, the address is the same.
pub fn build_upstream_url(base: &str) -> (r: String)
    ensures
        r@ == upstream_url(base@, url_parts(base@)),
        has_route(url_parts(base@)) || url_parts(base@) is Some && is_web_address(base@)
            ==> upstream_url(r@, url_parts(r@)) == r@,
{
    let parts = parse_url(base);
    upstream_url_from(base, &parts)
}

/// An address that leads further than to a host is used as it is.
pub proof fn law_route_is_kept(base: Seq<char>)
    requires
        has_route(url_parts(base)),
    ensures
        upstream_url(base, url_parts(base)) == base,
{
}

} // verus!
