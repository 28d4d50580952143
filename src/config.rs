use vstd::prelude::*;
use vstd::string::StringExecFns;

use crate::headers::{
    bytes_eq_ignore_ascii_case, eq_ignore_ascii_case, name_bytes, string_bytes,
};

verus! {

pub const TRANSFER_ENCODING: &'static str = "transfer-encoding";

pub const CONTENT_TYPE: &'static str = "content-type";

pub const CONTENT_LENGTH: &'static str = "content-length";

pub const CONTENT_ENCODING: &'static str = "content-encoding";

pub const CACHE_CONTROL: &'static str = "cache-control";

/// Origin site used when none is configured.
pub const DEFAULT_ORIGIN_URL: &'static str = "https://nyaa.si";

/// The header names that are never relayed from the origin: the body may be
/// rewritten, so its length, encoding and type no longer hold, and the
/// origin's caching directives are not passed on.
pub open spec fn required_exclusions() -> Seq<Seq<char>> {
    seq![TRANSFER_ENCODING@, CONTENT_TYPE@, CONTENT_LENGTH@, CONTENT_ENCODING@, CACHE_CONTROL@]
}

/// Settings shared by every request: where the origin is, under which URL the
/// proxy is seen, and which response headers are held back.
pub struct ProxyConfig {
    pub origin_base_url: String,
    pub public_base_url: String,
    pub excluded_headers: Vec<String>,
}

impl ProxyConfig {
    /// Whether a header of this name is held back, ASCII case ignored.
    pub open spec fn excludes(&self, name: Seq<char>) -> bool {
        exists|i: int|
            0 <= i < self.excluded_headers@.len() && eq_ignore_ascii_case(
                name_bytes(#[trigger] self.excluded_headers@[i]@),
                name_bytes(name),
            )
    }

    /// Every required exclusion is in force.
    pub open spec fn wf(&self) -> bool {
        forall|k: int| 0 <= k < required_exclusions().len() ==> self.excludes(#[trigger] required_exclusions()[k])
    }

    /// A configuration for the given origin and public URLs that holds back the
    /// required headers.
    pub fn new(origin_base_url: String, public_base_url: String) -> (r: ProxyConfig)
        ensures
            r.origin_base_url@ == origin_base_url@,
            r.public_base_url@ == public_base_url@,
            r.excluded_headers@.map_values(|s: String| s@) == required_exclusions(),
            r.wf(),
    {
        let excluded_headers = excluded_headers();
        let r = ProxyConfig { origin_base_url, public_base_url, excluded_headers };
        assert forall|k: int| 0 <= k < required_exclusions().len() implies r.excludes(
            #[trigger] required_exclusions()[k],
        ) by {
            assert(r.excluded_headers@[k]@ == required_exclusions()[k]);
        }
        assert(r.excluded_headers@.map_values(|s: String| s@) =~= required_exclusions());
        r
    }

    /// Whether a header of this name is held back, ASCII case ignored.
    pub fn is_excluded(&self, name: &String) -> (r: bool)
        ensures
            r == self.excludes(name@),
    {
        let nb = string_bytes(name);
        let mut i: usize = 0;
        while i < self.excluded_headers.len()
            invariant
                i <= self.excluded_headers@.len(),
                nb@ == name_bytes(name@),
                forall|k: int|
                    0 <= k < i ==> !eq_ignore_ascii_case(
                        name_bytes(#[trigger] self.excluded_headers@[k]@),
                        name_bytes(name@),
                    ),
            decreases self.excluded_headers@.len() - i,
        {
            if bytes_eq_ignore_ascii_case(string_bytes(&self.excluded_headers[i]), nb) {
                return true;
            }
            i = i + 1;
        }
        false
    }
}

/// The names of the headers that are never relayed.
pub fn excluded_headers() -> (r: Vec<String>)
    ensures
        r@.len() == required_exclusions().len(),
        forall|k: int| 0 <= k < r@.len() ==> (#[trigger] r@[k])@ == required_exclusions()[k],
{
    let mut r: Vec<String> = Vec::new();
    r.push(String::from_str(TRANSFER_ENCODING));
    r.push(String::from_str(CONTENT_TYPE));
    r.push(String::from_str(CONTENT_LENGTH));
    r.push(String::from_str(CONTENT_ENCODING));
    r.push(String::from_str(CACHE_CONTROL));
    r
}

/// The URL at the origin for an inbound request target: the origin's base URL
/// followed verbatim by the target's path and query.
pub fn upstream_url(origin_base_url: &str, path_and_query: &str) -> (r: String)
    ensures
        r@ == origin_base_url@ + path_and_query@,
{
    let mut r = String::from_str(origin_base_url);
    r.append(path_and_query);
    r
}

} // verus!
