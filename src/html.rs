use vstd::prelude::*;
use vstd::string::StringSliceAdditionalSpecFns;
use vstd::utf8::valid_utf8;

use crate::error::Error;
use crate::rewrite::{
    lemma_replace_first_absent, lemma_replace_first_at, occurs_at, occurs_in, replace_all,
    replace_all_bytes, replace_first, replace_first_bytes,
};

verus! {

/// The closing tag before which the copy-link fragment is placed.
pub const CLOSING_BODY_TAG: &'static str = "</body>";

/// The copy-link fragment up to where the public URL goes.
pub const FRAGMENT_HEAD: &'static str = "<div id=\"snackbar\">Copied link</div>\n    <style>#snackbar{font-family:\"Helvetica Neue\",Helvetica,Arial,sans-serif;visibility:hidden;min-width:100px;margin-left:-50px;background-color:#333;color:#fff;text-align:center;border-radius:8px;padding:16px;position:fixed;z-index:1;left:50%;bottom:30px;font-size:17px}#snackbar.show{visibility:visible;-webkit-animation:.5s fadein,.5s 2.5s fadeout;animation:.5s fadein,.5s 2.5s fadeout}@-webkit-keyframes fadein{from{bottom:0;opacity:0}to{bottom:30px;opacity:1}}@keyframes fadein{from{bottom:0;opacity:0}to{bottom:30px;opacity:1}}@-webkit-keyframes fadeout{from{bottom:30px;opacity:1}to{bottom:0;opacity:0}}@keyframes fadeout{from{bottom:30px;opacity:1}to{bottom:0;opacity:0}}</style>\n    <script>const rssLink=document.querySelector('a[href*=\"/?page=rss\"]');rssLink.addEventListener(\"click\",e=>{e.preventDefault(),navigator.clipboard.writeText(e.currentTarget.href.replace(\"";

/// The copy-link fragment between the public URL and the origin URL.
pub const FRAGMENT_MIDDLE: &'static str = "\",\"";

/// The copy-link fragment after the origin URL.
pub const FRAGMENT_TAIL: &'static str = "\"));var a=document.getElementById(\"snackbar\");a.className=\"show\",setTimeout(function(){a.className=a.className.replace(\"show\",\"\")},3e3)});</script>";

/// The copy-link fragment: a notification element, its style, and a script
/// that copies the feed link with the public URL turned back into the origin's.
pub open spec fn fragment(origin: Seq<u8>, public: Seq<u8>) -> Seq<u8> {
    FRAGMENT_HEAD.spec_bytes() + public + FRAGMENT_MIDDLE.spec_bytes() + origin
        + FRAGMENT_TAIL.spec_bytes()
}

/// An HTML body with every occurrence of the origin URL turned into the
/// public URL.
pub open spec fn substituted(body: Seq<u8>, origin: Seq<u8>, public: Seq<u8>) -> Seq<u8> {
    replace_all(body, origin, public)
}

/// An HTML body as it is relayed: URLs substituted, then the fragment placed
/// before the first closing body tag.
pub open spec fn rewritten(body: Seq<u8>, origin: Seq<u8>, public: Seq<u8>) -> Seq<u8> {
    replace_first(
        substituted(body, origin, public),
        CLOSING_BODY_TAG.spec_bytes(),
        fragment(origin, public) + CLOSING_BODY_TAG.spec_bytes(),
    )
}

/// Without a closing body tag in the substituted text, the rewrite is the URL
/// substitution alone: no fragment is placed.
pub proof fn lemma_no_closing_tag_no_fragment(body: Seq<u8>, origin: Seq<u8>, public: Seq<u8>)
    requires
        !occurs_in(substituted(body, origin, public), CLOSING_BODY_TAG.spec_bytes()),
    ensures
        rewritten(body, origin, public) == substituted(body, origin, public),
{
    lemma_replace_first_absent(
        substituted(body, origin, public),
        CLOSING_BODY_TAG.spec_bytes(),
        fragment(origin, public) + CLOSING_BODY_TAG.spec_bytes(),
    );
}

/// Where the first closing body tag of the substituted text stands at `k`, the
/// fragment is placed once, right before it, and the text from `k` on (later
/// closing tags included) follows unchanged.
pub proof fn lemma_fragment_before_first_closing_tag(
    body: Seq<u8>,
    origin: Seq<u8>,
    public: Seq<u8>,
    k: int,
)
    requires
        occurs_at(substituted(body, origin, public), CLOSING_BODY_TAG.spec_bytes(), k),
        forall|j: int|
            0 <= j < k ==> !occurs_at(
                substituted(body, origin, public),
                CLOSING_BODY_TAG.spec_bytes(),
                j,
            ),
    ensures
        rewritten(body, origin, public) == substituted(body, origin, public).subrange(0, k)
            + fragment(origin, public) + substituted(body, origin, public).subrange(
            k,
            substituted(body, origin, public).len() as int,
        ),
{
    let t = substituted(body, origin, public);
    let tag = CLOSING_BODY_TAG.spec_bytes();
    lemma_replace_first_at(t, tag, fragment(origin, public) + tag, k);
    assert(t.subrange(k, k + tag.len()) =~= tag);
    assert(t.subrange(0, k) + (fragment(origin, public) + tag) + t.subrange(
        k + tag.len(),
        t.len() as int,
    ) =~= t.subrange(0, k) + fragment(origin, public) + t.subrange(k, t.len() as int));
}

/// Relies on std::str::from_utf8: it succeeds exactly on well-formed UTF-8.
#[verifier::external_body]
fn is_valid_utf8(bytes: &[u8]) -> (r: bool)
    ensures
        r == valid_utf8(bytes@),
{
    std::str::from_utf8(bytes).is_ok()
}

/// The copy-link fragment followed by the closing body tag.
pub fn injected_fragment(nyaa_url: &str, proxy_url: &str) -> (r: Vec<u8>)
    ensures
        r@ == fragment(nyaa_url.spec_bytes(), proxy_url.spec_bytes())
            + CLOSING_BODY_TAG.spec_bytes(),
{
    let mut r: Vec<u8> = Vec::new();
    r.extend_from_slice(FRAGMENT_HEAD.as_bytes());
    r.extend_from_slice(proxy_url.as_bytes());
    r.extend_from_slice(FRAGMENT_MIDDLE.as_bytes());
    r.extend_from_slice(nyaa_url.as_bytes());
    r.extend_from_slice(FRAGMENT_TAIL.as_bytes());
    r.extend_from_slice(CLOSING_BODY_TAG.as_bytes());
    r
}

/// Rewrites an HTML body: every occurrence of `nyaa_url` becomes `proxy_url`,
/// and the copy-link fragment goes before the first closing body tag. A body
/// that is not UTF-8 is refused.
pub fn process_html_body(body_bytes: &[u8], nyaa_url: &str, proxy_url: &str) -> (r: Result<
    Vec<u8>,
    Error,
>)
    ensures
        r is Ok <==> valid_utf8(body_bytes@),
        r is Ok ==> r->Ok_0@ == rewritten(
            body_bytes@,
            nyaa_url.spec_bytes(),
            proxy_url.spec_bytes(),
        ),
        r is Err ==> r->Err_0 is BadUtf8,
{
    if !is_valid_utf8(body_bytes) {
        return Err(Error::BadUtf8);
    }
    let replaced = replace_all_bytes(body_bytes, nyaa_url.as_bytes(), proxy_url.as_bytes());
    let injected = injected_fragment(nyaa_url, proxy_url);
    let modified = replace_first_bytes(
        replaced.as_slice(),
        CLOSING_BODY_TAG.as_bytes(),
        injected.as_slice(),
    );
    Ok(modified)
}

} // verus!
