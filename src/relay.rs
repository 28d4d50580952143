use vstd::prelude::*;
use vstd::string::StringSliceAdditionalSpecFns;
use vstd::utf8::valid_utf8;

use crate::config::{required_exclusions, ProxyConfig, CONTENT_TYPE};
use crate::error::Error;
use crate::headers::{
    bytes_are_visible_ascii, bytes_eq_ignore_ascii_case, bytes_start_with_ignore_ascii_case,
    eq_ignore_ascii_case, is_visible_ascii, name_bytes, starts_with_ignore_ascii_case,
    string_bytes, views, Header, HeaderView,
};
use crate::html::{process_html_body, rewritten};

verus! {

/// The media type whose bodies are rewritten.
pub const TEXT_HTML: &'static str = "text/html";

/// The origin's headers that are passed on, in their order.
pub open spec fn relayed(config: &ProxyConfig, hs: Seq<HeaderView>) -> Seq<HeaderView> {
    hs.filter(|h: HeaderView| !config.excludes(h.0))
}

/// A content-type header whose value reads as text decides whether the body is
/// HTML.
pub open spec fn is_readable_content_type(h: HeaderView) -> bool {
    eq_ignore_ascii_case(name_bytes(h.0), CONTENT_TYPE.spec_bytes()) && is_visible_ascii(h.1)
}

/// Whether the headers declare an HTML body: the last readable content-type
/// header decides, by starting with `text/html` in any case.
pub open spec fn declares_html(hs: Seq<HeaderView>) -> bool
    decreases hs.len(),
{
    if hs.len() == 0 {
        false
    } else if is_readable_content_type(hs.last()) {
        starts_with_ignore_ascii_case(hs.last().1, TEXT_HTML.spec_bytes())
    } else {
        declares_html(hs.drop_last())
    }
}

/// The body relayed for an origin body under the given headers.
pub open spec fn relayed_body(config: &ProxyConfig, hs: Seq<HeaderView>, body: Seq<u8>) -> Seq<
    u8,
> {
    if declares_html(hs) {
        rewritten(
            body,
            name_bytes(config.origin_base_url@),
            name_bytes(config.public_base_url@),
        )
    } else {
        body
    }
}

/// A body that is not declared HTML is relayed byte for byte.
pub proof fn lemma_non_html_body_unchanged(config: &ProxyConfig, hs: Seq<HeaderView>, body: Seq<u8>)
    requires
        !declares_html(hs),
    ensures
        relayed_body(config, hs, body) == body,
{
}

/// No required exclusion is ever relayed, in any case, whatever the origin
/// sent.
pub proof fn lemma_excluded_never_relayed(config: &ProxyConfig, hs: Seq<HeaderView>)
    requires
        config.wf(),
    ensures
        forall|i: int, k: int|
            0 <= i < relayed(config, hs).len() && 0 <= k < required_exclusions().len()
                ==> !eq_ignore_ascii_case(
                name_bytes(#[trigger] relayed(config, hs)[i].0),
                name_bytes(#[trigger] required_exclusions()[k]),
            ),
{
    let pred = |h: HeaderView| !config.excludes(h.0);
    assert forall|i: int, k: int|
        0 <= i < relayed(config, hs).len() && 0 <= k < required_exclusions().len() implies !eq_ignore_ascii_case(
        name_bytes(#[trigger] relayed(config, hs)[i].0),
        name_bytes(#[trigger] required_exclusions()[k]),
    ) by {
        hs.lemma_filter_pred(pred, i);
        let name = relayed(config, hs)[i].0;
        assert(config.excludes(required_exclusions()[k]));
        let j = choose|j: int|
            0 <= j < config.excluded_headers@.len() && eq_ignore_ascii_case(
                name_bytes(#[trigger] config.excluded_headers@[j]@),
                name_bytes(required_exclusions()[k]),
            );
        if eq_ignore_ascii_case(name_bytes(name), name_bytes(required_exclusions()[k])) {
            assert(eq_ignore_ascii_case(
                name_bytes(config.excluded_headers@[j]@),
                name_bytes(name),
            ));
            assert(config.excludes(name));
        }
    }
}

/// Every header that is not excluded is relayed with its name and value.
pub proof fn lemma_other_headers_relayed(config: &ProxyConfig, hs: Seq<HeaderView>, i: int)
    requires
        0 <= i < hs.len(),
        !config.excludes(hs[i].0),
    ensures
        relayed(config, hs).contains(hs[i]),
{
    hs.lemma_filter_contains(|h: HeaderView| !config.excludes(h.0), i);
}

proof fn lemma_relayed_position(config: &ProxyConfig, hs: Seq<HeaderView>, i: int)
    requires
        0 <= i < hs.len(),
        !config.excludes(hs[i].0),
    ensures
        relayed(config, hs.subrange(0, i)).len() < relayed(config, hs).len(),
        relayed(config, hs)[relayed(config, hs.subrange(0, i)).len() as int] == hs[i],
    decreases hs.len(),
{
    let rest = hs.drop_last();
    assert(hs =~= rest.push(hs.last()));
    rest.lemma_filter_push(hs.last(), |h: HeaderView| !config.excludes(h.0));
    if i == hs.len() - 1 {
        assert(rest =~= hs.subrange(0, i));
    } else {
        assert(rest.subrange(0, i) =~= hs.subrange(0, i));
        lemma_relayed_position(config, rest, i);
    }
}

proof fn lemma_relayed_prefix_grows(config: &ProxyConfig, hs: Seq<HeaderView>, a: int, b: int)
    requires
        0 <= a <= b <= hs.len(),
    ensures
        relayed(config, hs.subrange(0, a)).len() <= relayed(config, hs.subrange(0, b)).len(),
    decreases b - a,
{
    if a < b {
        lemma_relayed_prefix_grows(config, hs, a, b - 1);
        assert(hs.subrange(0, b) =~= hs.subrange(0, b - 1).push(hs[b - 1]));
        hs.subrange(0, b - 1).lemma_filter_push(hs[b - 1], |h: HeaderView| !config.excludes(h.0));
    }
}

/// Relayed headers keep the order in which the origin sent them.
pub proof fn lemma_relayed_keeps_order(config: &ProxyConfig, hs: Seq<HeaderView>, i: int, j: int)
    requires
        0 <= i < j < hs.len(),
        !config.excludes(hs[i].0),
        !config.excludes(hs[j].0),
    ensures
        exists|p: int, q: int|
            0 <= p < q < relayed(config, hs).len() && relayed(config, hs)[p] == hs[i]
                && relayed(config, hs)[q] == hs[j],
{
    lemma_relayed_position(config, hs, i);
    lemma_relayed_position(config, hs, j);
    lemma_relayed_prefix_grows(config, hs, i + 1, j);
    assert(hs.subrange(0, i + 1) =~= hs.subrange(0, i).push(hs[i]));
    hs.subrange(0, i).lemma_filter_push(hs[i], |h: HeaderView| !config.excludes(h.0));
    let p = relayed(config, hs.subrange(0, i)).len() as int;
    let q = relayed(config, hs.subrange(0, j)).len() as int;
    assert(0 <= p < q < relayed(config, hs).len() && relayed(config, hs)[p] == hs[i]
        && relayed(config, hs)[q] == hs[j]);
}

/// The response handed to the proxy's client.
pub struct ProxiedResponse {
    pub status: u16,
    pub headers: Vec<Header>,
    pub body: Vec<u8>,
}

/// The origin's headers without the excluded ones, in their order.
pub fn relay_headers(config: &ProxyConfig, headers: &Vec<Header>) -> (r: Vec<Header>)
    ensures
        views(r@) == relayed(config, views(headers@)),
        config.wf() ==> forall|i: int, k: int|
            0 <= i < r@.len() && 0 <= k < required_exclusions().len() ==> !eq_ignore_ascii_case(
                name_bytes(#[trigger] r@[i].name@),
                name_bytes(#[trigger] required_exclusions()[k]),
            ),
{
    let mut out: Vec<Header> = Vec::new();
    let mut i: usize = 0;
    while i < headers.len()
        invariant
            i <= headers@.len(),
            views(out@) == relayed(config, views(headers@.subrange(0, i as int))),
        decreases headers@.len() - i,
    {
        let ghost pred = |h: HeaderView| !config.excludes(h.0);
        let ghost before = views(headers@.subrange(0, i as int));
        let ghost out0 = out@;
        assert(views(headers@.subrange(0, i + 1)) =~= before.push(headers@[i as int]@));
        proof {
            before.lemma_filter_push(headers@[i as int]@, pred);
        }
        if !config.is_excluded(&headers[i].name) {
            out.push(headers[i].duplicate());
            assert(views(out@) =~= views(out0).push(headers@[i as int]@));
        } else {
            assert(views(out@) =~= views(out0));
        }
        i = i + 1;
    }
    assert(headers@.subrange(0, headers@.len() as int) =~= headers@);
    proof {
        if config.wf() {
            lemma_excluded_never_relayed(config, views(headers@));
            assert forall|i: int| 0 <= i < out@.len() implies (#[trigger] out@[i]).name@ == views(
                out@,
            )[i].0 by {}
        }
    }
    out
}

/// Whether the headers declare an HTML body.
pub fn is_html(headers: &Vec<Header>) -> (r: bool)
    ensures
        r == declares_html(views(headers@)),
{
    let content_type = CONTENT_TYPE.as_bytes();
    let text_html = TEXT_HTML.as_bytes();
    let mut html = false;
    let mut i: usize = 0;
    assert(views(headers@.subrange(0, 0)) =~= Seq::<HeaderView>::empty());
    while i < headers.len()
        invariant
            i <= headers@.len(),
            content_type@ == CONTENT_TYPE.spec_bytes(),
            text_html@ == TEXT_HTML.spec_bytes(),
            html == declares_html(views(headers@.subrange(0, i as int))),
        decreases headers@.len() - i,
    {
        let ghost before = views(headers@.subrange(0, i as int));
        let ghost after = views(headers@.subrange(0, i + 1));
        assert(after =~= before.push(headers@[i as int]@));
        assert(after.drop_last() =~= before);
        let h = &headers[i];
        if bytes_eq_ignore_ascii_case(string_bytes(&h.name), content_type)
            && bytes_are_visible_ascii(h.value.as_slice()) {
            html = bytes_start_with_ignore_ascii_case(h.value.as_slice(), text_html);
        }
        i = i + 1;
    }
    assert(headers@.subrange(0, headers@.len() as int) =~= headers@);
    html
}

/// Turns the origin's response into the one relayed to the client: the same
/// status, the headers that are not excluded, and the body, rewritten when the
/// headers declare HTML. An HTML body that is not UTF-8 is refused.
pub fn transform_response(
    config: &ProxyConfig,
    status: u16,
    headers: &Vec<Header>,
    body: Vec<u8>,
) -> (r: Result<ProxiedResponse, Error>)
    ensures
        r is Err <==> declares_html(views(headers@)) && !valid_utf8(body@),
        r is Err ==> r->Err_0 is BadUtf8,
        r is Ok ==> r->Ok_0.status == status,
        r is Ok ==> views(r->Ok_0.headers@) == relayed(config, views(headers@)),
        r is Ok && config.wf() ==> forall|i: int, k: int|
            0 <= i < r->Ok_0.headers@.len() && 0 <= k < required_exclusions().len()
                ==> !eq_ignore_ascii_case(
                name_bytes(#[trigger] r->Ok_0.headers@[i].name@),
                name_bytes(#[trigger] required_exclusions()[k]),
            ),
        r is Ok ==> r->Ok_0.body@ == relayed_body(config, views(headers@), body@),
{
    let relayed_headers = relay_headers(config, headers);
    let html = is_html(headers);
    let new_body = if html {
        match process_html_body(
            body.as_slice(),
            config.origin_base_url.as_str(),
            config.public_base_url.as_str(),
        ) {
            Ok(b) => b,
            Err(e) => {
                return Err(e);
            },
        }
    } else {
        body
    };
    Ok(ProxiedResponse { status, headers: relayed_headers, body: new_body })
}

} // verus!
