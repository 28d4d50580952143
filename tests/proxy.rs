use nyaa_proxy::config::{excluded_headers, upstream_url, ProxyConfig};
use nyaa_proxy::error::{gateway_message, Error};
use nyaa_proxy::headers::{
    bytes_are_visible_ascii, bytes_eq_ignore_ascii_case, bytes_start_with_ignore_ascii_case,
    Header,
};
use nyaa_proxy::html::{
    injected_fragment, process_html_body, CLOSING_BODY_TAG, FRAGMENT_HEAD, FRAGMENT_MIDDLE,
    FRAGMENT_TAIL,
};
use nyaa_proxy::relay::{is_html, relay_headers, transform_response};
use nyaa_proxy::rewrite::{replace_all_bytes, replace_first_bytes};

fn header(name: &str, value: &str) -> Header {
    Header::new(name.to_string(), value.as_bytes().to_vec())
}

fn names(hs: &[Header]) -> Vec<String> {
    hs.iter().map(|h| h.name.clone()).collect()
}

fn config(origin: &str, public: &str) -> ProxyConfig {
    ProxyConfig::new(origin.to_string(), public.to_string())
}

fn fragment(origin: &str, public: &str) -> String {
    format!("{}{}{}{}{}", FRAGMENT_HEAD, public, FRAGMENT_MIDDLE, origin, FRAGMENT_TAIL)
}

#[test]
fn html_example_from_origin() {
    let cfg = config("https://nyaa.si", "https://proxy.example");
    let headers = vec![header("content-type", "text/html")];
    let body = b"<html><body>click <a href=\"https://nyaa.si/?page=rss\">rss</a></body></html>".to_vec();
    let r = transform_response(&cfg, 200, &headers, body).ok().unwrap();
    let expected = format!(
        "<html><body>click <a href=\"https://proxy.example/?page=rss\">rss</a>{}</body></html>",
        fragment("https://nyaa.si", "https://proxy.example")
    );
    assert_eq!(String::from_utf8(r.body).unwrap(), expected);
    assert_eq!(r.status, 200);
    assert!(r.headers.is_empty());
}

#[test]
fn fragment_script_restores_origin_url() {
    let f = String::from_utf8(injected_fragment("https://nyaa.si", "https://proxy.example")).unwrap();
    assert!(f.starts_with("<div id=\"snackbar\">Copied link</div>"));
    assert!(f.contains("href.replace(\"https://proxy.example\",\"https://nyaa.si\")"));
    assert!(f.contains("a[href*=\"/?page=rss\"]"));
    assert!(f.ends_with("</script></body>"));
}

#[test]
fn html_without_closing_tag_gets_only_substitution() {
    let body = b"<p>https://nyaa.si/a and https://nyaa.si/b</p>";
    let out = process_html_body(body, "https://nyaa.si", "https://p.example").ok().unwrap();
    assert_eq!(out, b"<p>https://p.example/a and https://p.example/b</p>".to_vec());
}

#[test]
fn fragment_goes_before_first_closing_tag_only() {
    let body = b"a</body>b</body>c";
    let out = process_html_body(body, "x", "y").ok().unwrap();
    let expected = format!("a{}</body>b</body>c", fragment("x", "y"));
    assert_eq!(String::from_utf8(out).unwrap(), expected);
}

#[test]
fn closing_tag_is_case_sensitive() {
    let out = process_html_body(b"a</BODY>", "x", "y").ok().unwrap();
    assert_eq!(out, b"a</BODY>".to_vec());
}

#[test]
fn substitution_is_global_and_idempotent() {
    let once = replace_all_bytes(b"o-o-o", b"o", b"pp");
    assert_eq!(once, b"pp-pp-pp".to_vec());
    let twice = replace_all_bytes(&once, b"o", b"pp");
    assert_eq!(twice, once);
}

#[test]
fn substitution_is_left_to_right_without_overlap() {
    assert_eq!(replace_all_bytes(b"aaa", b"aa", b"b"), b"ba".to_vec());
    assert_eq!(replace_all_bytes(b"", b"aa", b"b"), Vec::<u8>::new());
}

#[test]
fn empty_pattern_inserts_at_every_character() {
    assert_eq!(replace_all_bytes(b"abc", b"", b"-"), b"-a-b-c-".to_vec());
    let s = "a\u{e9}b";
    assert_eq!(
        replace_all_bytes(s.as_bytes(), b"", b"-"),
        s.replace("", "-").into_bytes()
    );
}

#[test]
fn replace_first_replaces_one() {
    assert_eq!(replace_first_bytes(b"xaxa", b"a", b"b"), b"xbxa".to_vec());
    assert_eq!(replace_first_bytes(b"xx", b"a", b"b"), b"xx".to_vec());
    assert_eq!(replace_first_bytes(b"xx", b"", b"b"), b"bxx".to_vec());
}

#[test]
fn non_html_body_is_passed_through() {
    let cfg = config("https://nyaa.si", "https://proxy.example");
    let headers = vec![header("content-type", "application/rss+xml")];
    let body = vec![0xff, 0xfe, b'h', b't', 0x00, b'<'];
    let r = transform_response(&cfg, 203, &headers, body.clone()).ok().unwrap();
    assert_eq!(r.body, body);
    assert_eq!(r.status, 203);

    let text = b"https://nyaa.si/</body>".to_vec();
    let r = transform_response(&cfg, 200, &Vec::new(), text.clone()).ok().unwrap();
    assert_eq!(r.body, text);
}

#[test]
fn malformed_utf8_html_is_refused() {
    let cfg = config("https://nyaa.si", "https://proxy.example");
    let headers = vec![header("Content-Type", "text/html; charset=utf-8")];
    let r = transform_response(&cfg, 200, &headers, vec![b'<', 0xc3, 0x28]);
    match r {
        Err(e) => {
            assert!(matches!(e, Error::BadUtf8));
            assert_eq!(e.status_code(), 500);
            assert_eq!(e.message(), "Unable to parse html page as utf-8");
        }
        Ok(_) => panic!("malformed body accepted"),
    }
}

#[test]
fn excluded_headers_are_dropped_and_others_kept_in_order() {
    let cfg = config("https://nyaa.si", "https://proxy.example");
    let headers = vec![
        header("x-first", "1"),
        header("transfer-encoding", "chunked"),
        header("Content-Type", "text/plain"),
        header("set-cookie", "a=b"),
        header("content-length", "10"),
        header("CONTENT-ENCODING", "gzip"),
        header("cache-control", "max-age=60"),
        header("x-last", "2"),
    ];
    let out = relay_headers(&cfg, &headers);
    assert_eq!(names(&out), vec!["x-first", "set-cookie", "x-last"]);
    assert_eq!(out[1].value, b"a=b".to_vec());
    assert_eq!(out[2].value, b"2".to_vec());
}

#[test]
fn default_exclusions() {
    let names = excluded_headers();
    assert_eq!(
        names,
        vec![
            "transfer-encoding",
            "content-type",
            "content-length",
            "content-encoding",
            "cache-control"
        ]
    );
    let cfg = config("a", "b");
    assert!(cfg.is_excluded(&"Cache-Control".to_string()));
    assert!(!cfg.is_excluded(&"etag".to_string()));
}

#[test]
fn html_detection() {
    assert!(is_html(&vec![header("content-type", "TEXT/HTML; charset=utf-8")]));
    assert!(!is_html(&vec![header("content-type", "text/plain")]));
    assert!(!is_html(&vec![header("x-content-type", "text/html")]));
    assert!(!is_html(&vec![
        header("content-type", "text/html"),
        header("content-type", "text/css"),
    ]));
    let unreadable = Header::new("content-type".to_string(), vec![b't', 0x80]);
    assert!(is_html(&vec![header("content-type", "text/html"), unreadable]));
    assert!(!is_html(&vec![header("content-type", "text/htm")]));
}

#[test]
fn byte_helpers() {
    assert!(bytes_eq_ignore_ascii_case(b"Content-Type", b"content-type"));
    assert!(!bytes_eq_ignore_ascii_case(b"content-typ", b"content-type"));
    assert!(bytes_start_with_ignore_ascii_case(b"Text/HTMLx", b"text/html"));
    assert!(bytes_are_visible_ascii(b"a b\tc"));
    assert!(!bytes_are_visible_ascii(b"a\nb"));
}

#[test]
fn upstream_url_appends_target_verbatim() {
    assert_eq!(upstream_url("https://nyaa.si", "/?page=rss&q=a"), "https://nyaa.si/?page=rss&q=a");
    assert_eq!(upstream_url("https://nyaa.si", "/../x"), "https://nyaa.si/../x");
}

#[test]
fn error_statuses_and_messages() {
    assert_eq!(Error::ReadFailure.status_code(), 500);
    assert_eq!(Error::ReadFailure.message(), "Unable to read response");
    assert_eq!(Error::CreateResponseFailure.status_code(), 500);
    assert_eq!(Error::CreateResponseFailure.message(), "Unable to create response");
    assert_eq!(gateway_message("timed out"), "Unable to connect to nyaa: timed out");
}

#[test]
fn unreachable_origin_is_bad_gateway() {
    let err = reqwest::Client::new().get("not a url").build().err().unwrap();
    let text = err.to_string();
    let e = Error::BadGateway(err.to_string());
    assert_eq!(e.status_code(), 502);
    assert_eq!(e.description(), "Unable to connect to nyaa");
    assert_eq!(e.message(), format!("Unable to connect to nyaa: {}", text));
    assert!(text.len() > 0);
}

#[test]
fn closing_tag_constant() {
    assert_eq!(CLOSING_BODY_TAG, "</body>");
}
