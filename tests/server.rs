use hw_http::handler::{on_bytes, on_file, on_inspected, on_listing, route, Action};
use hw_http::listing::{listing_response, render_listing, DirEntry};
use hw_http::mime::{bytes_eq, get_mime_type};
use hw_http::request::{parse_request, Method, ParseError};
use hw_http::response::{
    end_headers, file_response_head, html_response, not_found_response, send_header,
    start_response, Status,
};
use hw_http::target::{index_path, resolve_request_path, resolve_target, FsKind, Target};
use hw_http::text::{append_bytes, push_decimal};

fn segs(parts: &[&str]) -> Vec<Vec<u8>> {
    parts.iter().map(|p| p.as_bytes().to_vec()).collect()
}

fn text(b: &[u8]) -> String {
    String::from_utf8(b.to_vec()).unwrap()
}

const NOT_FOUND: &str = "HTTP/1.1 404 Not Found\r\nContent-Type: text/html\r\nContent-Length: 0\r\n\r\n";

fn sent(a: Action) -> String {
    match a {
        Action::Send(b) => text(&b),
        _ => panic!("expected bytes to send"),
    }
}

#[test]
fn parses_simple_get() {
    let buf = b"GET /index.html HTTP/1.1\r\nHost: example.com\r\n\r\n";
    let (req, n) = parse_request(buf).unwrap().unwrap();
    assert!(matches!(req.method, Method::Get));
    assert_eq!(req.path, b"/index.html".to_vec());
    assert_eq!(req.headers.len(), 1);
    assert_eq!(req.headers[0].name, b"Host".to_vec());
    assert_eq!(req.headers[0].value, b"example.com".to_vec());
    assert_eq!(n, buf.len());
}

#[test]
fn header_values_are_trimmed_and_kept_in_order() {
    let buf = b"GET / HTTP/1.0\r\nA:  one \t\r\nb:two\r\nEmpty:\r\n\r\nbody";
    let (req, n) = parse_request(buf).unwrap().unwrap();
    assert_eq!(n, buf.len() - 4);
    let hs: Vec<(String, String)> =
        req.headers.iter().map(|h| (text(&h.name), text(&h.value))).collect();
    assert_eq!(
        hs,
        vec![
            ("A".to_string(), "one".to_string()),
            ("b".to_string(), "two".to_string()),
            ("Empty".to_string(), "".to_string())
        ]
    );
}

#[test]
fn other_methods_are_kept() {
    let (req, _) = parse_request(b"POST /x HTTP/1.1\r\n\r\n").unwrap().unwrap();
    match req.method {
        Method::Other(m) => assert_eq!(m, b"POST".to_vec()),
        Method::Get => panic!("not a GET"),
    }
    let (req, _) = parse_request(b"get /x HTTP/1.1\r\n\r\n").unwrap().unwrap();
    assert!(matches!(req.method, Method::Other(_)));
}

#[test]
fn incomplete_heads_ask_for_more() {
    assert!(matches!(parse_request(b""), Ok(None)));
    assert!(matches!(parse_request(b"GET / HTTP/1.1"), Ok(None)));
    assert!(matches!(parse_request(b"GET / HTTP/1.1\r\nHost: a\r\n"), Ok(None)));
    assert!(matches!(parse_request(b"GET / HTTP/1.1\r\nHost: a\r\n\r"), Ok(None)));
}

#[test]
fn malformed_request_lines_are_refused() {
    for line in [
        "GET /\r\n\r\n",
        "GET  / HTTP/1.1\r\n\r\n",
        "GET / HTTP/1.1 extra\r\n\r\n",
        "GET index.html HTTP/1.1\r\n\r\n",
        "GET / FTP/1.1\r\n\r\n",
        " / HTTP/1.1\r\n\r\n",
        "\r\n\r\n",
    ] {
        assert_eq!(
            parse_request(line.as_bytes()).err(),
            Some(ParseError::MalformedRequestLine),
            "{:?}",
            line
        );
    }
}

#[test]
fn header_without_colon_is_refused() {
    let r = parse_request(b"GET / HTTP/1.1\r\nHost example.com\r\n");
    assert_eq!(r.err(), Some(ParseError::MalformedHeader));
}

#[test]
fn paths_resolve_to_segments() {
    assert_eq!(resolve_request_path(b"/"), Some(vec![]));
    assert_eq!(resolve_request_path(b"/docs/a.txt"), Some(segs(&["docs", "a.txt"])));
    assert_eq!(resolve_request_path(b"/docs/"), Some(segs(&["docs"])));
    assert_eq!(resolve_request_path(b"//a/./b//c"), Some(segs(&["a", "b", "c"])));
    assert_eq!(resolve_request_path(b"/a..b/.c"), Some(segs(&["a..b", ".c"])));
}

#[test]
fn traversal_is_refused() {
    assert_eq!(resolve_request_path(b"/../secret"), None);
    assert_eq!(resolve_request_path(b"/docs/../../secret"), None);
    assert_eq!(resolve_request_path(b"/docs/.."), None);
    assert_eq!(resolve_request_path(b"/%2e%2e/secret"), None);
    assert_eq!(resolve_request_path(b"/a\\..\\b"), None);
    let a = on_bytes(b"GET /../secret HTTP/1.1\r\n\r\n", false);
    assert_eq!(sent(a), NOT_FOUND);
}

#[test]
fn mime_types_follow_the_extension() {
    assert_eq!(get_mime_type(b"index.html"), "text/html");
    assert_eq!(get_mime_type(b"PAGE.HTM"), "text/html");
    assert_eq!(get_mime_type(b"a.txt"), "text/plain");
    assert_eq!(get_mime_type(b"style.css"), "text/css");
    assert_eq!(get_mime_type(b"photo.JpEg"), "image/jpeg");
    assert_eq!(get_mime_type(b"archive.tar.gz"), "application/octet-stream");
    assert_eq!(get_mime_type(b"README"), "application/octet-stream");
    assert_eq!(get_mime_type(b"dot."), "application/octet-stream");
}

#[test]
fn decimal_digits() {
    let mut out = b"n=".to_vec();
    push_decimal(&mut out, 0);
    assert_eq!(out, b"n=0".to_vec());
    let mut out = Vec::new();
    push_decimal(&mut out, 1024);
    assert_eq!(out, b"1024".to_vec());
    let mut out = Vec::new();
    push_decimal(&mut out, u64::MAX);
    assert_eq!(out, b"18446744073709551615".to_vec());
    let mut out = b"ab".to_vec();
    append_bytes(&mut out, b"cd");
    assert_eq!(out, b"abcd".to_vec());
    assert!(bytes_eq(b"abc", b"abc"));
    assert!(!bytes_eq(b"abc", b"abd"));
}

#[test]
fn response_head_is_framed_in_order() {
    let mut out = Vec::new();
    start_response(&mut out, Status::Success);
    send_header(&mut out, b"X-A", b"1");
    send_header(&mut out, b"X-B", b"two");
    end_headers(&mut out);
    assert_eq!(text(&out), "HTTP/1.1 200 OK\r\nX-A: 1\r\nX-B: two\r\n\r\n");
    assert_eq!(Status::Success.code(), 200);
    assert_eq!(Status::NotFound.code(), 404);
}

#[test]
fn not_found_response_is_exact() {
    assert_eq!(text(&not_found_response()), NOT_FOUND);
}

#[test]
fn file_head_carries_type_and_length() {
    let h = file_response_head(b"a.txt", 5);
    assert_eq!(
        text(&h),
        "HTTP/1.1 200 OK\r\nContent-Type: text/plain\r\nContent-Length: 5\r\n\r\n"
    );
    let h = file_response_head(b"blob", 0);
    assert_eq!(
        text(&h),
        "HTTP/1.1 200 OK\r\nContent-Type: application/octet-stream\r\nContent-Length: 0\r\n\r\n"
    );
}

#[test]
fn html_response_counts_its_body() {
    let r = html_response(Status::Success, b"<p>hi</p>");
    assert_eq!(
        text(&r),
        "HTTP/1.1 200 OK\r\nContent-Type: text/html\r\nContent-Length: 9\r\n\r\n<p>hi</p>"
    );
}

#[test]
fn listing_links_children_then_parent() {
    let entries = vec![
        DirEntry { name: b"a.txt".to_vec(), is_dir: false },
        DirEntry { name: b"sub".to_vec(), is_dir: true },
    ];
    let body = render_listing(&segs(&["docs", "x"]), &entries);
    assert_eq!(
        text(&body),
        "<a href=\"/docs/x/a.txt\">a.txt</a><br>\n\
         <a href=\"/docs/x/sub/\">sub/</a><br>\n\
         <a href=\"/docs/\">..</a><br>\n"
    );
    let root = render_listing(&vec![], &vec![]);
    assert_eq!(text(&root), "<a href=\"/\">..</a><br>\n");
}

#[test]
fn targets_follow_metadata() {
    let t = resolve_target(segs(&["a.txt"]), FsKind::File, FsKind::Missing);
    assert!(matches!(t, Target::File(p) if p == segs(&["a.txt"])));
    let t = resolve_target(segs(&["d"]), FsKind::Directory, FsKind::File);
    assert!(matches!(t, Target::File(p) if p == segs(&["d", "index.html"])));
    let t = resolve_target(segs(&["d"]), FsKind::Directory, FsKind::Directory);
    assert!(matches!(t, Target::Directory(p) if p == segs(&["d"])));
    let t = resolve_target(segs(&["d"]), FsKind::Missing, FsKind::File);
    assert!(matches!(t, Target::Missing));
    assert_eq!(index_path(&vec![]), segs(&["index.html"]));
}

#[test]
fn missing_paths_are_not_found_for_any_method() {
    for buf in ["GET /missing HTTP/1.1\r\n\r\n", "POST /missing HTTP/1.1\r\nX: y\r\n\r\n"] {
        let a = on_bytes(buf.as_bytes(), false);
        let a = match a {
            Action::Inspect(p) => on_inspected(p, FsKind::Missing, FsKind::Missing),
            other => other,
        };
        assert_eq!(sent(a), NOT_FOUND);
    }
}

#[test]
fn handler_reads_until_the_head_is_complete() {
    assert!(matches!(on_bytes(b"GET / HT", false), Action::Read));
    assert_eq!(sent(on_bytes(b"GET / HT", true)), NOT_FOUND);
    assert_eq!(sent(on_bytes(b"BAD\r\n", false)), NOT_FOUND);
    assert_eq!(sent(on_bytes(b"GET / HTTP/1.1\r\nnocolon\r\n", false)), NOT_FOUND);
}

#[test]
fn route_needs_get_and_a_plain_path() {
    let (req, _) = parse_request(b"GET /a/b HTTP/1.1\r\n\r\n").unwrap().unwrap();
    assert_eq!(route(&req), Some(segs(&["a", "b"])));
    let (req, _) = parse_request(b"HEAD /a/b HTTP/1.1\r\n\r\n").unwrap().unwrap();
    assert_eq!(route(&req), None);
    let (req, _) = parse_request(b"GET /a/../b HTTP/1.1\r\n\r\n").unwrap().unwrap();
    assert_eq!(route(&req), None);
}

#[test]
fn failed_reads_fall_back_to_not_found() {
    assert_eq!(sent(on_file(segs(&["gone.txt"]), None)), NOT_FOUND);
    assert_eq!(sent(on_listing(&segs(&["gone"]), None)), NOT_FOUND);
}

fn file_head_for(buf: &[u8], kind: FsKind, index_kind: FsKind, size: u64) -> (Vec<u8>, Vec<Vec<u8>>) {
    let p = match on_bytes(buf, false) {
        Action::Inspect(p) => p,
        _ => panic!("expected a lookup"),
    };
    let f = match on_inspected(p, kind, index_kind) {
        Action::OpenFile(f) => f,
        _ => panic!("expected a file"),
    };
    match on_file(f, Some(size)) {
        Action::SendFile(h, f) => (h, f),
        _ => panic!("expected a file response"),
    }
}

#[test]
fn directory_with_index_is_served_as_the_index() {
    let via_dir = file_head_for(b"GET / HTTP/1.1\r\n\r\n", FsKind::Directory, FsKind::File, 12);
    let direct = file_head_for(b"GET /index.html HTTP/1.1\r\n\r\n", FsKind::File, FsKind::Missing, 12);
    assert_eq!(via_dir, direct);
    assert_eq!(via_dir.1, segs(&["index.html"]));
}

#[test]
fn repeated_requests_get_identical_responses() {
    let a = file_head_for(b"GET /docs/a.txt HTTP/1.1\r\n\r\n", FsKind::File, FsKind::Missing, 5);
    let b = file_head_for(b"GET /docs/a.txt HTTP/1.1\r\n\r\n", FsKind::File, FsKind::Missing, 5);
    assert_eq!(a, b);
    let entries = || vec![DirEntry { name: b"a.txt".to_vec(), is_dir: false }];
    assert_eq!(listing_response(&segs(&["docs"]), &entries()), listing_response(&segs(&["docs"]), &entries()));
}

#[test]
fn sample_tree_scenario() {
    let (h, p) = file_head_for(b"GET / HTTP/1.1\r\n\r\n", FsKind::Directory, FsKind::File, 12);
    assert_eq!(text(&h), "HTTP/1.1 200 OK\r\nContent-Type: text/html\r\nContent-Length: 12\r\n\r\n");
    assert_eq!(p, segs(&["index.html"]));

    let (h, p) = file_head_for(b"GET /docs/a.txt HTTP/1.1\r\n\r\n", FsKind::File, FsKind::Missing, 5);
    assert_eq!(text(&h), "HTTP/1.1 200 OK\r\nContent-Type: text/plain\r\nContent-Length: 5\r\n\r\n");
    assert_eq!(p, segs(&["docs", "a.txt"]));

    let a = match on_bytes(b"GET /missing HTTP/1.1\r\n\r\n", false) {
        Action::Inspect(p) => on_inspected(p, FsKind::Missing, FsKind::Missing),
        other => other,
    };
    assert_eq!(sent(a), NOT_FOUND);

    let d = match on_bytes(b"GET /docs/ HTTP/1.1\r\n\r\n", false) {
        Action::Inspect(p) => match on_inspected(p, FsKind::Directory, FsKind::Missing) {
            Action::ListDir(d) => d,
            _ => panic!("expected a listing"),
        },
        _ => panic!("expected a lookup"),
    };
    let entries = vec![DirEntry { name: b"a.txt".to_vec(), is_dir: false }];
    let body = "<a href=\"/docs/a.txt\">a.txt</a><br>\n<a href=\"/\">..</a><br>\n";
    assert_eq!(
        sent(on_listing(&d, Some(entries))),
        format!(
            "HTTP/1.1 200 OK\r\nContent-Type: text/html\r\nContent-Length: {}\r\n\r\n{}",
            body.len(),
            body
        )
    );
}

#[test]
fn header_lookup_ignores_case() {
    let buf = b"GET / HTTP/1.1\r\nHost: a\r\nX-Tag: one\r\nx-tag: two\r\n\r\n";
    let (req, _) = parse_request(buf).unwrap().unwrap();
    assert_eq!(req.header(b"HOST"), Some(&b"a".to_vec()));
    assert_eq!(req.header(b"x-TAG"), Some(&b"one".to_vec()));
    assert_eq!(req.header(b"Accept"), None);
    assert!(hw_http::request::eq_ignore_case(b"Content-Length", b"content-length"));
    assert!(!hw_http::request::eq_ignore_case(b"Host", b"Hos"));
}


#[test]
fn listing_escapes_names() {
    let entries = vec![DirEntry { name: b"<a href=\"x".to_vec(), is_dir: false }];
    let body = text(&render_listing(&segs(&["q&a"]), &entries));
    assert_eq!(
        body,
        "<a href=\"/q&amp;a/&lt;a href=&quot;x\">&lt;a href=&quot;x</a><br>\n\
         <a href=\"/\">..</a><br>\n"
    );
    assert_eq!(body.matches("<a ").count(), 2);
    let mut out = Vec::new();
    hw_http::listing::push_escaped(&mut out, b"a>b");
    assert_eq!(text(&out), "a&gt;b");
}
