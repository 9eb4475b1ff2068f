use http_server::bytes::{decimal_bytes, eq_ignore_ascii_case, trim_bytes};
use http_server::dispatch::{
    decide, file_extension, file_response, mime_type, plan_request, FileRead, Next, Plan,
    ServerConfig, Target,
};
use http_server::path::resolve_path;
use http_server::request::{
    find_host, header_line, is_blank, parse_host_address, parse_request_line, wants_close,
};
use http_server::response::{build_error_response, build_http_response};
use http_server::session::{Action, Event, Session, KEEP_ALIVE_TIMEOUT_MS, MAX_REQUESTS_PER_CONNECTION};
use http_server::status::{from_status, Status};

const BASE: &[u8] = b"/srv/www";

fn vhost(port: u16) -> ServerConfig {
    ServerConfig { virtual_hosting: true, port }
}

fn headers(lines: &[&str]) -> Vec<Vec<u8>> {
    lines.iter().map(|l| l.as_bytes().to_vec()).collect()
}

fn reply(p: Plan) -> Vec<u8> {
    match p {
        Plan::Reply(b) => b,
        Plan::Lookup(_) => panic!("expected a reply"),
    }
}

fn lookup(p: Plan) -> Target {
    match p {
        Plan::Lookup(t) => t,
        Plan::Reply(b) => panic!("expected a lookup, got {}", String::from_utf8_lossy(&b)),
    }
}

fn text(b: &[u8]) -> String {
    String::from_utf8(b.to_vec()).unwrap()
}

fn error_page(reason: &str) -> String {
    format!(
        "<!DOCTYPE html>\n<html lang=\"en\">\n<head><meta charset=\"utf-8\"><title>{0}</title></head>\n<body>\n<h1>{0}</h1>\n</body>\n</html>",
        reason
    )
}

#[test]
fn html_file_is_served() {
    let hs = headers(&["Host: example.com"]);
    let t = lookup(plan_request(vhost(8080), Some(BASE), b"GET /index.html HTTP/1.1\r\n", &hs));
    assert_eq!(t.path, b"/srv/www/example.com/index.html".to_vec());
    let f = match decide(&t, false) {
        Next::Read(f) => f,
        Next::Reply(_) => panic!("expected a read"),
    };
    assert!(f.as_text);
    assert_eq!(f.content_type, "text/html; charset=utf-8");
    let r = file_response(&f, Some(b"<h1>Hi</h1>".to_vec()));
    assert_eq!(
        text(&r),
        "HTTP/1.1 200 OK\r\nContent-Type: text/html; charset=utf-8\r\nContent-Length: 11\r\n\r\n<h1>Hi</h1>"
    );
}

#[test]
fn traversal_is_forbidden() {
    let hs = headers(&["Host: example.com"]);
    let r = reply(plan_request(vhost(8080), Some(BASE), b"GET /../../etc/passwd HTTP/1.1\r\n", &hs));
    assert!(text(&r).starts_with("HTTP/1.1 403 Forbidden\r\n"));
}

#[test]
fn directory_redirects_to_index() {
    let hs = headers(&["Host: example.com:9000"]);
    let t = lookup(plan_request(vhost(9000), Some(BASE), b"GET / HTTP/1.1\r\n", &hs));
    assert_eq!(t.path, b"/srv/www/example.com".to_vec());
    let r = match decide(&t, true) {
        Next::Reply(b) => text(&b),
        Next::Read(_) => panic!("expected a reply"),
    };
    assert!(r.starts_with("HTTP/1.1 301 Moved Permanently\r\n"));
    assert!(r.contains("\r\nLocation: http://example.com:9000/index.html\r\n"));
}

#[test]
fn post_is_not_implemented() {
    let hs = headers(&["Host: example.com"]);
    let r = reply(plan_request(vhost(8080), Some(BASE), b"POST /x HTTP/1.1\r\n", &hs));
    assert!(text(&r).starts_with("HTTP/1.1 501 Not Implemented\r\n"));
}

#[test]
fn missing_host_is_bad_request() {
    let hs = headers(&["Accept: */*"]);
    let r = reply(plan_request(vhost(8080), Some(BASE), b"GET /x HTTP/1.1\r\n", &hs));
    assert!(text(&r).starts_with("HTTP/1.1 400 Bad Request\r\n"));
}

#[test]
fn unknown_extension_is_octet_stream() {
    let hs = headers(&["Host: example.com"]);
    let t = lookup(plan_request(vhost(8080), Some(BASE), b"GET /file.xyz HTTP/1.1\r\n", &hs));
    let f = match decide(&t, false) {
        Next::Read(f) => f,
        Next::Reply(_) => panic!("expected a read"),
    };
    assert!(!f.as_text);
    let r = text(&file_response(&f, Some(b"abc".to_vec())));
    assert_eq!(
        r,
        "HTTP/1.1 200 OK\r\nContent-Type: application/octet-stream\r\nContent-Length: 3\r\n\r\nabc"
    );
}

#[test]
fn file_inside_base_keeps_its_bytes() {
    let hs = headers(&["Host: example.com"]);
    let t = lookup(plan_request(vhost(80), Some(BASE), b"GET /a/./b/../img.PNG HTTP/1.1", &hs));
    assert_eq!(t.path, b"/srv/www/example.com/a/img.PNG".to_vec());
    let f = match decide(&t, false) {
        Next::Read(f) => f,
        Next::Reply(_) => panic!("expected a read"),
    };
    assert_eq!(f.content_type, "image/png");
    let body: Vec<u8> = vec![0, 159, 146, 150, 13, 10];
    let r = file_response(&f, Some(body.clone()));
    let head = b"HTTP/1.1 200 OK\r\nContent-Type: image/png\r\nContent-Length: 6\r\n\r\n".to_vec();
    assert_eq!(r[..head.len()].to_vec(), head);
    assert_eq!(r[head.len()..].to_vec(), body);
}

#[test]
fn climbing_out_is_forbidden_even_after_descending() {
    let hs = headers(&["Host: example.com"]);
    for line in [
        "GET /.. HTTP/1.1",
        "GET /a/../../example.com/x.html HTTP/1.1",
        "GET ../x.html HTTP/1.1",
        "GET //a/b/../../../c.txt HTTP/1.1",
    ] {
        let r = reply(plan_request(vhost(80), Some(BASE), line.as_bytes(), &hs));
        assert!(text(&r).starts_with("HTTP/1.1 403 Forbidden\r\n"), "{}", line);
    }
}

#[test]
fn missing_base_directory_is_forbidden() {
    let hs = headers(&["Host: example.com"]);
    let r = reply(plan_request(vhost(80), None, b"GET /x.html HTTP/1.1", &hs));
    assert!(text(&r).starts_with("HTTP/1.1 403 Forbidden\r\n"));
}

#[test]
fn unusable_host_is_bad_request_with_virtual_hosting() {
    for h in ["Host: ..", "Host: .", "Host: ", "Host: http://:80"] {
        let hs = headers(&[h]);
        let r = reply(plan_request(vhost(80), Some(BASE), b"GET /x.html HTTP/1.1", &hs));
        assert!(text(&r).starts_with("HTTP/1.1 400 Bad Request\r\n"), "{}", h);
    }
}

#[test]
fn single_tenant_mode_skips_host_directory() {
    let cfg = ServerConfig { virtual_hosting: false, port: 8000 };
    let hs = headers(&["host: HTTP://ignored/x"]);
    let t = lookup(plan_request(cfg, Some(BASE), b"GET /docs/a.txt HTTP/1.1", &hs));
    assert_eq!(t.path, b"/srv/www/docs/a.txt".to_vec());
    assert_eq!(t.url_base, b"http://HTTP:8000".to_vec());
}

#[test]
fn malformed_request_lines_are_not_implemented() {
    let hs = headers(&["Host: example.com"]);
    for line in [
        "GET /x HTTP/1.0",
        "GET  /x HTTP/1.1",
        "GET /x  HTTP/1.1",
        "get /x HTTP/1.1",
        "GET HTTP/1.1",
        "GET /a b HTTP/1.1",
    ] {
        let r = reply(plan_request(vhost(80), Some(BASE), line.as_bytes(), &hs));
        assert!(text(&r).starts_with("HTTP/1.1 501 Not Implemented\r\n"), "{}", line);
    }
}

#[test]
fn request_line_parsing() {
    assert_eq!(parse_request_line(b"  GET /a/b HTTP/1.1\r\n"), Some(b"/a/b".to_vec()));
    assert_eq!(parse_request_line(b"GET  HTTP/1.1"), Some(Vec::new()));
    assert_eq!(parse_request_line(b"GET /x HTTP/1.1 extra"), None);
    assert_eq!(parse_request_line(b""), None);
}

#[test]
fn host_header_parsing() {
    assert_eq!(parse_host_address(b"Host: example.com"), Some(b"example.com".to_vec()));
    assert_eq!(parse_host_address(b"HOST: example.com:9000"), Some(b"example.com".to_vec()));
    assert_eq!(
        parse_host_address(b"Host: http://example.com:81/path"),
        Some(b"example.com".to_vec())
    );
    assert_eq!(parse_host_address(b"Host: a.org/x:1"), Some(b"a.org".to_vec()));
    assert_eq!(parse_host_address(b"Hostname: x"), None);
    assert_eq!(parse_host_address(b"Host:x"), None);
    let hs = headers(&["Accept: */*", "Host: first", "Host: second"]);
    assert_eq!(find_host(&hs), Some(b"first".to_vec()));
    assert_eq!(find_host(&headers(&[])), None);
}

#[test]
fn header_lines_and_close() {
    assert_eq!(header_line(b"  Host: a \r\n"), Some(b"Host: a".to_vec()));
    assert_eq!(header_line(b"\r\n"), None);
    assert!(is_blank(b" \t\r\n"));
    assert!(!is_blank(b"x\r\n"));
    assert!(wants_close(&headers(&["Host: a", "connection: CLOSE"])));
    assert!(!wants_close(&headers(&["Connection: keep-alive", "Connection: close now"])));
}

#[test]
fn path_resolution() {
    assert_eq!(resolve_path(b"/b", None, b"/x/./y//z"), Some(b"/b/x/y/z".to_vec()));
    assert_eq!(resolve_path(b"/b", Some(b"h"), b"x/.."), Some(b"/b/h".to_vec()));
    assert_eq!(resolve_path(b"/b", Some(b"h"), b"/"), Some(b"/b/h".to_vec()));
    assert_eq!(resolve_path(b"/b", Some(b"h"), b"x/../.."), None);
    assert_eq!(resolve_path(b"/b", None, b"..."), Some(b"/b/...".to_vec()));
}

#[test]
fn extensions_and_types() {
    assert_eq!(file_extension(b"/a/b.tar.gz"), Some(b"gz".to_vec()));
    assert_eq!(file_extension(b"/a/.hidden"), None);
    assert_eq!(file_extension(b"/a.d/readme"), None);
    assert_eq!(file_extension(b"/a/x."), Some(Vec::new()));
    assert_eq!(mime_type(b"JPEG"), "image/jpeg");
    assert_eq!(mime_type(b"jpg"), "image/jpeg");
    assert_eq!(mime_type(b"js"), "application/javascript");
    assert_eq!(mime_type(b"txt"), "text/plain; charset=utf-8");
    assert_eq!(mime_type(b"bin"), "application/octet-stream");
    assert_eq!(mime_type(b"html"), "application/octet-stream");
}

#[test]
fn uppercase_html_is_read_as_bytes() {
    let t = Target { path: b"/b/page.HTML".to_vec(), resource: b"/page.HTML".to_vec(), url_base: Vec::new() };
    match decide(&t, false) {
        Next::Read(f) => {
            assert!(!f.as_text);
            assert_eq!(f.content_type, "application/octet-stream");
        }
        Next::Reply(_) => panic!("expected a read"),
    }
}

#[test]
fn no_extension_is_not_found() {
    let t = Target { path: b"/b/README".to_vec(), resource: b"/README".to_vec(), url_base: Vec::new() };
    match decide(&t, false) {
        Next::Reply(b) => assert!(text(&b).starts_with("HTTP/1.1 404 Not Found\r\n")),
        Next::Read(_) => panic!("expected a reply"),
    }
}

#[test]
fn read_failure_is_server_error() {
    let f = FileRead { as_text: false, content_type: "image/png" };
    let r = text(&file_response(&f, None));
    let page = error_page("Internal Server Error");
    assert_eq!(
        r,
        format!(
            "HTTP/1.1 500 Internal Server Error\r\nContent-Type: text/html; charset=utf-8\r\nContent-Length: {}\r\n\r\n{}",
            page.len(),
            page
        )
    );
}

#[test]
fn redirect_keeps_trailing_slash() {
    let t = Target { path: b"/b/h/docs".to_vec(), resource: b"/docs/".to_vec(), url_base: b"http://h:1".to_vec() };
    match decide(&t, true) {
        Next::Reply(b) => assert!(text(&b).contains("\r\nLocation: http://h:1/docs/index.html\r\n")),
        Next::Read(_) => panic!("expected a reply"),
    }
    let t = Target { path: b"/b/h/docs".to_vec(), resource: b"/docs".to_vec(), url_base: b"http://h:1".to_vec() };
    match decide(&t, true) {
        Next::Reply(b) => assert!(text(&b).contains("\r\nLocation: http://h:1/docs/index.html\r\n")),
        Next::Read(_) => panic!("expected a reply"),
    }
}

#[test]
fn synthesized_redirect_body_is_counted() {
    let url = "http://h:1/index.html";
    let r = text(&build_http_response(
        Status::MovedPermanently(url.as_bytes().to_vec()),
        "text/html; charset=utf-8",
        Vec::new(),
    ));
    let page = format!(
        "<!DOCTYPE html>\n<html lang=\"en\">\n<head><meta charset=\"utf-8\"><title>Moved Permanently</title></head>\n<body>\n<h1>Moved Permanently</h1>\n<p>The document has moved <a href=\"{}\">here</a>.</p>\n</body>\n</html>",
        url
    );
    assert_eq!(
        r,
        format!(
            "HTTP/1.1 301 Moved Permanently\r\nLocation: {}\r\nContent-Type: text/html; charset=utf-8\r\nContent-Length: {}\r\n\r\n{}",
            url,
            page.len(),
            page
        )
    );
}

#[test]
fn explicit_redirect_body_is_kept() {
    let r = text(&build_http_response(Status::MovedPermanently(b"/y".to_vec()), "text/plain", b"see /y".to_vec()));
    assert_eq!(r, "HTTP/1.1 301 Moved Permanently\r\nLocation: /y\r\nContent-Type: text/plain\r\nContent-Length: 6\r\n\r\nsee /y");
}

#[test]
fn error_responses_carry_their_page() {
    for (st, code, reason) in [
        (Status::BadRequest, 400, "Bad Request"),
        (Status::Forbidden, 403, "Forbidden"),
        (Status::PageNotFound, 404, "Not Found"),
        (Status::InternalServerError, 500, "Internal Server Error"),
        (Status::NotImplemented, 501, "Not Implemented"),
    ] {
        let r = text(&build_error_response(st));
        let page = error_page(reason);
        assert_eq!(
            r,
            format!(
                "HTTP/1.1 {} {}\r\nContent-Type: text/html; charset=utf-8\r\nContent-Length: {}\r\n\r\n{}",
                code,
                reason,
                page.len(),
                page
            )
        );
    }
}

#[test]
fn empty_success_body_stays_empty() {
    let r = text(&build_http_response(Status::Success, "text/plain", Vec::new()));
    assert_eq!(r, "HTTP/1.1 200 OK\r\nContent-Type: text/plain\r\nContent-Length: 0\r\n\r\n");
}

#[test]
fn status_codes_and_reasons() {
    assert_eq!(from_status(&Status::Success), (200, "OK"));
    assert_eq!(from_status(&Status::MovedPermanently(Vec::new())), (301, "Moved Permanently"));
    assert_eq!(from_status(&Status::BadRequest), (400, "Bad Request"));
    assert_eq!(from_status(&Status::Forbidden), (403, "Forbidden"));
    assert_eq!(from_status(&Status::PageNotFound), (404, "Not Found"));
    assert_eq!(from_status(&Status::InternalServerError), (500, "Internal Server Error"));
    assert_eq!(from_status(&Status::NotImplemented), (501, "Not Implemented"));
}

#[test]
fn byte_helpers() {
    assert_eq!(decimal_bytes(0), b"0".to_vec());
    assert_eq!(decimal_bytes(1234567), b"1234567".to_vec());
    assert_eq!(decimal_bytes(usize::MAX), usize::MAX.to_string().into_bytes());
    assert_eq!(trim_bytes(b" \t a b \r\n"), b"a b".to_vec());
    assert!(eq_ignore_ascii_case(b"AbC", b"aBc"));
    assert!(!eq_ignore_ascii_case(b"abc", b"abd"));
}

#[test]
fn session_serves_until_cap() {
    let mut s = Session::new(2, KEEP_ALIVE_TIMEOUT_MS);
    assert_eq!(s.idle_timeout_ms(), 1000);
    let hs = headers(&["Host: a"]);
    for k in 0..2u32 {
        assert!(s.action() == Action::ReadRequestLine);
        assert!(s.step(Event::RequestLine(b"GET / HTTP/1.1\r\n")) == Action::ReadHeaders);
        assert!(s.step(Event::Headers(&hs)) == Action::Respond);
        let next = s.step(Event::Sent);
        assert_eq!(s.served(), k + 1);
        if k == 0 {
            assert!(next == Action::ReadRequestLine);
        } else {
            assert!(next == Action::Close);
        }
    }
    assert!(s.step(Event::RequestLine(b"GET / HTTP/1.1\r\n")) == Action::Close);
    assert_eq!(s.served(), 2);
}

#[test]
fn session_closes_after_close_header() {
    let mut s = Session::new(MAX_REQUESTS_PER_CONNECTION, KEEP_ALIVE_TIMEOUT_MS);
    let hs = headers(&["Host: a", "Connection: close"]);
    s.step(Event::RequestLine(b"GET / HTTP/1.1\r\n"));
    s.step(Event::Headers(&hs));
    assert!(s.step(Event::Sent) == Action::Close);
    assert!(s.step(Event::RequestLine(b"GET / HTTP/1.1\r\n")) == Action::Close);
    assert_eq!(s.served(), 1);
}

#[test]
fn session_closes_on_transport_events() {
    for ev in [Event::PeerClosed, Event::TimedOut, Event::LineFailed, Event::RequestLine(b"\r\n")] {
        let mut s = Session::new(5, 10);
        assert!(s.step(ev) == Action::Close);
        assert_eq!(s.served(), 0);
    }
    let mut s = Session::new(5, 10);
    s.step(Event::RequestLine(b"GET / HTTP/1.1"));
    assert!(s.step(Event::HeadersFailed) == Action::Close);
    let mut s = Session::new(5, 10);
    s.step(Event::RequestLine(b"GET / HTTP/1.1"));
    s.step(Event::Headers(&Vec::new()));
    assert!(s.step(Event::SendFailed) == Action::Close);
    assert_eq!(s.served(), 0);
    assert!(Session::new(0, 10).action() == Action::Close);
}

#[test]
fn session_ignores_out_of_order_events() {
    let mut s = Session::new(5, 10);
    assert!(s.step(Event::Sent) == Action::ReadRequestLine);
    assert_eq!(s.served(), 0);
}

#[test]
fn error_response_for_success_carries_page() {
    let r = text(&build_error_response(Status::Success));
    let page = error_page("OK");
    assert_eq!(
        r,
        format!(
            "HTTP/1.1 200 OK\r\nContent-Type: text/html; charset=utf-8\r\nContent-Length: {}\r\n\r\n{}",
            page.len(),
            page
        )
    );
}

#[test]
fn session_answers_exactly_the_maximum() {
    let mut s = Session::new(MAX_REQUESTS_PER_CONNECTION, KEEP_ALIVE_TIMEOUT_MS);
    let hs = headers(&["Host: a"]);
    let mut answered: u32 = 0;
    while s.action() == Action::ReadRequestLine {
        s.step(Event::RequestLine(b"GET / HTTP/1.1\r\n"));
        s.step(Event::Headers(&hs));
        s.step(Event::Sent);
        answered += 1;
    }
    assert_eq!(answered, 100);
    assert_eq!(s.served(), 100);
    assert!(s.action() == Action::Close);
    assert!(s.step(Event::RequestLine(b"GET / HTTP/1.1\r\n")) == Action::Close);
    assert_eq!(s.served(), 100);
}
