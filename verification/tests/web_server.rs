use sonic_span::http::{
    find_head_end, found, is_websocket_upgrade, lookup_query, method_not_allowed, not_found, route,
    write_response, HeadStatus, RequestHead, Route, MAX_REQUEST_BYTES,
};
use sonic_span::web_path::{
    content_type_for, hex_value, is_entry_name, percent_decode, percent_decode_bytes,
    resolve_web_path,
};

#[test]
fn percent_decode_decodes_escapes() {
    assert_eq!(percent_decode("a%20b"), "a b");
    assert_eq!(percent_decode("plain"), "plain");
    assert_eq!(percent_decode("100%25"), "100%");
    assert_eq!(percent_decode("bad%zz"), "bad%zz");
}

#[test]
fn web_path_rejects_traversal() {
    assert!(resolve_web_path("/../etc/passwd").is_none());
    assert!(resolve_web_path("/a/../../b").is_none());
    assert!(resolve_web_path("/..%2f..").is_none());
    assert!(resolve_web_path("/%2e%2e/x").is_none());
    assert_eq!(
        resolve_web_path("/web/index.html"),
        Some(vec!["web".to_string(), "index.html".to_string()])
    );
}

#[test]
fn detects_websocket_upgrade_requests() {
    assert!(is_websocket_upgrade(
        "GET /ws HTTP/1.1\r\nUpgrade: websocket\r\nConnection: Upgrade\r\nSec-WebSocket-Key: abc\r\n\r\n"
    ));
    assert!(!is_websocket_upgrade(
        "GET /index.html HTTP/1.1\r\nHost: x\r\n\r\n"
    ));
}

#[test]
fn maps_content_types() {
    assert!(content_type_for("/x/index.html").starts_with("text/html"));
    assert_eq!(content_type_for("/x/client_bg.wasm"), "application/wasm");
    assert_eq!(
        content_type_for("/x/app.js"),
        "text/javascript; charset=utf-8"
    );
}

#[test]
fn percent_decode_edge_cases() {
    assert_eq!(percent_decode(""), "");
    assert_eq!(percent_decode("%"), "%");
    assert_eq!(percent_decode("%4"), "%4");
    assert_eq!(percent_decode("%41"), "A");
    assert_eq!(percent_decode("%4a%4A"), "JJ");
    assert_eq!(percent_decode("%%41"), "%A");
    assert_eq!(percent_decode("%2541"), "%41");
    assert_eq!(percent_decode("caf%C3%A9"), "café");
    assert_eq!(percent_decode("é"), "é");
    assert_eq!(percent_decode("%FF"), "\u{FFFD}");
    assert_eq!(percent_decode_bytes(b"%FFx"), vec![0xFF, b'x']);
}

#[test]
fn hex_digits() {
    assert_eq!(hex_value(b'0'), Some(0));
    assert_eq!(hex_value(b'9'), Some(9));
    assert_eq!(hex_value(b'a'), Some(10));
    assert_eq!(hex_value(b'f'), Some(15));
    assert_eq!(hex_value(b'A'), Some(10));
    assert_eq!(hex_value(b'F'), Some(15));
    assert_eq!(hex_value(b'g'), None);
    assert_eq!(hex_value(b'/'), None);
    assert_eq!(hex_value(b':'), None);
}

#[test]
fn web_path_edge_cases() {
    let empty: Vec<String> = Vec::new();
    assert_eq!(resolve_web_path(""), Some(empty.clone()));
    assert_eq!(resolve_web_path("/"), Some(empty.clone()));
    assert_eq!(resolve_web_path("//./"), Some(empty));
    assert_eq!(
        resolve_web_path("a//b%20c/./d"),
        Some(vec!["a".to_string(), "b c".to_string(), "d".to_string()])
    );
    assert!(resolve_web_path("/a%5Cb").is_none());
    assert!(resolve_web_path("/%2e").is_none());
    assert!(resolve_web_path("/a/..").is_none());
    assert_eq!(
        resolve_web_path("/..."),
        Some(vec!["...".to_string()])
    );
}

#[test]
fn entry_names() {
    assert!(is_entry_name("index.html"));
    assert!(is_entry_name("..."));
    assert!(!is_entry_name("."));
    assert!(!is_entry_name(".."));
    assert!(!is_entry_name("a/b"));
    assert!(!is_entry_name("a\\b"));
}

#[test]
fn content_types_follow_the_extension() {
    let cases = [
        ("a.html", "text/html; charset=utf-8"),
        ("a.mjs", "text/javascript; charset=utf-8"),
        ("a.css", "text/css; charset=utf-8"),
        ("a.json", "application/json"),
        ("a.map", "application/json"),
        ("a.svg", "image/svg+xml"),
        ("a.png", "image/png"),
        ("a.jpg", "image/jpeg"),
        ("a.jpeg", "image/jpeg"),
        ("a.ico", "image/x-icon"),
        ("a.txt", "text/plain; charset=utf-8"),
        ("a.woff2", "font/woff2"),
        ("a.webmanifest", "application/manifest+json"),
        ("a.HTML", "application/octet-stream"),
        ("a", "application/octet-stream"),
        (".html", "application/octet-stream"),
        ("..html", "text/html; charset=utf-8"),
        ("a.", "application/octet-stream"),
        ("a.tar.js", "text/javascript; charset=utf-8"),
        ("x.js/", "text/javascript; charset=utf-8"),
        ("x.js/.", "text/javascript; charset=utf-8"),
        ("x.js/..", "application/octet-stream"),
        ("dir.js/file", "application/octet-stream"),
        ("", "application/octet-stream"),
        ("/", "application/octet-stream"),
    ];
    for (path, expected) in cases {
        assert_eq!(content_type_for(path), expected, "{path}");
        // The standard library's idea of an extension.
        let std_ext = std::path::Path::new(path)
            .extension()
            .and_then(|e| e.to_str())
            .unwrap_or("");
        assert_eq!(
            content_type_for(path),
            content_type_for(&format!("name.{std_ext}")),
            "{path}"
        );
    }
}

#[test]
fn upgrade_detection_ignores_case_and_needs_both_headers() {
    assert!(is_websocket_upgrade(
        "get /\r\nUPGRADE: WEBSOCKET\r\nsec-WEBSOCKET-key: x\r\n\r\n"
    ));
    assert!(!is_websocket_upgrade("Upgrade: websocket\r\n\r\n"));
    assert!(!is_websocket_upgrade("Sec-WebSocket-Key: x\r\n\r\n"));
    assert!(!is_websocket_upgrade("Upgrade:websocket Sec-WebSocket-Key:"));
    assert!(!is_websocket_upgrade(""));
}

#[test]
fn request_heads_are_collected() {
    let mut head = RequestHead::new();
    assert_eq!(head.feed(b"GET / HT"), HeadStatus::Incomplete);
    assert_eq!(head.feed(b"TP/1.1\r\n\r"), HeadStatus::Incomplete);
    assert_eq!(head.feed(b"\nrest"), HeadStatus::Complete(18));
    assert_eq!(head.head_bytes(18), b"GET / HTTP/1.1\r\n\r\n");
    assert_eq!(head.request(18), "GET / HTTP/1.1\r\n\r\n");
    assert_eq!(find_head_end(b"\r\n\r\n\r\n\r\n"), Some(4));
    assert_eq!(find_head_end(b"\r\n\r"), None);
}

#[test]
fn request_heads_may_end_early_or_never() {
    let mut head = RequestHead::new();
    assert_eq!(head.feed(b"GET"), HeadStatus::Incomplete);
    assert_eq!(head.feed(b""), HeadStatus::Closed);

    let mut head = RequestHead::new();
    assert_eq!(
        head.feed(&vec![b'x'; MAX_REQUEST_BYTES]),
        HeadStatus::Incomplete
    );
    assert_eq!(head.feed(b"\r\n\r\n"), HeadStatus::TooLarge);
}

#[test]
fn invalid_bytes_in_a_head_are_replaced() {
    let mut head = RequestHead::new();
    assert_eq!(head.feed(b"\xFF\r\n\r\n"), HeadStatus::Complete(5));
    assert_eq!(head.request(5), "\u{FFFD}\r\n\r\n");
}

fn relative_of(request: &str) -> (Vec<String>, bool) {
    match route(request) {
        Route::File {
            relative,
            head_only,
        } => (relative, head_only),
        other => panic!("unexpected route {other:?}"),
    }
}

#[test]
fn requests_are_routed() {
    assert_eq!(
        relative_of("GET /pkg/a%20b.js?v=1 HTTP/1.1\r\nHost: x\r\n\r\n"),
        (vec!["pkg".to_string(), "a b.js".to_string()], false)
    );
    assert_eq!(
        relative_of("HEAD /index.html HTTP/1.1\r\n\r\n"),
        (vec!["index.html".to_string()], true)
    );
    assert_eq!(relative_of("GET\r\n\r\n"), (vec![], false));
    assert_eq!(relative_of("  GET\u{3000}/x\r\n"), (vec!["x".to_string()], false));
    assert!(matches!(
        route("POST / HTTP/1.1\r\n\r\n"),
        Route::MethodNotAllowed
    ));
    assert!(matches!(route(""), Route::MethodNotAllowed));
    assert!(matches!(route("get / HTTP/1.1\r\n"), Route::MethodNotAllowed));
    assert!(matches!(
        route("GET /../x HTTP/1.1\r\n\r\n"),
        Route::NotFound { head_only: false }
    ));
    assert!(matches!(
        route("HEAD /%2e%2e HTTP/1.1\r\n\r\n"),
        Route::NotFound { head_only: true }
    ));
    // Only the first line counts.
    assert!(matches!(route("\r\nGET / HTTP/1.1\r\n"), Route::MethodNotAllowed));
}

#[test]
fn responses_are_exact() {
    assert_eq!(
        write_response("200 OK", "text/plain", b"hi", false),
        b"HTTP/1.1 200 OK\r\nContent-Type: text/plain\r\nContent-Length: 2\r\nConnection: close\r\n\r\nhi"
    );
    assert_eq!(
        found("text/html; charset=utf-8", &[7; 12], true),
        b"HTTP/1.1 200 OK\r\nContent-Type: text/html; charset=utf-8\r\nContent-Length: 12\r\nConnection: close\r\n\r\n"
    );
    assert_eq!(
        not_found(false),
        b"HTTP/1.1 404 Not Found\r\nContent-Type: text/plain\r\nContent-Length: 13\r\nConnection: close\r\n\r\n404 Not Found"
    );
    assert_eq!(
        method_not_allowed(),
        b"HTTP/1.1 405 Method Not Allowed\r\nContent-Type: text/plain\r\nContent-Length: 18\r\nConnection: close\r\n\r\nmethod not allowed"
    );
}

#[test]
fn targets_get_the_default_port() {
    assert_eq!(lookup_query("example.org"), "example.org:9000");
    assert_eq!(lookup_query("example.org:80"), "example.org:80");
    assert_eq!(lookup_query("::1"), "::1");
    assert_eq!(lookup_query(""), ":9000");
}
