use clankerdiff_core::web::{content_type, find_bytes, inject_bridge};

#[test]
fn bridge_contains_token_and_review_events() {
    let html = inject_bridge("<body></body>", "secret");
    assert!(html.contains("/api/secret"));
    assert!(html.contains("diff-review-submit"));
    assert!(html.contains("diff-review-set-document"));
    assert!(html.contains("diff-review-cancel"));
}

#[test]
fn only_serves_known_static_content_types() {
    assert_eq!(content_type("app.js"), "text/javascript; charset=utf-8");
    assert_eq!(content_type("app.wasm"), "application/wasm");
}

#[test]
fn bridge_goes_before_the_first_closing_body_only() {
    let html = inject_bridge("<p>a</p></body><i></body>", "t");
    assert!(html.starts_with("<p>a</p><script>"));
    assert!(html.ends_with("</script></body><i></body>"));
    assert_eq!(html.matches("<script>").count(), 1);
}

#[test]
fn page_without_closing_body_is_unchanged() {
    assert_eq!(inject_bridge("<html>", "t"), "<html>");
}

#[test]
fn content_types_ignore_case_and_fall_back_to_bytes() {
    assert_eq!(content_type("APP.JS"), "text/javascript; charset=utf-8");
    assert_eq!(content_type("dir/app.Wasm"), "application/wasm");
    assert_eq!(content_type(".js"), "application/octet-stream");
    assert_eq!(content_type("app.json"), "application/octet-stream");
    assert_eq!(content_type("app.js/"), "text/javascript; charset=utf-8");
    assert_eq!(content_type("js"), "application/octet-stream");
}

#[test]
fn find_bytes_reports_the_first_window() {
    assert_eq!(find_bytes(b"ab\r\n\r\n\r\n\r\n", b"\r\n\r\n"), Some(2));
    assert_eq!(find_bytes(b"ab\r\n", b"\r\n\r\n"), None);
    assert_eq!(find_bytes(b"", b"x"), None);
}

use clankerdiff_core::request::{ReadStep, Request, RequestError, RequestReader};
use clankerdiff_core::web::{response_head, route, session_token, status_reason, Route};

#[test]
fn request_arrives_in_chunks() {
    let mut reader = RequestReader::new();
    assert_eq!(reader.feed(b"POST /api/t/submit HTTP/1.1\r\nconTent-LENGTH:  5 \r\n"), ReadStep::NeedMore);
    assert_eq!(reader.feed(b"\r\nab"), ReadStep::NeedMore);
    assert_eq!(
        reader.feed(b"cdefg"),
        ReadStep::Done(Request {
            method: "POST".to_string(),
            path: "/api/t/submit".to_string(),
            body: b"abcde".to_vec(),
        })
    );
}

#[test]
fn request_without_length_has_empty_body() {
    let mut reader = RequestReader::new();
    assert_eq!(
        reader.feed(b"GET /session/t/ HTTP/1.1\r\nHost: x\r\n\r\n"),
        ReadStep::Done(Request { method: "GET".to_string(), path: "/session/t/".to_string(), body: Vec::new() })
    );
}

#[test]
fn malformed_requests_fail() {
    assert_eq!(RequestReader::new().feed(b""), ReadStep::Failed(RequestError::Malformed));
    assert_eq!(RequestReader::new().feed(b"GET\r\n\r\n"), ReadStep::Failed(RequestError::Malformed));
    assert_eq!(
        RequestReader::new().feed(b"GET / HTTP/1.1\r\nContent-Length: x\r\n\r\n"),
        ReadStep::Failed(RequestError::Malformed)
    );
    assert_eq!(
        RequestReader::new().feed(b"GET / HTTP/1.1\r\nContent-Length: 99999999999999999999999\r\n\r\n"),
        ReadStep::Failed(RequestError::Malformed)
    );
    assert_eq!(RequestReader::new().feed(b"G\xffT / x\r\n\r\n"), ReadStep::Failed(RequestError::NotUtf8));
}

#[test]
fn oversized_requests_fail() {
    assert_eq!(
        RequestReader::new().feed(b"POST / HTTP/1.1\r\nContent-Length: +8388609\r\n\r\n"),
        ReadStep::Failed(RequestError::TooLarge)
    );
    let mut reader = RequestReader::new();
    let chunk = vec![b'a'; 8192];
    let mut last = ReadStep::NeedMore;
    for _ in 0..9 {
        last = reader.feed(&chunk);
    }
    assert_eq!(last, ReadStep::Failed(RequestError::TooLarge));
}

#[test]
fn routes_follow_the_session_token() {
    assert_eq!(route("GET", "/session/t/", "t", true, false), Route::Index);
    assert_eq!(route("GET", "/session/t/", "t", false, false), Route::NotFound);
    assert_eq!(route("GET", "/api/t/document", "t", false, false), Route::Document);
    assert_eq!(route("POST", "/api/t/submit", "t", false, false), Route::Submit);
    assert_eq!(route("POST", "/api/t/cancel", "t", false, false), Route::Cancel);
    assert_eq!(route("POST", "/api/u/cancel", "t", false, false), Route::NotFound);
    assert_eq!(route("GET", "/app.js", "t", true, false), Route::BuiltinScript);
    assert_eq!(route("GET", "//app.wasm", "t", true, false), Route::BuiltinWasm);
    assert_eq!(route("GET", "/style.css", "t", true, true), Route::Asset("style.css".to_string()));
    assert_eq!(route("GET", "/a/b.css", "t", true, true), Route::NotFound);
    assert_eq!(route("GET", "/..x", "t", true, true), Route::NotFound);
    assert_eq!(route("GET", "/", "t", true, true), Route::NotFound);
}

#[test]
fn response_heads_carry_status_and_headers() {
    assert_eq!(status_reason(204), "No Content");
    assert_eq!(status_reason(500), "Error");
    assert_eq!(
        response_head(404, "text/plain; charset=utf-8", 9, None),
        "HTTP/1.1 404 Not Found\r\nContent-Type: text/plain; charset=utf-8\r\nContent-Length: 9\r\nConnection: close\r\nX-Content-Type-Options: nosniff\r\nCache-Control: no-store\r\n\r\n"
    );
    assert!(response_head(200, "application/wasm", 120, Some("gzip"))
        .ends_with("Cache-Control: no-store\r\nContent-Encoding: gzip\r\n\r\n"));
}

#[test]
fn session_tokens_are_fresh_hex() {
    let a = session_token();
    let b = session_token();
    assert_eq!(a.len(), 48);
    assert!(a.chars().all(|c| c.is_ascii_hexdigit() && !c.is_ascii_uppercase()));
    assert_ne!(a, b);
}

#[test]
fn every_split_of_a_request_reads_like_the_whole() {
    let whole: &[u8] = b"POST /api/t/submit HTTP/1.1\r\nContent-Length: 5\r\n\r\nhello";
    let expected = RequestReader::new().feed(whole);
    assert!(matches!(expected, ReadStep::Done(_)));
    for split in 1..whole.len() {
        let mut reader = RequestReader::new();
        let first = reader.feed(&whole[..split]);
        assert_eq!(first, ReadStep::NeedMore, "split at {split}");
        assert_eq!(reader.feed(&whole[split..]), expected, "split at {split}");
    }
}
