//! Request heads, responses and the accept backoff.
use netlink_exporter::http::{
    dispatch, headers_complete, metrics_response, not_found_response, parse_path, probe_response,
    ACCEPT_BACKOFF_INITIAL_MS, ACCEPT_BACKOFF_MAX_MS, AcceptBackoff, AxumHttpAdapter, ConnStep,
    HttpAdapterConfig, METRICS_CONTENT_TYPE, REQUEST_HEADER_CAP, RequestHead, Route,
};

/// Verify the Content-Type value is exactly the Prometheus 0.0.4 text
/// format string — not the `OpenMetrics` application/openmetrics-text value
/// that the encoder does NOT emit.
#[test]
fn metrics_content_type_is_prometheus_004() {
    assert_eq!(
        METRICS_CONTENT_TYPE,
        "text/plain; version=0.0.4; charset=utf-8",
    );
    // Must NOT claim OpenMetrics.
    assert!(
        !METRICS_CONTENT_TYPE.contains("openmetrics"),
        "Content-Type must not claim OpenMetrics format"
    );
}

/// Backoff must start at 10 ms and cap at 1 s.
#[test]
fn accept_backoff_bounds() {
    assert_eq!(ACCEPT_BACKOFF_INITIAL_MS, 10);
    assert_eq!(ACCEPT_BACKOFF_MAX_MS, 1_000);
}

/// Doubling sequence stays within the cap.
#[test]
fn accept_backoff_doubling_sequence() {
    let mut backoff = AcceptBackoff::new();
    let expected = [10u64, 20, 40, 80, 160, 320, 640, 1_000, 1_000, 1_000];
    for &want in &expected {
        assert_eq!(backoff.on_error(), want);
    }
}

/// After a successful accept the backoff resets to the initial value.
#[test]
fn accept_backoff_resets_on_success() {
    let mut backoff = AcceptBackoff::new();
    for _ in 0..7 {
        backoff.on_error();
    }
    assert_eq!(backoff.on_error(), ACCEPT_BACKOFF_MAX_MS, "starts saturated");
    backoff.on_success();
    assert_eq!(backoff.on_error(), 10);
}

/// The header-read cap must be 8 KiB, matching nginx/hyper defaults.
#[test]
fn request_header_cap_is_8kib() {
    assert_eq!(REQUEST_HEADER_CAP, 8 * 1024);
}

#[test]
fn parse_path_metrics() {
    let req = b"GET /metrics HTTP/1.1\r\nHost: localhost\r\n\r\n";
    assert_eq!(parse_path(req), "/metrics");
}

#[test]
fn parse_path_healthz() {
    let req = b"GET /healthz HTTP/1.1\r\nHost: localhost\r\n\r\n";
    assert_eq!(parse_path(req), "/healthz");
}

#[test]
fn parse_path_ready() {
    let req = b"GET /ready HTTP/1.1\r\nHost: localhost\r\n\r\n";
    assert_eq!(parse_path(req), "/ready");
}

#[test]
fn parse_path_unknown() {
    let req = b"GET /foo HTTP/1.1\r\n\r\n";
    assert_eq!(parse_path(req), "/foo");
}

#[test]
fn parse_path_empty_buf() {
    assert_eq!(parse_path(b""), "/");
}

#[test]
fn parse_path_no_path_token() {
    // Only a single token — no space-separated path.
    assert_eq!(parse_path(b"GET"), "/");
}

/// Non-UTF-8 bytes: `parse_path` must not panic; falls back to "/".
#[test]
fn parse_path_non_utf8() {
    let req = b"\xff\xfe GET /metrics HTTP/1.1\r\n\r\n";
    assert_eq!(parse_path(req), "/");
}

#[test]
fn sentinel_found_in_complete_request() {
    let req = b"GET /metrics HTTP/1.1\r\nHost: localhost\r\n\r\n";
    assert!(headers_complete(req));
}

#[test]
fn sentinel_not_found_in_partial_request() {
    let req = b"GET /metrics HTTP/1.1\r\nHost: loc";
    assert!(!headers_complete(req));
}

#[test]
fn sentinel_found_at_exact_boundary() {
    // Minimal valid request: request-line + blank line.
    let req = b"GET / HTTP/1.1\r\n\r\n";
    assert!(headers_complete(req));
}

/// Cap boundary: a buffer of exactly `REQUEST_HEADER_CAP` bytes should
/// trigger the cap check.
#[test]
fn header_cap_boundary() {
    let oversized = vec![b'A'; REQUEST_HEADER_CAP];
    assert!(oversized.len() >= REQUEST_HEADER_CAP);
    let mut head = RequestHead::new();
    assert_eq!(head.on_read(Some(&oversized[..REQUEST_HEADER_CAP - 1])), ConnStep::Read);
    assert_eq!(head.on_read(Some(&oversized[REQUEST_HEADER_CAP - 1..])), ConnStep::Close);
}

/// Only the first line counts, and its second word is the path.
#[test]
fn path_is_the_second_word_of_the_first_line() {
    assert_eq!(parse_path(b"GET  /metrics HTTP/1.1\r\n"), "");
    assert_eq!(parse_path(b"\r\nGET /metrics\r\n"), "/");
    assert_eq!(parse_path(b"POST /x?y=1 HTTP/1.1\n"), "/x?y=1");
}

#[test]
fn routes() {
    assert_eq!(dispatch("/metrics"), Route::Metrics);
    assert_eq!(dispatch("/healthz"), Route::Healthz);
    assert_eq!(dispatch("/ready"), Route::Ready);
    assert_eq!(dispatch("/"), Route::NotFound);
    assert_eq!(dispatch("/metrics/"), Route::NotFound);
}

/// A request is answered once its head is complete, however it arrives.
#[test]
fn head_in_pieces() {
    let mut head = RequestHead::new();
    assert_eq!(head.on_read(Some(b"GET /ready HTTP/1.1\r\n\r")), ConnStep::Read);
    assert_eq!(head.on_read(Some(b"\n")), ConnStep::Respond(Route::Ready));
}

#[test]
fn closed_or_failed_connection() {
    let mut head = RequestHead::new();
    assert_eq!(head.on_read(Some(b"")), ConnStep::Close);
    assert_eq!(head.on_read(None), ConnStep::Close);
}

/// A complete head is answered even when it is long.
#[test]
fn complete_head_beyond_the_cap() {
    let mut req = b"GET /healthz HTTP/1.1\r\nX: ".to_vec();
    req.resize(REQUEST_HEADER_CAP, b'a');
    req.extend_from_slice(b"\r\n\r\n");
    assert_eq!(
        RequestHead::new().on_read(Some(&req)),
        ConnStep::Respond(Route::Healthz)
    );
}

/// The length of a metrics response counts bytes.
#[test]
fn metrics_response_text() {
    assert_eq!(
        metrics_response(true, Some("é\n")),
        "HTTP/1.1 200 OK\r\n\
         Content-Type: text/plain; version=0.0.4; charset=utf-8\r\n\
         Content-Length: 3\r\n\
         Connection: close\r\n\r\né\n"
    );
}

#[test]
fn failed_scrape_or_encoding() {
    let error = "HTTP/1.1 500 Internal Server Error\r\nContent-Length: 0\r\nConnection: close\r\n\r\n";
    assert_eq!(metrics_response(false, Some("x")), error);
    assert_eq!(metrics_response(true, None), error);
}

#[test]
fn probe_responses() {
    assert_eq!(
        probe_response(true),
        "HTTP/1.1 200 OK\r\nContent-Type: text/plain\r\nContent-Length: 2\r\nConnection: close\r\n\r\nOK"
    );
    assert_eq!(
        probe_response(false),
        "HTTP/1.1 503 Service Unavailable\r\nContent-Length: 0\r\nConnection: close\r\n\r\n"
    );
    assert_eq!(
        not_found_response(),
        "HTTP/1.1 404 Not Found\r\nContent-Length: 0\r\nConnection: close\r\n\r\n"
    );
}

#[test]
fn default_listen_address() {
    let adapter = AxumHttpAdapter::new(HttpAdapterConfig::default());
    assert_eq!(adapter.listen_addr(), "0.0.0.0:9456");
}
