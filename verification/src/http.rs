//! The HTTP/1 endpoint: request heads, routes and responses.
//!
//! A connection carries one request.  Its head is gathered until the blank line
//! that ends it or until the cap is reached; the path decides the response.
use crate::metric::{holds, lemma_holds};
use crate::text::{
    chars_of, dec, find_char, first_index, has_prefix, law_lines_separated, lemma_first_index,
    lines, lines_spec, push_dec, str_eq, string_of, utf8_text, word_views,
};
use vstd::prelude::*;
use vstd::slice::slice_subrange;
use vstd::string::*;
use vstd::utf8::*;

verus! {

/// Response to a positive probe.
pub const HTTP_200_PLAIN: &'static str =
    "HTTP/1.1 200 OK\r\nContent-Type: text/plain\r\nContent-Length: 2\r\nConnection: close\r\n\r\nOK";

/// Response to a negative probe.
pub const HTTP_503_PLAIN: &'static str =
    "HTTP/1.1 503 Service Unavailable\r\nContent-Length: 0\r\nConnection: close\r\n\r\n";

/// Response when the metrics cannot be produced.
pub const HTTP_500: &'static str =
    "HTTP/1.1 500 Internal Server Error\r\nContent-Length: 0\r\nConnection: close\r\n\r\n";

/// Response to an unknown path.
pub const HTTP_404: &'static str =
    "HTTP/1.1 404 Not Found\r\nContent-Length: 0\r\nConnection: close\r\n\r\n";

/// Content type of the metrics: the Prometheus text format.
pub const METRICS_CONTENT_TYPE: &'static str = "text/plain; version=0.0.4; charset=utf-8";

/// First delay after a failed accept, in milliseconds.
pub const ACCEPT_BACKOFF_INITIAL_MS: u64 = 10;

/// Longest delay after a failed accept, in milliseconds.
pub const ACCEPT_BACKOFF_MAX_MS: u64 = 1_000;

/// Most bytes of a request head that are gathered.
pub const REQUEST_HEADER_CAP: usize = 8192;

/// Configuration of the HTTP adapter.
#[derive(Clone, Debug)]
pub struct HttpAdapterConfig {
    /// Listen address and port.
    pub listen_addr: String,
}

impl Default for HttpAdapterConfig {
    fn default() -> (r: Self)
        ensures
            r.listen_addr@ == "0.0.0.0:9456"@,
    {
        HttpAdapterConfig { listen_addr: "0.0.0.0:9456".to_owned() }
    }
}

/// The HTTP adapter.
#[derive(Debug)]
pub struct MonoioHttpAdapter {
    config: HttpAdapterConfig,
}

/// Another name of the adapter.
pub type AxumHttpAdapter = MonoioHttpAdapter;

impl MonoioHttpAdapter {
    /// The address to listen on.
    pub closed spec fn address(&self) -> Seq<char> {
        self.config.listen_addr@
    }

    /// An adapter with the given configuration.
    pub fn new(config: HttpAdapterConfig) -> (r: Self)
        ensures
            r.address() == config.listen_addr@,
    {
        MonoioHttpAdapter { config }
    }

    /// The address to listen on.
    pub fn listen_addr(&self) -> (r: &str)
        ensures
            r@ == self.address(),
    {
        self.config.listen_addr.as_str()
    }
}

// ---------------------------------------------------------------------------
// Accept backoff
// ---------------------------------------------------------------------------

/// The delay that follows a delay of `ms` milliseconds: twice as long, but no
/// longer than the longest.
pub open spec fn next_delay(ms: nat) -> nat {
    if ms * 2 <= ACCEPT_BACKOFF_MAX_MS {
        ms * 2
    } else {
        ACCEPT_BACKOFF_MAX_MS as nat
    }
}

/// The delay after `errors` failed accepts in a row that went before.
pub open spec fn delay_after(errors: nat) -> nat
    decreases errors,
{
    if errors == 0 {
        ACCEPT_BACKOFF_INITIAL_MS as nat
    } else {
        next_delay(delay_after((errors - 1) as nat))
    }
}

/// Delays between failed accepts.
#[derive(Debug)]
pub struct AcceptBackoff {
    ms: u64,
}

impl AcceptBackoff {
    /// The delay that the next failed accept causes, in milliseconds.
    pub closed spec fn delay(&self) -> nat {
        self.ms as nat
    }

    #[verifier::type_invariant]
    spec fn bounded(&self) -> bool {
        ACCEPT_BACKOFF_INITIAL_MS <= self.ms <= ACCEPT_BACKOFF_MAX_MS
    }

    /// No failed accept yet.
    pub fn new() -> (r: Self)
        ensures
            r.delay() == delay_after(0),
    {
        AcceptBackoff { ms: ACCEPT_BACKOFF_INITIAL_MS }
    }

    /// An accept succeeded: the next delay is the first again.
    pub fn on_success(&mut self)
        ensures
            final(self).delay() == delay_after(0),
    {
        self.ms = ACCEPT_BACKOFF_INITIAL_MS;
    }

    /// An accept failed: the milliseconds to wait before the next one.
    pub fn on_error(&mut self) -> (r: u64)
        ensures
            r == old(self).delay(),
            final(self).delay() == next_delay(old(self).delay()),
    {
        proof {
            use_type_invariant(&*self);
        }
        let ms: u64 = self.ms;
        self.ms = if ms * 2 <= ACCEPT_BACKOFF_MAX_MS {
            ms * 2
        } else {
            ACCEPT_BACKOFF_MAX_MS
        };
        ms
    }
}

// ---------------------------------------------------------------------------
// Request head
// ---------------------------------------------------------------------------

/// The four bytes that end a head stand at `i`.
pub open spec fn blank_line_at(buf: Seq<u8>, i: int) -> bool {
    0 <= i && i + 4 <= buf.len() && buf[i] == 13 && buf[i + 1] == 10 && buf[i + 2] == 13 && buf[i + 3]
        == 10
}

/// The head is complete: it holds the blank line that ends it.
pub open spec fn is_complete(buf: Seq<u8>) -> bool {
    exists|i: int| blank_line_at(buf, i)
}

/// Whether `buf` holds the blank line that ends a head.
pub fn headers_complete(buf: &[u8]) -> (r: bool)
    ensures
        r == is_complete(buf@),
{
    let n: usize = buf.len();
    if n < 4 {
        return false;
    }
    let mut i: usize = 0;
    while i <= n - 4
        invariant
            4 <= n == buf@.len(),
            i <= n - 3,
            forall|j: int| 0 <= j < i ==> !blank_line_at(buf@, j),
        decreases n - i,
    {
        if buf[i] == 13 && buf[i + 1] == 10 && buf[i + 2] == 13 && buf[i + 3] == 10 {
            proof {
                assert(blank_line_at(buf@, i as int));
            }
            return true;
        }
        i += 1;
    }
    proof {
        assert forall|j: int| !blank_line_at(buf@, j) by {
            if blank_line_at(buf@, j) {
                assert(j < i);
            }
        }
    }
    false
}

/// The text of a request head; empty when it is not valid UTF-8.
pub open spec fn head_text(buf: Seq<u8>) -> Seq<char> {
    if valid_utf8(buf) {
        decode_utf8(buf)
    } else {
        Seq::empty()
    }
}

/// The first line of a text; empty without one.
pub open spec fn first_line(text: Seq<char>) -> Seq<char> {
    if lines_spec(text).len() == 0 {
        Seq::empty()
    } else {
        lines_spec(text)[0]
    }
}

/// The second word of a request line, between its first and its second blank;
/// a slash when the line has no blank.
pub open spec fn path_in(line: Seq<char>) -> Seq<char> {
    let i = first_index(line, ' ') as int;
    if i >= line.len() {
        "/"@
    } else {
        let rest = line.skip(i + 1);
        rest.take(first_index(rest, ' ') as int)
    }
}

/// The path that a request head asks for.
pub open spec fn path_of(buf: Seq<u8>) -> Seq<char> {
    path_in(first_line(head_text(buf)))
}

/// Extracts the path from the request line.
pub fn parse_path(buf: &[u8]) -> (r: String)
    ensures
        r@ == path_of(buf@),
{
    let text = match utf8_text(buf) {
        Some(text) => chars_of(text),
        None => Vec::new(),
    };
    proof {
        assert(text@ =~= head_text(buf@));
    }
    let all = lines(text.as_slice());
    let empty: Vec<char> = Vec::new();
    let line: &Vec<char> = if all.len() == 0 {
        &empty
    } else {
        &all[0]
    };
    proof {
        assert(word_views(all@).len() == all@.len());
        if all@.len() > 0 {
            assert(word_views(all@)[0] == all@[0]@);
        }
        assert(line@ =~= first_line(head_text(buf@)));
    }
    let chars = line.as_slice();
    let i: usize = find_char(chars, 0, ' ');
    proof {
        assert(chars@.skip(0) =~= chars@);
    }
    if i >= chars.len() {
        return "/".to_owned();
    }
    let j: usize = find_char(chars, i + 1, ' ');
    proof {
        let rest = line@.skip(i as int + 1);
        assert(chars@.subrange(i as int + 1, j as int) =~= rest.take(first_index(rest, ' ') as int));
    }
    string_of(slice_subrange(chars, i + 1, j))
}

// ---------------------------------------------------------------------------
// Connection
// ---------------------------------------------------------------------------

/// What a request asks for.
#[derive(Clone, Copy, Debug, PartialEq, Eq, Structural)]
pub enum Route {
    /// Scrape and return the metrics.
    Metrics,
    /// Liveness probe.
    Healthz,
    /// Readiness probe.
    Ready,
    /// Anything else.
    NotFound,
}

/// The route of a path.
pub open spec fn route_of(path: Seq<char>) -> Route {
    if path == "/metrics"@ {
        Route::Metrics
    } else if path == "/healthz"@ {
        Route::Healthz
    } else if path == "/ready"@ {
        Route::Ready
    } else {
        Route::NotFound
    }
}

/// Finds the route of a path.
pub fn dispatch(path: &str) -> (r: Route)
    ensures
        r == route_of(path@),
{
    if str_eq(path, "/metrics") {
        Route::Metrics
    } else if str_eq(path, "/healthz") {
        Route::Healthz
    } else if str_eq(path, "/ready") {
        Route::Ready
    } else {
        Route::NotFound
    }
}

/// What to do after a read.
#[derive(Clone, Copy, Debug, PartialEq, Eq, Structural)]
pub enum ConnStep {
    /// Read more.
    Read,
    /// Close the connection without a response.
    Close,
    /// Respond to this route.
    Respond(Route),
}

/// Gathers the head of one request.
#[derive(Debug)]
pub struct RequestHead {
    /// The bytes so far.
    pub buf: Vec<u8>,
}

/// The step after the head grew to `buf`: respond once it is complete, close
/// when it is too long, and read on otherwise.
pub open spec fn step_for(buf: Seq<u8>) -> ConnStep {
    if is_complete(buf) {
        ConnStep::Respond(route_of(path_of(buf)))
    } else if buf.len() >= REQUEST_HEADER_CAP {
        ConnStep::Close
    } else {
        ConnStep::Read
    }
}

impl RequestHead {
    /// No bytes yet.
    pub fn new() -> (r: Self)
        ensures
            r.buf@.len() == 0,
    {
        RequestHead { buf: Vec::new() }
    }

    /// Takes in what a read gave: some bytes, or `None` when the read failed.
    /// No bytes means that the peer has closed.
    pub fn on_read(&mut self, chunk: Option<&[u8]>) -> (r: ConnStep)
        ensures
            match chunk {
                Some(bytes) if bytes@.len() > 0 => {
                    &&& final(self).buf@ == old(self).buf@ + bytes@
                    &&& r == step_for(final(self).buf@)
                },
                _ => r == ConnStep::Close && final(self).buf@ == old(self).buf@,
            },
    {
        match chunk {
            None => ConnStep::Close,
            Some(bytes) => {
                if bytes.len() == 0 {
                    return ConnStep::Close;
                }
                self.buf.extend_from_slice(bytes);
                proof {
                    assert(self.buf@ =~= old(self).buf@ + bytes@);
                }
                if headers_complete(self.buf.as_slice()) {
                    let path = parse_path(self.buf.as_slice());
                    ConnStep::Respond(dispatch(path.as_str()))
                } else if self.buf.len() >= REQUEST_HEADER_CAP {
                    ConnStep::Close
                } else {
                    ConnStep::Read
                }
            },
        }
    }
}

// ---------------------------------------------------------------------------
// Responses
// ---------------------------------------------------------------------------

/// The head of a metrics response with a body of `len` bytes.
pub open spec fn metrics_head(len: nat) -> Seq<char> {
    "HTTP/1.1 200 OK\r\nContent-Type: "@ + METRICS_CONTENT_TYPE@ + "\r\nContent-Length: "@ + dec(len)
        + "\r\nConnection: close\r\n\r\n"@
}

/// The response to a metrics request: the body with its head, or an error when
/// the scrape or the encoding failed.
pub open spec fn metrics_text(scraped: bool, body: Option<Seq<char>>) -> Seq<char> {
    match body {
        Some(body) if scraped => metrics_head(encode_utf8(body).len() as usize as nat) + body,
        _ => HTTP_500@,
    }
}

/// Builds the response to a metrics request.
///
/// `scraped` tells whether the scrape succeeded, `body` is the encoded text if
/// there is one.
pub fn metrics_response(scraped: bool, body: Option<&str>) -> (r: String)
    ensures
        r@ == metrics_text(
            scraped,
            (match body {
                Some(s) => Some(s@),
                None => None,
            }),
        ),
{
    match body {
        Some(text) => {
            if !scraped {
                return HTTP_500.to_owned();
            }
            let mut r = "HTTP/1.1 200 OK\r\nContent-Type: ".to_owned();
            r.append(METRICS_CONTENT_TYPE);
            r.append("\r\nContent-Length: ");
            push_dec(&mut r, text.len() as u64);
            r.append("\r\nConnection: close\r\n\r\n");
            r.append(text);
            r
        },
        None => HTTP_500.to_owned(),
    }
}

/// The response to a probe.
pub open spec fn probe_text(ok: bool) -> Seq<char> {
    if ok {
        HTTP_200_PLAIN@
    } else {
        HTTP_503_PLAIN@
    }
}

/// The response to a probe (`/healthz` and `/ready`).
pub fn probe_response(ok: bool) -> (r: &'static str)
    ensures
        r@ == probe_text(ok),
{
    if ok {
        HTTP_200_PLAIN
    } else {
        HTTP_503_PLAIN
    }
}

/// The response to an unknown path.
pub fn not_found_response() -> (r: &'static str)
    ensures
        r@ == HTTP_404@,
{
    HTTP_404
}

// ---------------------------------------------------------------------------
// Laws
// ---------------------------------------------------------------------------

/// Delays stay between the first and the longest and never shrink while accepts
/// keep failing.
pub proof fn law_backoff_bounded(errors: nat)
    ensures
        ACCEPT_BACKOFF_INITIAL_MS <= delay_after(errors) <= ACCEPT_BACKOFF_MAX_MS,
        delay_after(errors) <= delay_after(errors + 1),
    decreases errors,
{
    if errors > 0 {
        law_backoff_bounded((errors - 1) as nat);
    }
}

/// The gathered head stays bounded: as long as the connection reads on, it is
/// shorter than the cap.
pub proof fn law_head_bounded(buf: Seq<u8>)
    requires
        step_for(buf) == ConnStep::Read,
    ensures
        buf.len() < REQUEST_HEADER_CAP,
{
}

/// A complete head stays complete, whatever bytes follow.
pub proof fn law_complete_is_stable(buf: Seq<u8>, more: Seq<u8>)
    requires
        is_complete(buf),
    ensures
        is_complete(buf + more),
{
    let i = choose|i: int| blank_line_at(buf, i);
    assert(blank_line_at(buf + more, i));
}

/// The path of a request is the second word of its first line, whatever the
/// method, the version and the header fields are.
pub proof fn law_path_read(
    method: Seq<char>,
    path: Seq<char>,
    version: Seq<char>,
    fields: Seq<char>,
)
    requires
        !method.contains(' ') && !method.contains('\n'),
        !path.contains(' ') && !path.contains('\n'),
        !version.contains('\n'),
        version.len() == 0 || version.last() != '\r',
    ensures
        path_in(
            first_line(
                method + seq![' '] + path + seq![' '] + version + seq!['\r', '\n'] + fields,
            ),
        ) == path,
{
    let line = method + seq![' '] + path + seq![' '] + version;
    assert forall|i: int| 0 <= i < line.len() implies line[i] != '\n' by {
        if i < method.len() {
            assert(line[i] == method[i]);
        } else if i > method.len() && i <= method.len() + path.len() {
            assert(line[i] == path[i - method.len() - 1]);
        } else if i > method.len() + path.len() + 1 {
            assert(line[i] == version[i - method.len() - path.len() - 2]);
        }
    }
    law_lines_separated(line, fields);
    lemma_first_index(line, ' ');
    let i = first_index(line, ' ') as int;
    assert(line[method.len() as int] == ' ');
    if i < method.len() {
        assert(line[i] == method[i]);
    }
    assert(i == method.len());
    let rest = line.skip(i + 1);
    assert(rest =~= path + seq![' '] + version);
    lemma_first_index(rest, ' ');
    let j = first_index(rest, ' ') as int;
    assert(rest[path.len() as int] == ' ');
    if j < path.len() {
        assert(rest[j] == path[j]);
    }
    assert(j == path.len());
    assert(rest.take(j) =~= path);
}

/// Each of the three resources is reached by its own path and by no other.
pub proof fn law_routes_exact(path: Seq<char>)
    ensures
        route_of(path) == Route::Metrics <==> path == "/metrics"@,
        route_of(path) == Route::Healthz <==> path == "/healthz"@,
        route_of(path) == Route::Ready <==> path == "/ready"@,
{
    reveal_strlit("/metrics");
    reveal_strlit("/healthz");
    reveal_strlit("/ready");
    assert("/metrics"@.len() == 8 && "/healthz"@.len() == 8 && "/ready"@.len() == 6);
    assert("/metrics"@[1] == 'm' && "/healthz"@[1] == 'h');
}

/// A request is answered as soon as its blank line is there, wherever that
/// stands, and only a head that is too long without one is given up.
pub proof fn law_answered_when_complete(before: Seq<u8>, after: Seq<u8>)
    ensures
        step_for(before + seq![13, 10, 13, 10] + after) == ConnStep::Respond(
            route_of(path_of(before + seq![13, 10, 13, 10] + after)),
        ),
        !is_complete(before) && before.len() < 8192 ==> step_for(before) == ConnStep::Read,
        !is_complete(before) && before.len() >= 8192 ==> step_for(before) == ConnStep::Close,
{
    let buf = before + seq![13, 10, 13, 10] + after;
    assert(blank_line_at(buf, before.len() as int));
}

/// The answer to a scrape is complete: the body is its end, and the head in
/// front of it tells the length of the body in bytes.
pub proof fn law_body_announced(body: Seq<char>)
    requires
        encode_utf8(body).len() <= u32::MAX,
    ensures
        ({
            let n = encode_utf8(body).len();
            let t = metrics_text(true, Some(body));
            let head = t.take(t.len() - body.len());
            &&& body.is_suffix_of(t)
            &&& holds(head, "\r\nContent-Length: "@ + dec(n) + "\r\n"@)
            &&& seq!['\r', '\n', '\r', '\n'].is_suffix_of(head)
            &&& has_prefix(t, "HTTP/1.1 200 OK\r\n"@)
        }),
        has_prefix(metrics_text(false, Some(body)), "HTTP/1.1 500 "@),
        has_prefix(metrics_text(true, None), "HTTP/1.1 500 "@),
{
    let n = encode_utf8(body).len();
    let t = metrics_text(true, Some(body));
    let head = metrics_head(n);
    assert(t =~= head + body);
    assert(t.take(t.len() - body.len()) =~= head);
    assert(t.skip(t.len() - body.len()) =~= body);
    reveal_strlit("\r\nContent-Length: ");
    reveal_strlit("\r\n");
    reveal_strlit("\r\nConnection: close\r\n\r\n");
    let end = "\r\nConnection: close\r\n\r\n"@;
    let length = "\r\nContent-Length: "@ + dec(n) + "\r\n"@;
    let front = "HTTP/1.1 200 OK\r\nContent-Type: "@ + METRICS_CONTENT_TYPE@;
    assert(end.take(2) =~= "\r\n"@);
    assert(head =~= front + length + end.skip(2));
    lemma_holds(head, front, length, end.skip(2));
    let blank = seq!['\r', '\n', '\r', '\n'];
    assert(end.skip(end.len() - 4) =~= blank);
    assert(head.skip(head.len() - 4) =~= blank);
    reveal_strlit("HTTP/1.1 200 OK\r\nContent-Type: ");
    reveal_strlit("HTTP/1.1 200 OK\r\n");
    assert(t.take(17) =~= "HTTP/1.1 200 OK\r\n"@);
    reveal_strlit("HTTP/1.1 500 ");
    reveal_strlit(
        "HTTP/1.1 500 Internal Server Error\r\nContent-Length: 0\r\nConnection: close\r\n\r\n",
    );
    assert(HTTP_500@.take(13) =~= "HTTP/1.1 500 "@);
}

/// A probe is answered with success exactly when the exporter is fit.
pub proof fn law_probe_answers(ok: bool)
    ensures
        ok ==> has_prefix(probe_text(ok), "HTTP/1.1 200 OK\r\n"@),
        !ok ==> has_prefix(probe_text(ok), "HTTP/1.1 503 "@),
{
    reveal_strlit("HTTP/1.1 200 OK\r\n");
    reveal_strlit("HTTP/1.1 503 ");
    reveal_strlit(
        "HTTP/1.1 200 OK\r\nContent-Type: text/plain\r\nContent-Length: 2\r\nConnection: close\r\n\r\nOK",
    );
    reveal_strlit(
        "HTTP/1.1 503 Service Unavailable\r\nContent-Length: 0\r\nConnection: close\r\n\r\n",
    );
    assert(HTTP_200_PLAIN@.take(17) =~= "HTTP/1.1 200 OK\r\n"@);
    assert(HTTP_503_PLAIN@.take(13) =~= "HTTP/1.1 503 "@);
}

/// The delay starts at ten milliseconds and doubles with every failure, up to a
/// second.
pub proof fn law_backoff_doubles(errors: nat)
    ensures
        delay_after(0) == 10,
        2 * delay_after(errors) <= 1000 ==> delay_after(errors + 1) == 2 * delay_after(errors),
        2 * delay_after(errors) > 1000 ==> delay_after(errors + 1) == 1000,
{
}

/// A request that is valid text is asked for its path, and any other, like a
/// line without a blank, for the root.
pub proof fn law_request_path(
    buf: Seq<u8>,
    method: Seq<char>,
    path: Seq<char>,
    version: Seq<char>,
    fields: Seq<char>,
)
    requires
        !method.contains(' ') && !method.contains('\n'),
        !path.contains(' ') && !path.contains('\n'),
        !version.contains('\n'),
        version.len() == 0 || version.last() != '\r',
    ensures
        valid_utf8(buf) && decode_utf8(buf) == method + seq![' '] + path + seq![' '] + version
            + seq!['\r', '\n'] + fields ==> path_of(buf) == path,
        !valid_utf8(buf) ==> path_of(buf) == seq!['/'],
        path_in(method) == seq!['/'],
{
    law_path_read(method, path, version, fields);
    reveal_strlit("/");
    assert("/"@ =~= seq!['/']);
    let none = Seq::<char>::empty();
    assert(lines_spec(none).len() == 0);
    assert(first_index(none, ' ') == 0);
    lemma_first_index(method, ' ');
    if first_index(method, ' ') < method.len() {
        assert(method[first_index(method, ' ') as int] == ' ');
    }
}

/// The answer to a scrape names its format, and an unknown path is answered as
/// such.
pub proof fn law_answers_named(body: Seq<char>)
    ensures
        holds(
            metrics_text(true, Some(body)),
            "\r\nContent-Type: "@ + "text/plain; version=0.0.4; charset=utf-8"@ + "\r\n"@,
        ),
        has_prefix(HTTP_404@, "HTTP/1.1 404 "@),
        seq!['\r', '\n', '\r', '\n', 'O', 'K'].is_suffix_of(probe_text(true)),
{
    let n = encode_utf8(body).len() as usize as nat;
    let t = metrics_text(true, Some(body));
    reveal_strlit("HTTP/1.1 200 OK\r\nContent-Type: ");
    reveal_strlit("\r\nContent-Type: ");
    reveal_strlit("\r\nContent-Length: ");
    reveal_strlit("\r\n");
    let first = "HTTP/1.1 200 OK\r\nContent-Type: "@;
    let length = "\r\nContent-Length: "@;
    let kind = "text/plain; version=0.0.4; charset=utf-8"@;
    let part = "\r\nContent-Type: "@ + kind + "\r\n"@;
    let tail = length.skip(2) + dec(n) + "\r\nConnection: close\r\n\r\n"@ + body;
    assert(first =~= first.take(15) + "\r\nContent-Type: "@);
    assert(length =~= "\r\n"@ + length.skip(2));
    assert(t =~= first.take(15) + part + tail);
    lemma_holds(t, first.take(15), part, tail);
    reveal_strlit("HTTP/1.1 404 ");
    reveal_strlit(
        "HTTP/1.1 404 Not Found\r\nContent-Length: 0\r\nConnection: close\r\n\r\n",
    );
    assert(HTTP_404@.take(13) =~= "HTTP/1.1 404 "@);
    reveal_strlit(
        "HTTP/1.1 200 OK\r\nContent-Type: text/plain\r\nContent-Length: 2\r\nConnection: close\r\n\r\nOK",
    );
    let ok = seq!['\r', '\n', '\r', '\n', 'O', 'K'];
    assert(HTTP_200_PLAIN@.skip(HTTP_200_PLAIN@.len() - 6) =~= ok);
}

/// A request is complete exactly when it holds a blank line.
pub proof fn law_complete_exactly(buf: Seq<u8>)
    ensures
        is_complete(buf) <==> holds(buf, seq![13u8, 10u8, 13u8, 10u8]),
{
    let blank = seq![13u8, 10u8, 13u8, 10u8];
    if is_complete(buf) {
        let i = choose|i: int| blank_line_at(buf, i);
        assert(buf.subrange(i, i + blank.len()) =~= blank);
    }
    if holds(buf, blank) {
        let i = choose|i: int|
            0 <= i && i + blank.len() <= buf.len() && #[trigger] buf.subrange(i, i + blank.len())
                == blank;
        let t = buf.subrange(i, i + blank.len());
        assert(t[0] == buf[i] && t[1] == buf[i + 1] && t[2] == buf[i + 2] && t[3] == buf[i + 3]);
        assert(blank_line_at(buf, i));
    }
}

} // verus!
