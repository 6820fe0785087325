//! The HTTP front end's decisions: which reply a request gets on port
//! 80, how a connection collects a request, and how the admin port (8081)
//! takes a module upload.
//!
//! On port 80 a static file whose path equals the request path comes
//! first; otherwise the app with the longest route prefix of the path
//! serves it, with the prefix taken off; where no app matches, or the app
//! has no answer, a fixed plain-text reply goes out.

use vstd::prelude::*;
use vstd::string::StringSliceAdditionalSpecFns;
use vstd::utf8::valid_utf8;
use crate::net::{
    HttpRequest, WasmRouter, app_path, best_route, blank_line_at, blank_line_from, content_length, decimal_value,
    digits_part, is_digit, parse_usize_spec,
    content_length_cuts_char, content_length_readable, find_header_end, lemma_blank_line_from,
    parse_content_length, parse_http, parse_route_prefix, request_body, request_method,
    request_path, route_prefix, store_key, strip_route_prefix, wasm_store_key,
};
use crate::serial::{decimal, usize_decimal};
use crate::text::{append_bytes, bytes_eq, utf8_str};

verus! {

/// What a handler gave back for one request, by its bytes.
pub open spec fn answer_bytes(answer: Option<Vec<u8>>) -> Option<Seq<u8>> {
    match answer {
        Some(v) => Some(v@),
        None => None,
    }
}

/// One request a handler was given: method, path, body, and its answer.
pub type Exchange = (Seq<u8>, Seq<u8>, Seq<u8>, Option<Seq<u8>>);

/// A request handler behind a route: an application that answers
/// requests and takes the latest feed.
///
/// A handler is `modeled()` when `feed()` and `log()` are what it holds
/// and what it was given; of a handler that is not, the contracts promise
/// nothing about them.
pub trait AppHandler {
    /// Whether `feed()` and `log()` describe the handler. The default
    /// bodies stand for a handler of which no model is kept (the
    /// WebAssembly runtime's): it counts as not modeled, and its contracts
    /// then hold of it whatever it does.
    closed spec fn modeled(&self) -> bool {
        false
    }

    /// The feed that the handler holds, where it is modeled.
    closed spec fn feed(&self) -> Seq<u8> {
        Seq::empty()
    }

    /// The requests the handler has been given, in order, each with the
    /// answer it gave, where it is modeled.
    closed spec fn log(&self) -> Seq<Exchange> {
        Seq::empty()
    }

    /// Answers a request; `None` where the handler has no answer.
    fn handle_request(&mut self, method: &[u8], path: &[u8], body: &[u8]) -> (r: Option<Vec<u8>>)
        ensures
            final(self).modeled() == old(self).modeled(),
            old(self).modeled() ==> final(self).log() == old(self).log().push(
                (method@, path@, body@, answer_bytes(r)),
            ),
    ;

    /// Hands the handler the latest feed, which it holds from then on.
    fn update_feed(&mut self, data: Vec<u8>)
        ensures
            final(self).modeled() == old(self).modeled(),
            old(self).modeled() ==> final(self).feed() == data@,
    ;
}

/// An app held in memory: it gives every request the same answer, keeps
/// the requests it was given, and holds the feed it was handed.
pub struct MemApp {
    answer: Option<Vec<u8>>,
    seen: Vec<(Vec<u8>, Vec<u8>, Vec<u8>)>,
    held: Vec<u8>,
    exchanges: Ghost<Seq<Exchange>>,
}

impl MemApp {
    /// An app that answers `answer` (or has no answer) and holds no feed.
    pub fn new(answer: Option<Vec<u8>>) -> (a: Self)
        ensures
            a.modeled(),
            a.feed() == Seq::<u8>::empty(),
            a.requests().len() == 0,
            a.log().len() == 0,
            a.fixed_answer() == answer_bytes(answer),
    {
        MemApp { answer, seen: Vec::new(), held: Vec::new(), exchanges: Ghost(Seq::empty()) }
    }

    /// The answer the app gives every request.
    pub closed spec fn fixed_answer(&self) -> Option<Seq<u8>> {
        answer_bytes(self.answer)
    }

    /// The requests given so far: method, path and body.
    pub closed spec fn requests(&self) -> Seq<(Vec<u8>, Vec<u8>, Vec<u8>)> {
        self.seen@
    }

    /// The requests given so far.
    pub fn requests_seen(&self) -> (r: &Vec<(Vec<u8>, Vec<u8>, Vec<u8>)>)
        ensures
            r@ == self.requests(),
    {
        &self.seen
    }

    /// The feed held.
    pub fn held_feed(&self) -> (r: &Vec<u8>)
        ensures
            r@ == self.feed(),
    {
        &self.held
    }
}

impl AppHandler for MemApp {
    closed spec fn modeled(&self) -> bool {
        true
    }

    closed spec fn feed(&self) -> Seq<u8> {
        self.held@
    }

    closed spec fn log(&self) -> Seq<Exchange> {
        self.exchanges@
    }

    fn handle_request(&mut self, method: &[u8], path: &[u8], body: &[u8]) -> (r: Option<Vec<u8>>)
        ensures
            answer_bytes(r) == old(self).fixed_answer(),
            final(self).fixed_answer() == old(self).fixed_answer(),
            final(self).feed() == old(self).feed(),
            final(self).requests().len() == old(self).requests().len() + 1,
            final(self).requests().drop_last() == old(self).requests(),
            final(self).requests().last().0@ == method@,
            final(self).requests().last().1@ == path@,
            final(self).requests().last().2@ == body@,
    {
        let mut m: Vec<u8> = Vec::new();
        append_bytes(&mut m, method);
        let mut p: Vec<u8> = Vec::new();
        append_bytes(&mut p, path);
        let mut b: Vec<u8> = Vec::new();
        append_bytes(&mut b, body);
        self.seen.push((m, p, b));
        let r = match &self.answer {
            Some(a) => {
                let mut out: Vec<u8> = Vec::new();
                append_bytes(&mut out, a.as_slice());
                Some(out)
            },
            None => None,
        };
        proof {
            self.exchanges@ = self.exchanges@.push((method@, path@, body@, answer_bytes(r)));
        }
        r
    }

    fn update_feed(&mut self, data: Vec<u8>) {
        self.held = data;
    }
}

/// The reply when no app answers.
pub open spec fn fallback_response() -> Seq<u8> {
    "HTTP/1.1 200 OK\r\nContent-Type: text/plain\r\nConnection: close\r\n\r\nHello from unikernel (no WASM)\r\n".spec_bytes()
}

/// The reply when no app answers.
pub fn http_fallback() -> (r: Vec<u8>)
    ensures
        r@ == fallback_response(),
{
    let mut r: Vec<u8> = Vec::new();
    append_bytes(
        &mut r,
        "HTTP/1.1 200 OK\r\nContent-Type: text/plain\r\nConnection: close\r\n\r\nHello from unikernel (no WASM)\r\n".as_bytes(),
    );
    r
}

/// The reply for a static file: status 200, its content type (`text/html`
/// where the stored type is not UTF-8), its length, `Connection: close`,
/// then the content.
pub open spec fn static_response(content: Seq<u8>, ctype: Seq<u8>) -> Seq<u8> {
    let ct = if valid_utf8(ctype) {
        ctype
    } else {
        "text/html".spec_bytes()
    };
    "HTTP/1.1 200 OK\r\nContent-Type: ".spec_bytes() + ct + "\r\nContent-Length: ".spec_bytes()
        + decimal(content.len()) + "\r\nConnection: close\r\n\r\n".spec_bytes() + content
}

/// Builds the reply for a static file.
pub fn static_reply(content: &[u8], ctype: &[u8]) -> (r: Vec<u8>)
    ensures
        r@ == static_response(content@, ctype@),
{
    let mut r: Vec<u8> = Vec::new();
    append_bytes(&mut r, "HTTP/1.1 200 OK\r\nContent-Type: ".as_bytes());
    match utf8_str(ctype) {
        Some(_) => append_bytes(&mut r, ctype),
        None => append_bytes(&mut r, "text/html".as_bytes()),
    }
    append_bytes(&mut r, "\r\nContent-Length: ".as_bytes());
    let digits = usize_decimal(content.len());
    append_bytes(&mut r, digits.as_slice());
    append_bytes(&mut r, "\r\nConnection: close\r\n\r\n".as_bytes());
    append_bytes(&mut r, content);
    r
}

/// The digits of `n` are decimal digits, none of them a `+`, and their
/// value is `n`.
pub proof fn lemma_decimal_digits(n: nat)
    ensures
        decimal(n).len() > 0,
        forall|i: int| 0 <= i < decimal(n).len() ==> is_digit(#[trigger] decimal(n)[i]),
        decimal_value(decimal(n)) == n,
    decreases n,
{
    if n < 10 {
        assert(decimal(n).drop_last() =~= Seq::<u8>::empty());
        assert(decimal_value(Seq::<u8>::empty()) == 0);
    } else {
        lemma_decimal_digits(n / 10);
        let d = decimal(n / 10);
        assert(decimal(n) == d.push((48 + n % 10) as u8));
        assert(decimal(n).drop_last() =~= d);
        assert(decimal_value(decimal(n)) == decimal_value(d) * 10 + (n % 10));
        assert((n / 10) * 10 + n % 10 == n);
        assert forall|i: int| 0 <= i < decimal(n).len() implies is_digit(#[trigger] decimal(n)[i]) by {
            if i < d.len() {
                assert(decimal(n)[i] == d[i]);
            }
        }
    }
}

/// The length that a static reply announces reads back: the decimal
/// digits of a `usize` parse as that `usize`.
pub proof fn lemma_announced_length_reads_back(n: usize)
    ensures
        parse_usize_spec(decimal(n as nat)) == Some(n),
{
    lemma_decimal_digits(n as nat);
    let d = decimal(n as nat);
    assert(is_digit(d[0]));
    assert(digits_part(d) == d);
}

/// The first static file, from position `k` on, whose path is `path`.
pub open spec fn static_from(files: Seq<(Vec<u8>, Vec<u8>, Vec<u8>)>, path: Seq<u8>, k: int) -> Option<int>
    decreases files.len() - k,
{
    if k < 0 || k >= files.len() {
        None
    } else if files[k].0@ == path {
        Some(k)
    } else {
        static_from(files, path, k + 1)
    }
}

/// The static file that serves `path`: the first whose path equals it.
pub open spec fn static_index(files: Seq<(Vec<u8>, Vec<u8>, Vec<u8>)>, path: Seq<u8>) -> Option<int> {
    static_from(files, path, 0)
}

/// Finds the static file (path, content, content type) that serves `path`.
pub fn find_static(files: &[(Vec<u8>, Vec<u8>, Vec<u8>)], path: &[u8]) -> (r: Option<usize>)
    ensures
        match r {
            Some(i) => static_index(files@, path@) == Some(i as int),
            None => static_index(files@, path@) is None,
        },
        r matches Some(i) ==> i < files@.len(),
{
    let mut i: usize = 0;
    while i < files.len()
        invariant
            i <= files@.len(),
            static_index(files@, path@) == static_from(files@, path@, i as int),
        decreases files@.len() - i,
    {
        if bytes_eq(files[i].0.as_slice(), path) {
            return Some(i);
        }
        i = i + 1;
    }
    None
}

/// An app's answer as sent: the answer itself, or the fallback where it
/// has none.
pub fn app_reply(answer: Option<Vec<u8>>) -> (r: Vec<u8>)
    ensures
        r@ == sent_answer(answer_bytes(answer)),
{
    match answer {
        Some(v) => v,
        None => http_fallback(),
    }
}

/// What goes out for an app's answer: the answer itself, or the fallback
/// where it has none.
pub open spec fn sent_answer(answer: Option<Seq<u8>>) -> Seq<u8> {
    match answer {
        Some(v) => v,
        None => fallback_response(),
    }
}

/// The reply to `req`. A static file whose path is the request path comes
/// first; otherwise the app with the longest route prefix of the path
/// answers, given the request's method, the path without that prefix (or
/// `/`) and the body, and its answer goes out (the fallback where it has
/// none); only that app is touched. With no such app the fallback goes out.
pub fn respond<A: AppHandler>(
    files: &[(Vec<u8>, Vec<u8>, Vec<u8>)],
    router: &mut WasmRouter<A>,
    req: &HttpRequest,
) -> (r: Vec<u8>)
    ensures
        final(router).entries().len() == old(router).entries().len(),
        match static_index(files@, req.path@) {
            Some(i) => r@ == static_response(files@[i].1@, files@[i].2@) && final(router).entries()
                == old(router).entries(),
            None => match best_route(
                old(router).entries(),
                req.path@,
                old(router).entries().len() as int,
            ) {
                None => r@ == fallback_response() && final(router).entries() == old(
                    router,
                ).entries(),
                Some(i) => {
                    let before = old(router).entries()[i].1.log();
                    let after = final(router).entries()[i].1.log();
                    &&& forall|j: int|
                        0 <= j < old(router).entries().len() ==> #[trigger] final(router).entries()[j].0
                            == old(router).entries()[j].0 && (j != i ==> final(router).entries()[j]
                            == old(router).entries()[j])
                    &&& final(router).entries()[i].1.modeled() == old(router).entries()[i].1.modeled()
                    &&& old(router).entries()[i].1.modeled() ==> after == before.push(
                        (
                            req.method@,
                            app_path(req.path@, old(router).entries()[i].0@.len() as int),
                            req.body@,
                            after.last().3,
                        ),
                    ) && r@ == sent_answer(after.last().3)
                },
            },
        },
{
    match find_static(files, req.path.as_slice()) {
        Some(i) => static_reply(files[i].1.as_slice(), files[i].2.as_slice()),
        None => {
            let ghost e0 = router.entries();
            match router.route_mut(req.path.as_slice()) {
                Some((plen, app)) => {
                    proof {
                        let i = best_route(e0, req.path@, e0.len() as int).unwrap();
                        lemma_best_route_prefix(e0, req.path@, e0.len() as int);
                    }
                    let wasm_path = strip_route_prefix(req.path.as_slice(), plen);
                    let answer = app.handle_request(
                        req.method.as_slice(),
                        wasm_path.as_slice(),
                        req.body.as_slice(),
                    );
                    app_reply(answer)
                },
                None => http_fallback(),
            }
        },
    }
}

/// The route `best_route` picks is a prefix of the path.
pub proof fn lemma_best_route_prefix<A>(entries: Seq<(Vec<u8>, A)>, path: Seq<u8>, n: int)
    requires
        0 <= n <= entries.len(),
    ensures
        best_route(entries, path, n) matches Some(i) ==> 0 <= i < n && entries[i].0@.is_prefix_of(
            path,
        ),
    decreases n,
{
    if n > 0 {
        lemma_best_route_prefix(entries, path, n - 1);
    }
}

// ─── Collecting a request on port 80 ────────────────────────────────

/// A port-80 connection: the bytes received so far, and whether it has
/// been answered.
pub struct HttpConn {
    req_buf: Vec<u8>,
    answered: bool,
}

impl HttpConn {
    pub closed spec fn buffer(&self) -> Seq<u8> {
        self.req_buf@
    }

    pub closed spec fn answered(&self) -> bool {
        self.answered
    }

    /// A connection with nothing received.
    pub fn new() -> (c: Self)
        ensures
            c.buffer() == Seq::<u8>::empty(),
            !c.answered(),
    {
        HttpConn { req_buf: Vec::new(), answered: false }
    }

    /// Starts over for the next connection.
    pub fn reset(&mut self)
        ensures
            final(self).buffer() == Seq::<u8>::empty(),
            !final(self).answered(),
    {
        self.req_buf = Vec::new();
        self.answered = false;
    }

    /// Whether the connection still waits for its request.
    pub fn accepting(&self) -> (r: bool)
        ensures
            r == !self.answered(),
    {
        !self.answered
    }

    /// Takes in received bytes; once the headers are complete (a blank
    /// line has arrived), returns the request and counts the connection
    /// as answered.
    pub fn on_data(&mut self, data: &[u8]) -> (r: Option<HttpRequest>)
        requires
            !old(self).answered(),
        ensures
            final(self).buffer() == old(self).buffer() + data@,
            match blank_line_from(old(self).buffer() + data@, 0) {
                Some(_) => final(self).answered() && (r matches Some(req) && {
                    let b = old(self).buffer() + data@;
                    &&& req.method@ == request_method(b)
                    &&& req.path@ == request_path(b)
                    &&& req.body@ == request_body(b)
                }),
                None => !final(self).answered() && r is None,
            },
    {
        append_bytes(&mut self.req_buf, data);
        match find_header_end(self.req_buf.as_slice()) {
            Some(_) => {
                self.answered = true;
                Some(parse_http(self.req_buf.as_slice()))
            },
            None => None,
        }
    }
}

// ─── The admin port ─────────────────────────────────────────────────

/// The largest module the admin port takes, in bytes.
pub const MAX_UPLOAD_SIZE: usize = 524288;

pub open spec fn bad_request_reply() -> Seq<u8> {
    "HTTP/1.0 400 Bad Request\r\n\r\n".spec_bytes()
}

pub open spec fn too_large_reply() -> Seq<u8> {
    "HTTP/1.0 413 Payload Too Large\r\n\r\n".spec_bytes()
}

pub open spec fn upload_ok_reply() -> Seq<u8> {
    "HTTP/1.0 200 OK\r\nContent-Length: 2\r\n\r\nOK".spec_bytes()
}

fn literal(s: &str) -> (r: Vec<u8>)
    ensures
        r@ == s.spec_bytes(),
{
    let mut r: Vec<u8> = Vec::new();
    append_bytes(&mut r, s.as_bytes());
    r
}

/// Where an upload stands.
pub enum AdminState {
    /// No upload under way.
    Idle,
    /// Reading the headers, received so far.
    ReceivingHeaders(Vec<u8>),
    /// Reading a body of `total` bytes for route `prefix`.
    ReceivingBody { prefix: Vec<u8>, buf: Vec<u8>, total: usize },
}

/// `AdminState` with its buffers as sequences.
pub enum AdminPhase {
    Idle,
    Headers(Seq<u8>),
    Body(Seq<u8>, Seq<u8>, nat),
}

pub open spec fn phase_of(s: AdminState) -> AdminPhase {
    match s {
        AdminState::Idle => AdminPhase::Idle,
        AdminState::ReceivingHeaders(h) => AdminPhase::Headers(h@),
        AdminState::ReceivingBody { prefix, buf, total } => AdminPhase::Body(
            prefix@,
            buf@,
            total as nat,
        ),
    }
}

/// What the admin port does after a step.
pub enum AdminAction {
    Nothing,
    /// Send this and close the connection.
    Reply(Vec<u8>),
    /// Store `module` under `key` (where there is a store), install it for
    /// route `prefix`, send `reply` and close the connection.
    Install { key: Vec<u8>, prefix: Vec<u8>, module: Vec<u8>, reply: Vec<u8> },
}

pub enum AdminOutcome {
    Nothing,
    Reply(Seq<u8>),
    Install(Seq<u8>, Seq<u8>, Seq<u8>, Seq<u8>),
}

pub open spec fn outcome_of(a: AdminAction) -> AdminOutcome {
    match a {
        AdminAction::Nothing => AdminOutcome::Nothing,
        AdminAction::Reply(r) => AdminOutcome::Reply(r@),
        AdminAction::Install { key, prefix, module, reply } => AdminOutcome::Install(
            key@,
            prefix@,
            module@,
            reply@,
        ),
    }
}

/// One step of the admin port, given whether the peer may send and the
/// bytes received in this step. An idle port starts reading headers once
/// the peer may send. Once the headers are complete, their
/// `Content-Length` gives the body's size and their path the route
/// (`/update/bbs` installs `/bbs`); without a length the request is
/// refused with 400. Once the body is complete, a body over 512 KiB is
/// refused with 413; any other is installed, its first `Content-Length`
/// bytes kept.
pub open spec fn admin_next(p: AdminPhase, may_recv: bool, data: Seq<u8>) -> (AdminPhase, AdminOutcome) {
    match p {
        AdminPhase::Idle => if may_recv {
            (AdminPhase::Headers(Seq::empty()), AdminOutcome::Nothing)
        } else {
            (AdminPhase::Idle, AdminOutcome::Nothing)
        },
        AdminPhase::Headers(h) => {
            let b = h + data;
            match blank_line_from(b, 0) {
                None => (AdminPhase::Headers(b), AdminOutcome::Nothing),
                Some(pos) => match content_length(b.take(pos)) {
                    Some(total) => (
                        AdminPhase::Body(
                            route_prefix(request_path(b.take(pos))),
                            b.skip(pos + 4),
                            total as nat,
                        ),
                        AdminOutcome::Nothing,
                    ),
                    None => (AdminPhase::Idle, AdminOutcome::Reply(bad_request_reply())),
                },
            }
        },
        AdminPhase::Body(prefix, buf, total) => {
            let b = buf + data;
            if b.len() < total {
                (AdminPhase::Body(prefix, b, total), AdminOutcome::Nothing)
            } else if total > MAX_UPLOAD_SIZE {
                (AdminPhase::Idle, AdminOutcome::Reply(too_large_reply()))
            } else {
                (
                    AdminPhase::Idle,
                    AdminOutcome::Install(store_key(prefix), prefix, b.take(total as int), upload_ok_reply()),
                )
            }
        },
    }
}

/// Whether a step on `data` stays defined: the completed headers' lines
/// can be read without cutting a UTF-8 character.
pub open spec fn admin_step_defined(p: AdminPhase, data: Seq<u8>) -> bool {
    match p {
        AdminPhase::Headers(h) => match blank_line_from(h + data, 0) {
            Some(pos) => !content_length_cuts_char((h + data).take(pos)),
            None => true,
        },
        _ => true,
    }
}

/// A body is only ever read for a route, which is never empty.
pub open spec fn admin_wf(p: AdminPhase) -> bool {
    p matches AdminPhase::Body(prefix, _, _) ==> prefix.len() >= 1
}

/// An upload is installed whole: a connection that sends headers whose
/// first blank line ends them, with a `Content-Length` of at most 512 KiB,
/// followed by at least that many body bytes, gets its module installed
/// under the route that its path names, cut to that length, and the port
/// goes back to idle.
pub proof fn lemma_upload_installs(head: Seq<u8>, body: Seq<u8>, total: usize)
    requires
        blank_line_from(head + seq![13u8, 10, 13, 10], 0) == Some(head.len() as int),
        content_length(head) == Some(total),
        total <= MAX_UPLOAD_SIZE,
        body.len() >= total,
    ensures
        ({
            let s1 = admin_next(AdminPhase::Idle, true, Seq::empty());
            let s2 = admin_next(s1.0, true, head + seq![13u8, 10, 13, 10] + body);
            let s3 = admin_next(s2.0, true, Seq::empty());
            let route = route_prefix(request_path(head));
            &&& s1.1 == AdminOutcome::Nothing
            &&& s2.1 == AdminOutcome::Nothing
            &&& s3 == (
                AdminPhase::Idle,
                AdminOutcome::Install(store_key(route), route, body.take(total as int), upload_ok_reply()),
            )
        }),
{
    let sep = seq![13u8, 10, 13, 10];
    let b = Seq::<u8>::empty() + (head + sep + body);
    assert(b =~= (head + sep) + body);
    lemma_blank_line_from(head + sep, 0);
    crate::fetch::lemma_blank_line_prefix(head + sep, body, 0);
    assert(b.take(head.len() as int) =~= head);
    assert(b.skip(head.len() + 4int) =~= body);
    assert(body + Seq::<u8>::empty() =~= body);
}

/// The admin port's phase after steps on `chunks`, one after another,
/// each with data to read.
pub open spec fn admin_chunks(p: AdminPhase, chunks: Seq<Seq<u8>>) -> AdminPhase
    decreases chunks.len(),
{
    if chunks.len() == 0 {
        p
    } else {
        admin_next(admin_chunks(p, chunks.drop_last()), true, chunks.last()).0
    }
}

proof fn lemma_admin_chunks_keep(route: Seq<u8>, buf: Seq<u8>, total: nat, chunks: Seq<Seq<u8>>)
    requires
        (buf + chunks.flatten()).len() < total,
    ensures
        admin_chunks(AdminPhase::Body(route, buf, total), chunks) == AdminPhase::Body(
            route,
            buf + chunks.flatten(),
            total,
        ),
    decreases chunks.len(),
{
    if chunks.len() > 0 {
        crate::fetch::lemma_flatten_last(chunks);
        lemma_admin_chunks_keep(route, buf, total, chunks.drop_last());
        assert(buf + chunks.drop_last().flatten() + chunks.last() =~= buf + chunks.flatten());
    } else {
        assert(buf + chunks.flatten() =~= buf);
    }
}

proof fn lemma_no_blank_line(s: Seq<u8>, k: int)
    requires
        0 <= k,
        forall|i: int| k <= i ==> !#[trigger] blank_line_at(s, i),
    ensures
        blank_line_from(s, k) is None,
    decreases s.len() - k,
{
    if k + 4 <= s.len() {
        lemma_no_blank_line(s, k + 1);
    }
}

proof fn lemma_admin_headers_keep(chunks: Seq<Seq<u8>>)
    requires
        forall|i: int| 0 <= i ==> !#[trigger] blank_line_at(chunks.flatten(), i),
    ensures
        admin_chunks(AdminPhase::Headers(Seq::empty()), chunks) == AdminPhase::Headers(chunks.flatten()),
    decreases chunks.len(),
{
    if chunks.len() > 0 {
        crate::fetch::lemma_flatten_last(chunks);
        let front = chunks.drop_last().flatten();
        assert forall|i: int| 0 <= i implies !#[trigger] blank_line_at(front, i) by {
            if blank_line_at(front, i) {
                assert(blank_line_at(chunks.flatten(), i));
            }
        }
        lemma_admin_headers_keep(chunks.drop_last());
        lemma_no_blank_line(chunks.flatten(), 0);
    } else {
        assert(chunks.flatten() =~= Seq::<u8>::empty());
    }
}

/// The admin port keeps every header byte it reads, in the order read:
/// once a connection is there, reads that bring no blank line leave it
/// holding exactly what they brought, joined in order.
pub proof fn lemma_admin_headers_in_chunks(chunks: Seq<Seq<u8>>)
    requires
        forall|i: int| 0 <= i ==> !#[trigger] blank_line_at(chunks.flatten(), i),
    ensures
        admin_chunks(admin_next(AdminPhase::Idle, true, Seq::empty()).0, chunks)
            == AdminPhase::Headers(chunks.flatten()),
{
    lemma_admin_headers_keep(chunks);
}

/// An upload is installed whole, however its body is split into reads:
/// after headers (in which no `\r\n\r\n` starts before the one that
/// ends them) whose `Content-Length` is at most 512 KiB, and body parts
/// `p0` (read with the headers), `p1`, ..., `pk`, of which only the last
/// completes the body, the port installs `p0 + p1 + ... + pk` cut to the
/// length under the route that the path names; until then it holds the
/// parts read so far, in the order read.
pub proof fn lemma_upload_in_chunks(head: Seq<u8>, parts: Seq<Seq<u8>>, total: usize)
    requires
        forall|i: int| 0 <= i < head.len() ==> !blank_line_at(head + seq![13u8, 10, 13, 10], i),
        content_length(head) == Some(total),
        total <= MAX_UPLOAD_SIZE,
        parts.len() >= 2,
        parts.drop_last().flatten().len() < total <= parts.flatten().len(),
    ensures
        ({
            let s1 = admin_next(AdminPhase::Idle, true, Seq::empty());
            let s2 = admin_next(s1.0, true, head + seq![13u8, 10, 13, 10] + parts[0]);
            let route = route_prefix(request_path(head));
            let p = admin_chunks(s2.0, parts.drop_last().drop_first());
            let s3 = admin_next(p, true, parts.last());
            &&& s1.1 == AdminOutcome::Nothing
            &&& s2.1 == AdminOutcome::Nothing
            &&& p == AdminPhase::Body(route, parts.drop_last().flatten(), total as nat)
            &&& s3 == (
                AdminPhase::Idle,
                AdminOutcome::Install(
                    store_key(route),
                    route,
                    parts.flatten().take(total as int),
                    upload_ok_reply(),
                ),
            )
        }),
{
    let sep = seq![13u8, 10, 13, 10];
    let b = Seq::<u8>::empty() + (head + sep + parts[0]);
    assert(b =~= head + sep + parts[0]);
    crate::net::lemma_headers_end(head, parts[0]);
    assert(b.take(head.len() as int) =~= head);
    assert(b.skip(head.len() + 4int) =~= parts[0]);
    let route = route_prefix(request_path(head));
    let front = parts.drop_last();
    let chunks = front.drop_first();
    assert(front.flatten() == front[0] + chunks.flatten());
    lemma_admin_chunks_keep(route, parts[0], total as nat, chunks);
    crate::fetch::lemma_flatten_last(parts);
}

/// The admin port's connection.
pub struct AdminConn {
    state: AdminState,
}

impl AdminConn {
    pub closed spec fn phase(&self) -> AdminPhase {
        phase_of(self.state)
    }

    pub fn new() -> (c: Self)
        ensures
            c.phase() == AdminPhase::Idle,
            admin_wf(c.phase()),
    {
        AdminConn { state: AdminState::Idle }
    }

    /// The connection closed: back to idle.
    pub fn on_closed(&mut self)
        ensures
            final(self).phase() == AdminPhase::Idle,
            admin_wf(final(self).phase()),
    {
        self.state = AdminState::Idle;
    }

    /// How many bytes to read from the socket in the next step: none when
    /// idle, 1024 while reading headers, 4096 while reading a body.
    pub fn read_size(&self) -> (r: usize)
        ensures
            self.phase() is Idle ==> r == 0,
            self.phase() is Headers ==> r == 1024,
            self.phase() is Body ==> r == 4096,
    {
        match &self.state {
            AdminState::Idle => 0,
            AdminState::ReceivingHeaders(_) => 1024,
            AdminState::ReceivingBody { .. } => 4096,
        }
    }

    /// Whether `step` may be called with `data`.
    pub fn step_defined(&self, data: &[u8]) -> (r: bool)
        ensures
            r == admin_step_defined(self.phase(), data@),
    {
        match &self.state {
            AdminState::ReceivingHeaders(h) => {
                let mut b: Vec<u8> = Vec::new();
                append_bytes(&mut b, h.as_slice());
                append_bytes(&mut b, data);
                proof {
                    lemma_blank_line_from(b@, 0);
                }
                match find_header_end(b.as_slice()) {
                    Some(pos) => {
                        let head = vstd::slice::slice_subrange(b.as_slice(), 0, pos);
                        assert(head@ =~= b@.take(pos as int));
                        content_length_readable(head)
                    },
                    None => true,
                }
            },
            _ => true,
        }
    }

    /// One step: see `admin_next`.
    pub fn step(&mut self, may_recv: bool, data: &[u8]) -> (a: AdminAction)
        requires
            admin_wf(old(self).phase()),
            admin_step_defined(old(self).phase(), data@),
        ensures
            (final(self).phase(), outcome_of(a)) == admin_next(old(self).phase(), may_recv, data@),
            admin_wf(final(self).phase()),
    {
        let mut state = AdminState::Idle;
        core::mem::swap(&mut state, &mut self.state);
        match state {
            AdminState::Idle => {
                if may_recv {
                    let empty: Vec<u8> = Vec::new();
                    assert(empty@ =~= Seq::<u8>::empty());
                    self.state = AdminState::ReceivingHeaders(empty);
                }
                AdminAction::Nothing
            },
            AdminState::ReceivingHeaders(h) => {
                let mut b = h;
                append_bytes(&mut b, data);
                proof {
                    lemma_blank_line_from(b@, 0);
                }
                match find_header_end(b.as_slice()) {
                    None => {
                        self.state = AdminState::ReceivingHeaders(b);
                        AdminAction::Nothing
                    },
                    Some(pos) => {
                        let head = vstd::slice::slice_subrange(b.as_slice(), 0, pos);
                        assert(head@ =~= b@.take(pos as int));
                        match parse_content_length(head) {
                            Some(total) => {
                                let req = parse_http(head);
                                let prefix = parse_route_prefix(req.path.as_slice());
                                let n = b.len();
                                let rest = vstd::slice::slice_subrange(b.as_slice(), pos + 4, n);
                                let mut body: Vec<u8> = Vec::new();
                                append_bytes(&mut body, rest);
                                assert(body@ =~= b@.skip(pos + 4));
                                self.state = AdminState::ReceivingBody { prefix, buf: body, total };
                                AdminAction::Nothing
                            },
                            None => AdminAction::Reply(literal("HTTP/1.0 400 Bad Request\r\n\r\n")),
                        }
                    },
                }
            },
            AdminState::ReceivingBody { prefix, buf, total } => {
                let mut b = buf;
                append_bytes(&mut b, data);
                if b.len() < total {
                    self.state = AdminState::ReceivingBody { prefix, buf: b, total };
                    AdminAction::Nothing
                } else if total > MAX_UPLOAD_SIZE {
                    AdminAction::Reply(literal("HTTP/1.0 413 Payload Too Large\r\n\r\n"))
                } else {
                    let module_bytes = vstd::slice::slice_subrange(b.as_slice(), 0, total);
                    let mut module: Vec<u8> = Vec::new();
                    append_bytes(&mut module, module_bytes);
                    assert(module@ =~= b@.take(total as int));
                    let key = wasm_store_key(prefix.as_slice());
                    AdminAction::Install {
                        key,
                        prefix,
                        module,
                        reply: literal("HTTP/1.0 200 OK\r\nContent-Length: 2\r\n\r\nOK"),
                    }
                }
            },
        }
    }
}

} // verus!
