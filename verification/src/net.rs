//! The HTTP front end's parsing and routing: the request line and body,
//! the end of the headers, `Content-Length`, the admin endpoint's route
//! prefixes, and the router that picks a WebAssembly app by the longest
//! matching path prefix.

use vstd::prelude::*;
use crate::text::{append_bytes, bytes_eq};

verus! {

/// The first index at or after `k` where `s` holds `b`, or `s.len()`.
pub open spec fn first_index(s: Seq<u8>, b: u8, k: int) -> int
    decreases s.len() - k,
{
    if k >= s.len() {
        s.len() as int
    } else if s[k] == b {
        k
    } else {
        first_index(s, b, k + 1)
    }
}

fn find_byte(s: &[u8], b: u8, from: usize) -> (r: usize)
    requires
        from <= s@.len(),
    ensures
        r == first_index(s@, b, from as int),
        from <= r <= s@.len(),
{
    let mut k = from;
    while k < s.len() && s[k] != b
        invariant
            from <= k <= s@.len(),
            first_index(s@, b, from as int) == first_index(s@, b, k as int),
        decreases s@.len() - k,
    {
        k = k + 1;
    }
    k
}

/// `s` holds `\r\n\r\n` at `i`.
pub open spec fn blank_line_at(s: Seq<u8>, i: int) -> bool {
    0 <= i && i + 4 <= s.len() && s[i] == 13 && s[i + 1] == 10 && s[i + 2] == 13 && s[i + 3] == 10
}

/// The first index at or after `k` where `\r\n\r\n` starts.
pub open spec fn blank_line_from(s: Seq<u8>, k: int) -> Option<int>
    decreases s.len() - k,
{
    if k + 4 > s.len() {
        None
    } else if blank_line_at(s, k) {
        Some(k)
    } else {
        blank_line_from(s, k + 1)
    }
}

pub proof fn lemma_blank_line_from(s: Seq<u8>, k: int)
    requires
        0 <= k,
    ensures
        blank_line_from(s, k) matches Some(i) ==> k <= i && blank_line_at(s, i),
    decreases s.len() - k,
{
    if k + 4 <= s.len() && !blank_line_at(s, k) {
        lemma_blank_line_from(s, k + 1);
    }
}

/// Where the headers end: the first `\r\n\r\n`.
pub fn find_header_end(buf: &[u8]) -> (r: Option<usize>)
    ensures
        (match r {
            Some(i) => Some(i as int),
            None => None,
        }) == blank_line_from(buf@, 0),
{
    let mut k: usize = 0;
    while k < buf.len() && buf.len() - k >= 4
        invariant
            k <= buf@.len(),
            blank_line_from(buf@, 0) == blank_line_from(buf@, k as int),
        decreases buf@.len() - k,
    {
        if buf[k] == 13 && buf[k + 1] == 10 && buf[k + 2] == 13 && buf[k + 3] == 10 {
            return Some(k);
        }
        k = k + 1;
    }
    None
}

/// A request as the server sees it.
pub struct HttpRequest {
    pub method: Vec<u8>,
    pub path: Vec<u8>,
    pub body: Vec<u8>,
}

/// The request line: the bytes before the first `\r`.
pub open spec fn request_line(data: Seq<u8>) -> Seq<u8> {
    data.take(first_index(data, 13, 0))
}

/// The method: the request line up to its first space.
pub open spec fn request_method(data: Seq<u8>) -> Seq<u8> {
    let line = request_line(data);
    line.take(first_index(line, 32, 0))
}

/// The path: what follows the first space of the request line, up to the
/// next space; `/` where the line has no space.
pub open spec fn request_path(data: Seq<u8>) -> Seq<u8> {
    let line = request_line(data);
    let sp = first_index(line, 32, 0);
    if sp >= line.len() {
        seq![47u8]
    } else {
        line.subrange(sp + 1, first_index(line, 32, sp + 1))
    }
}

/// The body: what follows the first `\r\n\r\n`, or nothing.
pub open spec fn request_body(data: Seq<u8>) -> Seq<u8> {
    match blank_line_from(data, 0) {
        Some(i) => data.skip(i + 4),
        None => Seq::empty(),
    }
}

proof fn lemma_first_index_skip(s: Seq<u8>, b: u8, k: int, j: int)
    requires
        0 <= k <= j <= s.len(),
        forall|i: int| k <= i < j ==> s[i] != b,
    ensures
        first_index(s, b, k) == first_index(s, b, j),
    decreases j - k,
{
    if k < j {
        lemma_first_index_skip(s, b, k + 1, j);
    }
}

proof fn lemma_first_index_bounds(s: Seq<u8>, b: u8, k: int)
    requires
        0 <= k <= s.len(),
    ensures
        k <= first_index(s, b, k) <= s.len(),
    decreases s.len() - k,
{
    if k < s.len() && s[k] != b {
        lemma_first_index_bounds(s, b, k + 1);
    }
}

proof fn lemma_blank_line_skip(s: Seq<u8>, k: int, j: int)
    requires
        0 <= k <= j,
        forall|i: int| k <= i < j ==> !blank_line_at(s, i),
    ensures
        blank_line_from(s, k) == blank_line_from(s, j),
    decreases j - k,
{
    if k < j {
        lemma_blank_line_skip(s, k + 1, j);
    }
}

/// Headers in which no `\r\n\r\n` starts before the one that ends them
/// end there, whatever follows.
pub proof fn lemma_headers_end(head: Seq<u8>, rest: Seq<u8>)
    requires
        forall|i: int| 0 <= i < head.len() ==> !blank_line_at(head + seq![13u8, 10, 13, 10], i),
    ensures
        blank_line_from(head + seq![13u8, 10, 13, 10] + rest, 0) == Some(head.len() as int),
{
    let sep = seq![13u8, 10, 13, 10];
    let data = head + sep + rest;
    assert forall|i: int| 0 <= i < head.len() implies !blank_line_at(data, i) by {
        assert(!blank_line_at(head + sep, i));
        if blank_line_at(data, i) {
            assert(i + 4 <= (head + sep).len());
            assert((head + sep)[i] == data[i] && (head + sep)[i + 1] == data[i + 1]
                && (head + sep)[i + 2] == data[i + 2] && (head + sep)[i + 3] == data[i + 3]);
        }
    }
    lemma_blank_line_skip(data, 0, head.len() as int);
    assert(blank_line_at(data, head.len() as int));
}

/// A request's body is everything after the blank line that ends its
/// headers, whatever bytes it holds (line breaks, further blank lines):
/// for headers `head` in which no `\r\n\r\n` starts before the one that
/// ends them, the body of `head`, `\r\n\r\n`, `body` is exactly `body`.
pub proof fn lemma_request_body_after_headers(head: Seq<u8>, body: Seq<u8>)
    requires
        forall|i: int| 0 <= i < head.len() ==> !blank_line_at(head + seq![13u8, 10, 13, 10], i),
    ensures
        request_body(head + seq![13u8, 10, 13, 10] + body) == body,
{
    lemma_headers_end(head, body);
    assert((head + seq![13u8, 10, 13, 10] + body).skip(head.len() + 4int) =~= body);
}

/// The request line gives the method and the path: for a method and a
/// path without spaces or carriage returns, a request that starts with
/// the method, a space, the path and a space has that method and that
/// path, whatever follows.
pub proof fn lemma_request_line_parts(method: Seq<u8>, path: Seq<u8>, rest: Seq<u8>)
    requires
        forall|i: int| 0 <= i < method.len() ==> method[i] != 32 && method[i] != 13,
        forall|i: int| 0 <= i < path.len() ==> path[i] != 32 && path[i] != 13,
    ensures
        request_method(method + seq![32u8] + path + seq![32u8] + rest) == method,
        request_path(method + seq![32u8] + path + seq![32u8] + rest) == path,
{
    let data = method + seq![32u8] + path + seq![32u8] + rest;
    let m = method.len() as int;
    let q = path.len() as int;
    assert forall|i: int| 0 <= i < m + q + 2 implies data[i] != 13 by {
        if i < m {
            assert(data[i] == method[i]);
        } else if m < i < m + q + 1 {
            assert(data[i] == path[i - m - 1]);
        }
    }
    lemma_first_index_skip(data, 13, 0, m + q + 2);
    lemma_first_index_bounds(data, 13, m + q + 2);
    let line = request_line(data);
    assert(line.len() >= m + q + 2);
    assert forall|i: int| 0 <= i < m implies line[i] != 32 by {
        assert(line[i] == data[i]);
        assert(data[i] == method[i]);
    }
    lemma_first_index_skip(line, 32, 0, m);
    assert(line[m] == 32);
    assert(line.take(m) =~= method);
    assert forall|i: int| m + 1 <= i < m + 1 + q implies line[i] != 32 by {
        assert(line[i] == data[i]);
        assert(data[i] == path[i - m - 1]);
    }
    lemma_first_index_skip(line, 32, m + 1, m + 1 + q);
    assert(line[m + 1 + q] == 32);
    assert(line.subrange(m + 1, m + 1 + q) =~= path);
}

fn copy_range(s: &[u8], from: usize, to: usize) -> (r: Vec<u8>)
    requires
        from <= to <= s@.len(),
    ensures
        r@ == s@.subrange(from as int, to as int),
{
    let mut r: Vec<u8> = Vec::new();
    let mut k = from;
    while k < to
        invariant
            from <= k <= to <= s@.len(),
            r@ == s@.subrange(from as int, k as int),
        decreases to - k,
    {
        r.push(s[k]);
        k = k + 1;
        assert(r@ =~= s@.subrange(from as int, k as int));
    }
    r
}

/// Splits a request into method, path and body.
pub fn parse_http(data: &[u8]) -> (req: HttpRequest)
    ensures
        req.method@ == request_method(data@),
        req.path@ == request_path(data@),
        req.body@ == request_body(data@),
{
    let line_end = find_byte(data, 13, 0);
    let line = vstd::slice::slice_subrange(data, 0, line_end);
    assert(line@ =~= request_line(data@));
    let sp = find_byte(line, 32, 0);
    let method = copy_range(line, 0, sp);
    assert(method@ =~= request_method(data@));
    let path = if sp >= line.len() {
        let mut p: Vec<u8> = Vec::new();
        p.push(47u8);
        assert(p@ =~= seq![47u8]);
        p
    } else {
        let sp2 = find_byte(line, 32, sp + 1);
        copy_range(line, sp + 1, sp2)
    };
    proof {
        lemma_blank_line_from(data@, 0);
    }
    let body = match find_header_end(data) {
        Some(pos) => {
            let n = data.len();
            assert(pos + 4 <= n);
            copy_range(data, pos + 4, n)
        },
        None => Vec::new(),
    };
    HttpRequest { method, path, body }
}

/// `prefix` starts `s`.
fn starts_with(s: &[u8], prefix: &[u8]) -> (r: bool)
    ensures
        r == prefix@.is_prefix_of(s@),
{
    if prefix.len() > s.len() {
        return false;
    }
    let head = vstd::slice::slice_subrange(s, 0, prefix.len());
    bytes_eq(head, prefix)
}

/// The route that an admin upload to `path` installs: `/update/bbs` gives
/// `/bbs`; `/update` and `/update/` give `/`; a path that does not start
/// with `/update` gives `/`; otherwise what follows `/update`.
pub open spec fn route_prefix(path: Seq<u8>) -> Seq<u8> {
    let key = seq![47u8, 117, 112, 100, 97, 116, 101];
    if key.is_prefix_of(path) {
        let rest = path.skip(7);
        if rest.len() == 0 || rest == seq![47u8] {
            seq![47u8]
        } else {
            rest
        }
    } else {
        seq![47u8]
    }
}

fn slash() -> (r: Vec<u8>)
    ensures
        r@ == seq![47u8],
{
    let mut v: Vec<u8> = Vec::new();
    v.push(47u8);
    assert(v@ =~= seq![47u8]);
    v
}

/// The route prefix of an admin upload path.
pub fn parse_route_prefix(path: &[u8]) -> (r: Vec<u8>)
    ensures
        r@ == route_prefix(path@),
{
    let key: [u8; 7] = [47, 117, 112, 100, 97, 116, 101];
    assert(key@ =~= seq![47u8, 117, 112, 100, 97, 116, 101]);
    if starts_with(path, key.as_slice()) {
        let rest = vstd::slice::slice_subrange(path, 7, path.len());
        assert(rest@ =~= path@.skip(7));
        if rest.len() == 0 || (rest.len() == 1 && rest[0] == 47) {
            if rest.len() == 1 {
                assert(rest@ =~= seq![47u8]);
            }
            return slash();
        }
        proof {
            if rest@ == seq![47u8] {
                assert(rest@.len() == 1);
            }
        }
        return copy_range(rest, 0, rest.len());
    }
    slash()
}

/// The path handed to an app: the request path without the route prefix
/// of `prefix_len` bytes, or `/` where nothing is left.
pub open spec fn app_path(path: Seq<u8>, prefix_len: int) -> Seq<u8> {
    let rest = path.skip(prefix_len);
    if rest.len() == 0 {
        seq![47u8]
    } else {
        rest
    }
}

/// Strips the route prefix from a request path.
pub fn strip_route_prefix(path: &[u8], prefix_len: usize) -> (r: Vec<u8>)
    requires
        prefix_len <= path@.len(),
    ensures
        r@ == app_path(path@, prefix_len as int),
{
    if prefix_len == path.len() {
        return slash();
    }
    copy_range(path, prefix_len, path.len())
}

/// The key under which an uploaded module for route `prefix` is stored:
/// `app.wasm` for `/`, else the prefix without its first byte (or `app`
/// where that is not UTF-8) followed by `.wasm`.
pub open spec fn store_key(prefix: Seq<u8>) -> Seq<u8> {
    let wasm = seq![46u8, 119, 97, 115, 109];
    if prefix == seq![47u8] {
        seq![97u8, 112, 112] + wasm
    } else if vstd::utf8::valid_utf8(prefix.skip(1)) {
        prefix.skip(1) + wasm
    } else {
        seq![97u8, 112, 112] + wasm
    }
}

/// The store key of the module uploaded for route `prefix`.
pub fn wasm_store_key(prefix: &[u8]) -> (r: Vec<u8>)
    requires
        prefix@.len() >= 1,
    ensures
        r@ == store_key(prefix@),
{
    let app: [u8; 3] = [97, 112, 112];
    let wasm: [u8; 5] = [46, 119, 97, 115, 109];
    assert(app@ =~= seq![97u8, 112, 112]);
    assert(wasm@ =~= seq![46u8, 119, 97, 115, 109]);
    let mut r: Vec<u8> = Vec::new();
    let is_root = prefix.len() == 1 && prefix[0] == 47;
    proof {
        if prefix@ == seq![47u8] {
            assert(is_root);
        }
    }
    if is_root {
        assert(prefix@ =~= seq![47u8]);
        append_bytes(&mut r, app.as_slice());
    } else {
        let rest = vstd::slice::slice_subrange(prefix, 1, prefix.len());
        assert(rest@ =~= prefix@.skip(1));
        match crate::text::utf8_str(rest) {
            Some(_) => append_bytes(&mut r, rest),
            None => append_bytes(&mut r, app.as_slice()),
        }
    }
    append_bytes(&mut r, wasm.as_slice());
    r
}

// ─── The router ─────────────────────────────────────────────────────

/// The entry that serves `path` among the first `n`: the one with the
/// longest prefix of `path`, the later one on a tie.
pub open spec fn best_route<A>(entries: Seq<(Vec<u8>, A)>, path: Seq<u8>, n: int) -> Option<int>
    decreases n,
{
    if n <= 0 {
        None
    } else {
        let b = best_route(entries, path, n - 1);
        let best_len = match b {
            Some(j) => entries[j].0@.len() as int,
            None => 0,
        };
        if entries[n - 1].0@.is_prefix_of(path) && entries[n - 1].0@.len() >= best_len {
            Some(n - 1)
        } else {
            b
        }
    }
}

/// The router picks a longest match: the route it picks is a prefix of
/// the path, no other matching route is longer, and it picks none only
/// where no route is a prefix of the path.
pub proof fn lemma_best_route_longest<A>(entries: Seq<(Vec<u8>, A)>, path: Seq<u8>, n: int)
    requires
        0 <= n <= entries.len(),
    ensures
        match best_route(entries, path, n) {
            Some(i) => 0 <= i < n && entries[i].0@.is_prefix_of(path) && forall|j: int|
                0 <= j < n && #[trigger] entries[j].0@.is_prefix_of(path) ==> entries[j].0@.len()
                    <= entries[i].0@.len(),
            None => forall|j: int| 0 <= j < n ==> !(#[trigger] entries[j].0@.is_prefix_of(path)),
        },
    decreases n,
{
    if n > 0 {
        lemma_best_route_longest(entries, path, n - 1);
    }
}

/// The first entry among the first `n` whose prefix is `prefix`.
pub open spec fn route_index<A>(entries: Seq<(Vec<u8>, A)>, prefix: Seq<u8>, n: int) -> Option<int>
    decreases n,
{
    if n <= 0 {
        None
    } else {
        match route_index(entries, prefix, n - 1) {
            Some(j) => Some(j),
            None => if entries[n - 1].0@ == prefix {
                Some(n - 1)
            } else {
                None
            },
        }
    }
}

/// The routes after registering `app` under `prefix`: it takes the place
/// of the app of that prefix, or comes last where there is none.
pub open spec fn inserted<A>(entries: Seq<(Vec<u8>, A)>, prefix: Vec<u8>, app: A) -> Seq<(Vec<u8>, A)> {
    match route_index(entries, prefix@, entries.len() as int) {
        Some(i) => entries.update(i, (prefix, app)),
        None => entries.push((prefix, app)),
    }
}

/// No two routes have the same prefix.
pub open spec fn distinct_routes<A>(entries: Seq<(Vec<u8>, A)>) -> bool {
    forall|i: int, j: int|
        0 <= i < j < entries.len() ==> #[trigger] entries[i].0@ != #[trigger] entries[j].0@
}

/// Apps keyed by path prefix.
pub struct WasmRouter<A> {
    entries: Vec<(Vec<u8>, A)>,
}

impl<A> WasmRouter<A> {
    pub closed spec fn entries(&self) -> Seq<(Vec<u8>, A)> {
        self.entries@
    }

    pub fn new() -> (r: Self)
        ensures
            r.entries() == Seq::<(Vec<u8>, A)>::empty(),
    {
        WasmRouter { entries: Vec::new() }
    }

    /// The number of routes.
    pub fn len(&self) -> (r: usize)
        ensures
            r == self.entries().len(),
    {
        self.entries.len()
    }

    /// Registers `app` under `prefix`, replacing the app of that prefix.
    pub fn insert(&mut self, prefix: Vec<u8>, app: A)
        ensures
            final(self).entries() == inserted(old(self).entries(), prefix, app),
    {
        let mut i: usize = 0;
        while i < self.entries.len()
            invariant
                i <= self.entries@.len(),
                self.entries@ == old(self).entries@,
                route_index(self.entries@, prefix@, i as int) is None,
            decreases self.entries@.len() - i,
        {
            if bytes_eq(self.entries[i].0.as_slice(), prefix.as_slice()) {
                self.entries.set(i, (prefix, app));
                proof {
                    lemma_route_index_stays(old(self).entries@, prefix@, i as int + 1, old(self).entries@.len() as int);
                }
                return;
            }
            i = i + 1;
        }
        self.entries.push((prefix, app));
    }

    /// The app whose prefix is the longest that starts `path` (the later
    /// one on a tie), with the length of that prefix.
    pub fn route_mut(&mut self, path: &[u8]) -> (r: Option<(usize, &mut A)>)
        ensures
            final(self).entries().len() == old(self).entries().len(),
            match best_route(old(self).entries(), path@, old(self).entries().len() as int) {
                None => r is None && final(self).entries() == old(self).entries(),
                Some(i) => r matches Some((plen, app)) && plen == old(self).entries()[i].0@.len()
                    && *app == old(self).entries()[i].1 && final(self).entries() == old(
                    self,
                ).entries().update(i, (old(self).entries()[i].0, *final(app))),
            },
    {
        let mut best_len: usize = 0;
        let mut best_idx: Option<usize> = None;
        let mut i: usize = 0;
        while i < self.entries.len()
            invariant
                i <= self.entries@.len(),
                self.entries@ == old(self).entries@,
                (match best_idx {
                    Some(j) => Some(j as int),
                    None => None,
                }) == best_route(self.entries@, path@, i as int),
                best_len == match best_idx {
                    Some(j) => self.entries@[j as int].0@.len() as int,
                    None => 0,
                },
                best_idx matches Some(j) ==> j < i,
            decreases self.entries@.len() - i,
        {
            let plen = self.entries[i].0.len();
            if starts_with(path, self.entries[i].0.as_slice()) && plen >= best_len {
                best_len = plen;
                best_idx = Some(i);
            }
            i = i + 1;
        }
        match best_idx {
            None => None,
            Some(i) => {
                let plen = self.entries[i].0.len();
                Some((plen, &mut self.entries[i].1))
            },
        }
    }
}

impl<A: crate::http::AppHandler> WasmRouter<A> {
    /// Hands every app a copy of `feed`; the routes stay as they are, and
    /// every app with a model holds `feed` afterwards.
    pub fn broadcast_feed(&mut self, feed: &[u8])
        ensures
            final(self).entries().len() == old(self).entries().len(),
            forall|j: int|
                0 <= j < old(self).entries().len() ==> #[trigger] final(self).entries()[j].0 == old(
                    self,
                ).entries()[j].0,
            forall|j: int|
                0 <= j < old(self).entries().len() ==> (#[trigger] final(self).entries()[j]).1.modeled()
                    == old(self).entries()[j].1.modeled(),
            forall|j: int|
                0 <= j < old(self).entries().len() && old(self).entries()[j].1.modeled() ==> (
                #[trigger] final(self).entries()[j]).1.feed() == feed@,
    {
        let n = self.entries.len();
        let mut i: usize = 0;
        while i < n
            invariant
                i <= n,
                n == self.entries@.len(),
                n == old(self).entries@.len(),
                forall|j: int| 0 <= j < n ==> #[trigger] self.entries@[j].0 == old(self).entries@[j].0,
                forall|j: int|
                    0 <= j < n ==> (#[trigger] self.entries@[j]).1.modeled() == old(
                        self,
                    ).entries@[j].1.modeled(),
                forall|j: int|
                    0 <= j < i && old(self).entries@[j].1.modeled() ==> (
                    #[trigger] self.entries@[j]).1.feed() == feed@,
            decreases n - i,
        {
            let mut copy: Vec<u8> = Vec::new();
            crate::text::append_bytes(&mut copy, feed);
            assert(copy@ =~= feed@);
            self.entries[i].1.update_feed(copy);
            i = i + 1;
        }
    }
}

proof fn lemma_route_index_found<A>(entries: Seq<(Vec<u8>, A)>, prefix: Seq<u8>, n: int)
    ensures
        route_index(entries, prefix, n) matches Some(i) ==> 0 <= i < n && entries[i].0@ == prefix,
        route_index(entries, prefix, n) is None ==> forall|j: int|
            0 <= j < n ==> #[trigger] entries[j].0@ != prefix,
    decreases n,
{
    if n > 0 {
        lemma_route_index_found(entries, prefix, n - 1);
    }
}

proof fn lemma_best_route_keys<A>(e1: Seq<(Vec<u8>, A)>, e2: Seq<(Vec<u8>, A)>, path: Seq<u8>, n: int)
    requires
        0 <= n <= e1.len(),
        n <= e2.len(),
        forall|j: int| 0 <= j < n ==> #[trigger] e1[j].0@ == e2[j].0@,
    ensures
        best_route(e1, path, n) == best_route(e2, path, n),
    decreases n,
{
    if n > 0 {
        lemma_best_route_keys(e1, e2, path, n - 1);
        lemma_best_route_longest(e1, path, n - 1);
        assert(e1[n - 1].0@ == e2[n - 1].0@);
    }
}

/// A module installed under a route serves the requests that the route
/// gets: after registering `app` under `prefix`, a path that starts with
/// `prefix`, and that no other route matches with a longer prefix, is
/// routed to `app`, given the path after `prefix`. The routes are those
/// that registering builds, where no prefix occurs twice.
pub proof fn lemma_insert_routes_to_new_app<A>(
    entries: Seq<(Vec<u8>, A)>,
    prefix: Vec<u8>,
    app: A,
    path: Seq<u8>,
)
    requires
        distinct_routes(entries),
        prefix@.is_prefix_of(path),
        forall|j: int|
            0 <= j < entries.len() && #[trigger] entries[j].0@.is_prefix_of(path) ==> entries[j].0@.len()
                <= prefix@.len(),
    ensures
        ({
            let e2 = inserted(entries, prefix, app);
            &&& distinct_routes(e2)
            &&& best_route(e2, path, e2.len() as int) matches Some(k) && e2[k] == (prefix, app)
        }),
{
    let n = entries.len() as int;
    let e2 = inserted(entries, prefix, app);
    lemma_route_index_found(entries, prefix@, n);
    lemma_best_route_longest(entries, path, n);
    match route_index(entries, prefix@, n) {
        Some(i) => {
            assert forall|j: int| 0 <= j < n implies #[trigger] entries[j].0@ == e2[j].0@ by {}
            lemma_best_route_keys(entries, e2, path, n);
            assert(entries[i].0@.is_prefix_of(path));
            let k = best_route(entries, path, n).unwrap();
            assert(entries[k].0@ =~= prefix@) by {
                assert(entries[k].0@.len() == prefix@.len());
                assert forall|m: int| 0 <= m < prefix@.len() implies entries[k].0@[m] == prefix@[m] by {
                    assert(entries[k].0@[m] == path[m]);
                    assert(prefix@[m] == path[m]);
                }
            }
            if k != i {
                if k < i {
                    assert(entries[k].0@ != entries[i].0@);
                } else {
                    assert(entries[i].0@ != entries[k].0@);
                }
            }
            assert forall|a: int, b: int| 0 <= a < b < e2.len() implies #[trigger] e2[a].0@ != #[trigger] e2[b].0@ by {
                assert(entries[a].0@ != entries[b].0@);
            }
        },
        None => {
            assert forall|j: int| 0 <= j < n implies #[trigger] entries[j].0@ == e2[j].0@ by {}
            lemma_best_route_keys(entries, e2, path, n);
            assert(e2[n].0@ == prefix@);
            assert forall|a: int, b: int| 0 <= a < b < e2.len() implies #[trigger] e2[a].0@ != #[trigger] e2[b].0@ by {
                if b < n {
                    assert(entries[a].0@ != entries[b].0@);
                } else {
                    assert(entries[a].0@ != prefix@);
                }
            }
        },
    }
}

proof fn lemma_route_index_stays<A>(entries: Seq<(Vec<u8>, A)>, prefix: Seq<u8>, i: int, n: int)
    requires
        0 < i <= n <= entries.len(),
        route_index(entries, prefix, i) == Some(i - 1),
    ensures
        route_index(entries, prefix, n) == Some(i - 1),
    decreases n - i,
{
    if n > i {
        lemma_route_index_stays(entries, prefix, i, n - 1);
    }
}

// ─── Content-Length ─────────────────────────────────────────────────

/// A three-byte UTF-8 encoding of a white-space character (U+1680,
/// U+2000 to U+200A, U+2028, U+2029, U+202F, U+205F, U+3000).
pub open spec fn is_ws3(a: u8, b: u8, c: u8) -> bool {
    ||| (a == 0xE1 && b == 0x9A && c == 0x80)
    ||| (a == 0xE2 && b == 0x80 && ((0x80 <= c <= 0x8A) || c == 0xA8 || c == 0xA9 || c == 0xAF))
    ||| (a == 0xE2 && b == 0x81 && c == 0x9F)
    ||| (a == 0xE3 && b == 0x80 && c == 0x80)
}

/// An ASCII white-space byte: tab, line feed, vertical tab, form feed,
/// carriage return, space.
pub open spec fn is_ws1(a: u8) -> bool {
    (9 <= a <= 13) || a == 32
}

/// A two-byte UTF-8 encoding of a white-space character (U+0085, U+00A0).
pub open spec fn is_ws2(a: u8, b: u8) -> bool {
    a == 0xC2 && (b == 0x85 || b == 0xA0)
}

/// The length of the UTF-8 white-space character that `s` starts with, or 0.
pub open spec fn ws_prefix_len(s: Seq<u8>) -> int {
    if s.len() >= 1 && is_ws1(s[0]) {
        1
    } else if s.len() >= 2 && is_ws2(s[0], s[1]) {
        2
    } else if s.len() >= 3 && is_ws3(s[0], s[1], s[2]) {
        3
    } else {
        0
    }
}

/// The length of the UTF-8 white-space character that `s` ends with, or 0.
pub open spec fn ws_suffix_len(s: Seq<u8>) -> int {
    let n = s.len() as int;
    if n >= 1 && is_ws1(s[n - 1]) {
        1
    } else if n >= 2 && is_ws2(s[n - 2], s[n - 1]) {
        2
    } else if n >= 3 && is_ws3(s[n - 3], s[n - 2], s[n - 1]) {
        3
    } else {
        0
    }
}

/// `s` without its leading white space (Unicode White_Space, as UTF-8).
pub open spec fn trim_start(s: Seq<u8>) -> Seq<u8>
    decreases s.len(),
{
    if ws_prefix_len(s) > 0 {
        trim_start(s.skip(ws_prefix_len(s)))
    } else {
        s
    }
}

/// `s` without its trailing white space.
pub open spec fn trim_end(s: Seq<u8>) -> Seq<u8>
    decreases s.len(),
{
    if ws_suffix_len(s) > 0 {
        trim_end(s.take(s.len() - ws_suffix_len(s)))
    } else {
        s
    }
}

pub open spec fn trim(s: Seq<u8>) -> Seq<u8> {
    trim_end(trim_start(s))
}

pub open spec fn is_digit(b: u8) -> bool {
    48 <= b <= 57
}

/// The value of a string of decimal digits.
pub open spec fn decimal_value(s: Seq<u8>) -> int
    decreases s.len(),
{
    if s.len() == 0 {
        0
    } else {
        decimal_value(s.drop_last()) * 10 + (s.last() - 48)
    }
}

/// The digits of a number: `s` without a leading `+`.
pub open spec fn digits_part(s: Seq<u8>) -> Seq<u8> {
    if s.len() > 0 && s[0] == 43 {
        s.skip(1)
    } else {
        s
    }
}

/// `usize::from_str`: an optional `+`, then one or more decimal digits
/// whose value fits.
pub open spec fn parse_usize_spec(s: Seq<u8>) -> Option<usize> {
    let d = digits_part(s);
    if d.len() == 0 || exists|i: int| 0 <= i < d.len() && !is_digit(#[trigger] d[i]) {
        None
    } else if decimal_value(d) > usize::MAX {
        None
    } else {
        Some(decimal_value(d) as usize)
    }
}

/// The first index at or after `k` where `\r\n` starts, or `s.len()`.
pub open spec fn crlf_from(s: Seq<u8>, k: int) -> int
    decreases s.len() - k,
{
    if k + 2 > s.len() {
        s.len() as int
    } else if s[k] == 13 && s[k + 1] == 10 {
        k
    } else {
        crlf_from(s, k + 1)
    }
}

pub open spec fn ascii_lower(b: u8) -> u8 {
    if 65 <= b <= 90 {
        (b + 32) as u8
    } else {
        b
    }
}

/// `Content-Length: `.
pub open spec fn content_length_key() -> Seq<u8> {
    seq![67u8, 111, 110, 116, 101, 110, 116, 45, 76, 101, 110, 103, 116, 104, 58, 32]
}

/// `a` and `b` are equal but for the case of ASCII letters.
pub open spec fn eq_ignore_ascii_case(a: Seq<u8>, b: Seq<u8>) -> bool {
    a.len() == b.len() && forall|i: int| 0 <= i < a.len() ==> ascii_lower(#[trigger] a[i]) == ascii_lower(b[i])
}

/// What a scan of the header lines from `start` on finds.
pub enum LengthScan {
    /// A `Content-Length` line, and its value where it parses.
    Value(Option<usize>),
    /// No such line.
    Absent,
    /// A line longer than 16 bytes whose 17th byte continues a UTF-8
    /// character, so that its first 16 bytes are no string.
    Unsliceable,
}

/// The scan of the header lines (separated by `\r\n`) from `start` on: the
/// first line longer than 16 bytes whose first 16 are `Content-Length: `,
/// ignoring ASCII case, gives the value, trimmed of white space.
pub open spec fn length_scan(h: Seq<u8>, start: int) -> LengthScan
    decreases h.len() - start,
{
    if start < 0 || start > h.len() {
        LengthScan::Absent
    } else {
        let e = crlf_from(h, start);
        let line = h.subrange(start, e);
        if line.len() > 16 && vstd::utf8::is_continuation_byte(line[16]) {
            LengthScan::Unsliceable
        } else if line.len() > 16 && eq_ignore_ascii_case(line.take(16), content_length_key()) {
            LengthScan::Value(parse_usize_spec(trim(line.skip(16))))
        } else if e >= h.len() || e < start || e + 2 > h.len() {
            LengthScan::Absent
        } else {
            length_scan(h, e + 2)
        }
    }
}

/// The value of the `Content-Length` header among `headers`, or `None`
/// where the headers are not UTF-8, have no such line, or its value does
/// not parse.
pub open spec fn content_length(headers: Seq<u8>) -> Option<usize> {
    if !vstd::utf8::valid_utf8(headers) {
        None
    } else {
        match length_scan(headers, 0) {
            LengthScan::Value(v) => v,
            _ => None,
        }
    }
}

/// Reading `headers` would cut a UTF-8 character at a line's 16th byte.
pub open spec fn content_length_cuts_char(headers: Seq<u8>) -> bool {
    vstd::utf8::valid_utf8(headers) && length_scan(headers, 0) is Unsliceable
}

proof fn lemma_crlf_from(s: Seq<u8>, k: int)
    requires
        0 <= k <= s.len(),
    ensures
        k <= crlf_from(s, k) <= s.len(),
        crlf_from(s, k) < s.len() ==> crlf_from(s, k) + 2 <= s.len() && s[crlf_from(s, k)] == 13
            && s[crlf_from(s, k) + 1] == 10,
    decreases s.len() - k,
{
    if k + 2 <= s.len() && !(s[k] == 13 && s[k + 1] == 10) {
        lemma_crlf_from(s, k + 1);
    }
}

fn find_crlf(s: &[u8], from: usize) -> (r: usize)
    requires
        from <= s@.len(),
    ensures
        r == crlf_from(s@, from as int),
{
    let mut k = from;
    while k < s.len() && s.len() - k >= 2 && !(s[k] == 13 && s[k + 1] == 10)
        invariant
            from <= k <= s@.len(),
            crlf_from(s@, from as int) == crlf_from(s@, k as int),
        decreases s@.len() - k,
    {
        k = k + 1;
    }
    if k >= s.len() || s.len() - k < 2 {
        return s.len();
    }
    k
}

fn ws_prefix_len_exec(s: &[u8]) -> (r: usize)
    ensures
        r == ws_prefix_len(s@),
{
    let n = s.len();
    if n >= 1 && ((9 <= s[0] && s[0] <= 13) || s[0] == 32) {
        1
    } else if n >= 2 && s[0] == 0xC2 && (s[1] == 0x85 || s[1] == 0xA0) {
        2
    } else if n >= 3 && ws3_exec(s[0], s[1], s[2]) {
        3
    } else {
        0
    }
}

fn ws3_exec(a: u8, b: u8, c: u8) -> (r: bool)
    ensures
        r == is_ws3(a, b, c),
{
    (a == 0xE1 && b == 0x9A && c == 0x80) || (a == 0xE2 && b == 0x80 && ((0x80 <= c && c <= 0x8A)
        || c == 0xA8 || c == 0xA9 || c == 0xAF)) || (a == 0xE2 && b == 0x81 && c == 0x9F) || (a
        == 0xE3 && b == 0x80 && c == 0x80)
}

fn ws_suffix_len_exec(s: &[u8]) -> (r: usize)
    ensures
        r == ws_suffix_len(s@),
{
    let n = s.len();
    if n >= 1 && ((9 <= s[n - 1] && s[n - 1] <= 13) || s[n - 1] == 32) {
        1
    } else if n >= 2 && s[n - 2] == 0xC2 && (s[n - 1] == 0x85 || s[n - 1] == 0xA0) {
        2
    } else if n >= 3 && ws3_exec(s[n - 3], s[n - 2], s[n - 1]) {
        3
    } else {
        0
    }
}

/// `s` trimmed of leading and trailing white space.
pub fn trim_ws(s: &[u8]) -> (r: &[u8])
    ensures
        r@ == trim(s@),
{
    let mut t = s;
    while ws_prefix_len_exec(t) > 0
        invariant
            trim_start(s@) == trim_start(t@),
        decreases t@.len(),
    {
        let k = ws_prefix_len_exec(t);
        let ghost prev = t@;
        t = vstd::slice::slice_subrange(t, k, t.len());
        assert(t@ =~= prev.skip(k as int));
    }
    let mut u = t;
    while ws_suffix_len_exec(u) > 0
        invariant
            trim_end(t@) == trim_end(u@),
            t@ == trim_start(s@),
        decreases u@.len(),
    {
        let k = ws_suffix_len_exec(u);
        let ghost prev = u@;
        u = vstd::slice::slice_subrange(u, 0, u.len() - k);
        assert(u@ =~= prev.take(prev.len() - k));
    }
    u
}

proof fn lemma_decimal_step(d: Seq<u8>, i: int)
    requires
        0 <= i < d.len(),
    ensures
        decimal_value(d.take(i + 1)) == decimal_value(d.take(i)) * 10 + (d[i] - 48),
{
    assert(d.take(i + 1).drop_last() =~= d.take(i));
}

/// `usize::from_str` on bytes.
pub fn parse_usize(s: &[u8]) -> (r: Option<usize>)
    ensures
        r == parse_usize_spec(s@),
{
    let d = if s.len() > 0 && s[0] == 43 {
        vstd::slice::slice_subrange(s, 1, s.len())
    } else {
        s
    };
    assert(s@.len() > 0 && s@[0] == 43 ==> d@ =~= s@.skip(1));
    assert(d@ == digits_part(s@));
    if d.len() == 0 {
        return None;
    }
    let mut v: usize = 0;
    let mut overflow = false;
    let mut i: usize = 0;
    while i < d.len()
        invariant
            i <= d@.len(),
            d@ == digits_part(s@),
            forall|j: int| 0 <= j < i ==> is_digit(#[trigger] d@[j]),
            !overflow ==> v == decimal_value(d@.take(i as int)),
            overflow ==> decimal_value(d@.take(i as int)) > usize::MAX,
        decreases d@.len() - i,
    {
        let b = d[i];
        if !(48 <= b && b <= 57) {
            assert(!is_digit(digits_part(s@)[i as int]));
            return None;
        }
        let digit = (b - 48) as usize;
        proof {
            lemma_decimal_step(d@, i as int);
        }
        if !overflow {
            match v.checked_mul(10) {
                Some(m) => match m.checked_add(digit) {
                    Some(n) => {
                        v = n;
                    },
                    None => {
                        overflow = true;
                    },
                },
                None => {
                    overflow = true;
                },
            }
        }
        i = i + 1;
    }
    assert(d@.take(d@.len() as int) =~= d@);
    if overflow {
        None
    } else {
        Some(v)
    }
}

fn eq_ignore_ascii_case_exec(a: &[u8], b: &[u8]) -> (r: bool)
    ensures
        r == eq_ignore_ascii_case(a@, b@),
{
    if a.len() != b.len() {
        return false;
    }
    let mut i: usize = 0;
    while i < a.len()
        invariant
            a@.len() == b@.len(),
            i <= a@.len(),
            forall|j: int| 0 <= j < i ==> ascii_lower(#[trigger] a@[j]) == ascii_lower(b@[j]),
        decreases a@.len() - i,
    {
        let x = if 65 <= a[i] && a[i] <= 90 {
            a[i] + 32
        } else {
            a[i]
        };
        let y = if 65 <= b[i] && b[i] <= 90 {
            b[i] + 32
        } else {
            b[i]
        };
        if x != y {
            return false;
        }
        i = i + 1;
    }
    true
}

/// Whether the headers' lines can be read without cutting a UTF-8
/// character at a line's 16th byte: the condition under which
/// `parse_content_length` may be called.
pub fn content_length_readable(headers: &[u8]) -> (r: bool)
    ensures
        r == !content_length_cuts_char(headers@),
{
    if crate::text::utf8_str(headers).is_none() {
        return true;
    }
    let key: [u8; 16] = [67, 111, 110, 116, 101, 110, 116, 45, 76, 101, 110, 103, 116, 104, 58, 32];
    assert(key@ =~= content_length_key());
    let n = headers.len();
    let mut start: usize = 0;
    loop
        invariant
            start <= n,
            n == headers@.len(),
            length_scan(headers@, 0) == length_scan(headers@, start as int),
            key@ == content_length_key(),
            vstd::utf8::valid_utf8(headers@),
        decreases n - start,
    {
        let e = find_crlf(headers, start);
        proof {
            lemma_crlf_from(headers@, start as int);
        }
        let line = vstd::slice::slice_subrange(headers, start, e);
        if line.len() > 16 {
            let c = line[16];
            if 0x80 <= c && c <= 0xBF {
                return false;
            }
            let head = vstd::slice::slice_subrange(line, 0, 16);
            assert(head@ =~= line@.take(16));
            if eq_ignore_ascii_case_exec(head, key.as_slice()) {
                return true;
            }
        }
        if e >= n {
            return true;
        }
        start = e + 2;
    }
}

/// The value of the `Content-Length` header among `headers`.
pub fn parse_content_length(headers: &[u8]) -> (r: Option<usize>)
    requires
        !content_length_cuts_char(headers@),
    ensures
        r == content_length(headers@),
{
    if crate::text::utf8_str(headers).is_none() {
        return None;
    }
    let key: [u8; 16] = [67, 111, 110, 116, 101, 110, 116, 45, 76, 101, 110, 103, 116, 104, 58, 32];
    assert(key@ =~= content_length_key());
    let n = headers.len();
    let mut start: usize = 0;
    loop
        invariant
            start <= n,
            n == headers@.len(),
            length_scan(headers@, 0) == length_scan(headers@, start as int),
            !(length_scan(headers@, 0) is Unsliceable),
            key@ == content_length_key(),
            vstd::utf8::valid_utf8(headers@),
        decreases n - start,
    {
        let e = find_crlf(headers, start);
        proof {
            lemma_crlf_from(headers@, start as int);
        }
        let line = vstd::slice::slice_subrange(headers, start, e);
        if line.len() > 16 {
            let head = vstd::slice::slice_subrange(line, 0, 16);
            assert(head@ =~= line@.take(16));
            if eq_ignore_ascii_case_exec(head, key.as_slice()) {
                let rest = vstd::slice::slice_subrange(line, 16, line.len());
                assert(rest@ =~= line@.skip(16));
                return parse_usize(trim_ws(rest));
            }
        }
        if e >= n {
            return None;
        }
        start = e + 2;
    }
}

} // verus!
