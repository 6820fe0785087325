use unikernel::http::{
    app_reply, find_static, http_fallback, respond, static_reply, AdminAction, AdminConn,
    AppHandler, HttpConn, MemApp,
};
use unikernel::net::{
    content_length_readable, find_header_end, parse_content_length, parse_http,
    parse_route_prefix, parse_usize, strip_route_prefix, trim_ws, wasm_store_key, HttpRequest,
    WasmRouter,
};

const FALLBACK: &[u8] = b"HTTP/1.1 200 OK\r\nContent-Type: text/plain\r\nConnection: close\r\n\r\nHello from unikernel (no WASM)\r\n";

struct Echo {
    name: &'static str,
    seen: Vec<(Vec<u8>, Vec<u8>, Vec<u8>)>,
    feed: Vec<u8>,
    answer: bool,
}

impl Echo {
    fn new(name: &'static str, answer: bool) -> Echo {
        Echo { name, seen: Vec::new(), feed: Vec::new(), answer }
    }
}

impl AppHandler for Echo {
    fn handle_request(&mut self, method: &[u8], path: &[u8], body: &[u8]) -> Option<Vec<u8>> {
        self.seen.push((method.to_vec(), path.to_vec(), body.to_vec()));
        if self.answer {
            Some(format!("{}:{}", self.name, String::from_utf8_lossy(path)).into_bytes())
        } else {
            None
        }
    }

    fn update_feed(&mut self, data: Vec<u8>) {
        self.feed = data;
    }
}

#[test]
fn parse_http_splits_method_path_body() {
    let req = parse_http(b"POST /bbs/post HTTP/1.1\r\nHost: x\r\n\r\nhello=1");
    assert_eq!(req.method, b"POST".to_vec());
    assert_eq!(req.path, b"/bbs/post".to_vec());
    assert_eq!(req.body, b"hello=1".to_vec());
}

#[test]
fn parse_http_defaults() {
    let req = parse_http(b"GET");
    assert_eq!(req.method, b"GET".to_vec());
    assert_eq!(req.path, b"/".to_vec());
    assert!(req.body.is_empty());
    let req = parse_http(b"GET /x");
    assert_eq!(req.path, b"/x".to_vec());
}

#[test]
fn header_end_is_the_first_blank_line() {
    assert_eq!(find_header_end(b"a\r\n\r\nb\r\n\r\n"), Some(1));
    assert_eq!(find_header_end(b"a\r\n\r"), None);
    assert_eq!(find_header_end(b""), None);
}

#[test]
fn content_length_is_read_case_insensitively() {
    assert_eq!(parse_content_length(b"POST / HTTP/1.1\r\ncontent-length:  42 "), Some(42));
    assert_eq!(parse_content_length(b"POST / HTTP/1.1\r\nContent-Length: 7\r\nX: y"), Some(7));
    assert_eq!(parse_content_length(b"POST / HTTP/1.1\r\nHost: a"), None);
    assert_eq!(parse_content_length(b"Content-Length: abc"), None);
    assert_eq!(parse_content_length(b"Content-Length: "), None);
    assert_eq!(parse_content_length(&[0xff, 0xfe]), None);
    assert!(content_length_readable(b"Content-Length: 5"));
    // a line whose 17th byte continues a UTF-8 character cannot be read
    assert!(!content_length_readable("Content-Length:\u{e9}".as_bytes()));
}

#[test]
fn parse_usize_and_trim() {
    assert_eq!(parse_usize(b"12345"), Some(12345));
    assert_eq!(parse_usize(b"+8"), Some(8));
    assert_eq!(parse_usize(b""), None);
    assert_eq!(parse_usize(b"1a"), None);
    assert_eq!(parse_usize(b"99999999999999999999999"), None);
    assert_eq!(trim_ws(b" \t 5 \r"), b"5");
}

#[test]
fn route_prefix_of_admin_paths() {
    assert_eq!(parse_route_prefix(b"/update/bbs"), b"/bbs".to_vec());
    assert_eq!(parse_route_prefix(b"/update"), b"/".to_vec());
    assert_eq!(parse_route_prefix(b"/update/"), b"/".to_vec());
    assert_eq!(parse_route_prefix(b"/other"), b"/".to_vec());
}

#[test]
fn store_keys_of_routes() {
    assert_eq!(wasm_store_key(b"/"), b"app.wasm".to_vec());
    assert_eq!(wasm_store_key(b"/bbs"), b"bbs.wasm".to_vec());
    assert_eq!(wasm_store_key(&[b'/', 0xff]), b"app.wasm".to_vec());
}

#[test]
fn strip_prefix_gives_slash_when_nothing_is_left() {
    assert_eq!(strip_route_prefix(b"/bbs", 4), b"/".to_vec());
    assert_eq!(strip_route_prefix(b"/bbs/list", 4), b"/list".to_vec());
}

#[test]
fn router_picks_the_longest_prefix() {
    let mut r: WasmRouter<u32> = WasmRouter::new();
    r.insert(b"/".to_vec(), 1);
    r.insert(b"/bbs".to_vec(), 2);
    r.insert(b"/bbs/admin".to_vec(), 3);
    assert_eq!(r.len(), 3);
    let (plen, app) = r.route_mut(b"/bbs/admin/x").unwrap();
    assert_eq!((plen, *app), (10, 3));
    let (plen, app) = r.route_mut(b"/bbs/x").unwrap();
    assert_eq!((plen, *app), (4, 2));
    let (plen, app) = r.route_mut(b"/editor").unwrap();
    assert_eq!((plen, *app), (1, 1));
    let mut empty: WasmRouter<u32> = WasmRouter::new();
    assert!(empty.route_mut(b"/").is_none());
}

#[test]
fn router_insert_replaces_same_prefix() {
    let mut r: WasmRouter<u32> = WasmRouter::new();
    r.insert(b"/bbs".to_vec(), 2);
    r.insert(b"/bbs".to_vec(), 20);
    assert_eq!(r.len(), 1);
    let (_, app) = r.route_mut(b"/bbs").unwrap();
    assert_eq!(*app, 20);
    *app = 21;
    let (_, app) = r.route_mut(b"/bbs").unwrap();
    assert_eq!(*app, 21);
}

#[test]
fn static_reply_has_type_length_and_content() {
    let r = static_reply(b"<p>hi</p>", b"text/html; charset=utf-8");
    assert_eq!(
        r,
        b"HTTP/1.1 200 OK\r\nContent-Type: text/html; charset=utf-8\r\nContent-Length: 9\r\nConnection: close\r\n\r\n<p>hi</p>".to_vec()
    );
    let r = static_reply(b"", &[0xff]);
    assert_eq!(
        r,
        b"HTTP/1.1 200 OK\r\nContent-Type: text/html\r\nContent-Length: 0\r\nConnection: close\r\n\r\n".to_vec()
    );
}

#[test]
fn fallback_reply() {
    assert_eq!(http_fallback(), FALLBACK.to_vec());
    assert_eq!(app_reply(None), FALLBACK.to_vec());
    assert_eq!(app_reply(Some(b"x".to_vec())), b"x".to_vec());
}

fn files() -> Vec<(Vec<u8>, Vec<u8>, Vec<u8>)> {
    vec![
        (b"/".to_vec(), b"INDEX".to_vec(), b"text/html".to_vec()),
        (b"/bbs".to_vec(), b"BBS".to_vec(), b"text/html".to_vec()),
        (b"/bbs".to_vec(), b"SECOND".to_vec(), b"text/plain".to_vec()),
    ]
}

#[test]
fn find_static_takes_the_first_exact_match() {
    let f = files();
    assert_eq!(find_static(&f, b"/bbs"), Some(1));
    assert_eq!(find_static(&f, b"/bbs/"), None);
    assert_eq!(find_static(&f, b"/"), Some(0));
}

#[test]
fn static_files_come_before_apps() {
    let f = files();
    let mut r: WasmRouter<Echo> = WasmRouter::new();
    r.insert(b"/bbs".to_vec(), Echo::new("bbs", true));
    let req = parse_http(b"GET /bbs HTTP/1.1\r\n\r\n");
    let out = respond(&f, &mut r, &req);
    assert_eq!(out, static_reply(b"BBS", b"text/html"));
    let (_, app) = r.route_mut(b"/bbs").unwrap();
    assert!(app.seen.is_empty());
}

#[test]
fn apps_get_the_path_without_their_prefix() {
    let f: Vec<(Vec<u8>, Vec<u8>, Vec<u8>)> = Vec::new();
    let mut r: WasmRouter<Echo> = WasmRouter::new();
    r.insert(b"/".to_vec(), Echo::new("root", true));
    r.insert(b"/bbs".to_vec(), Echo::new("bbs", true));
    let req = parse_http(b"POST /bbs/post HTTP/1.1\r\n\r\nmsg=hi");
    assert_eq!(respond(&f, &mut r, &req), b"bbs:/post".to_vec());
    let req = parse_http(b"GET /bbs HTTP/1.1\r\n\r\n");
    assert_eq!(respond(&f, &mut r, &req), b"bbs:/".to_vec());
    let req = parse_http(b"GET /eq HTTP/1.1\r\n\r\n");
    // the root route strips its slash too
    assert_eq!(respond(&f, &mut r, &req), b"root:eq".to_vec());
    let (_, app) = r.route_mut(b"/bbs").unwrap();
    assert_eq!(app.seen[0], (b"POST".to_vec(), b"/post".to_vec(), b"msg=hi".to_vec()));
}

#[test]
fn no_route_or_no_answer_gives_the_fallback() {
    let f: Vec<(Vec<u8>, Vec<u8>, Vec<u8>)> = Vec::new();
    let mut r: WasmRouter<Echo> = WasmRouter::new();
    r.insert(b"/bbs".to_vec(), Echo::new("bbs", false));
    let req = parse_http(b"GET /other HTTP/1.1\r\n\r\n");
    assert_eq!(respond(&f, &mut r, &req), FALLBACK.to_vec());
    let req = parse_http(b"GET /bbs HTTP/1.1\r\n\r\n");
    assert_eq!(respond(&f, &mut r, &req), FALLBACK.to_vec());
}

#[test]
fn broadcast_feed_reaches_every_app() {
    let mut r: WasmRouter<Echo> = WasmRouter::new();
    r.insert(b"/".to_vec(), Echo::new("a", true));
    r.insert(b"/b".to_vec(), Echo::new("b", true));
    r.broadcast_feed(b"quake");
    assert_eq!(r.route_mut(b"/").unwrap().1.feed, b"quake".to_vec());
    assert_eq!(r.route_mut(b"/b").unwrap().1.feed, b"quake".to_vec());
}

#[test]
fn connection_waits_for_the_blank_line() {
    let mut c = HttpConn::new();
    assert!(c.accepting());
    assert!(c.on_data(b"GET /x HTTP/1.1\r\nHost: a\r\n").is_none());
    assert!(c.accepting());
    let req: HttpRequest = c.on_data(b"\r\n").unwrap();
    assert_eq!(req.path, b"/x".to_vec());
    assert!(!c.accepting());
    c.reset();
    assert!(c.accepting());
    assert!(c.on_data(b"").is_none());
}

fn step(a: &mut AdminConn, may_recv: bool, data: &[u8]) -> AdminAction {
    assert!(a.step_defined(data));
    a.step(may_recv, data)
}

#[test]
fn admin_upload_installs_the_module() {
    let mut a = AdminConn::new();
    assert_eq!(a.read_size(), 0);
    assert!(matches!(step(&mut a, false, b""), AdminAction::Nothing));
    assert!(matches!(step(&mut a, true, b""), AdminAction::Nothing));
    assert_eq!(a.read_size(), 1024);
    assert!(matches!(
        step(&mut a, true, b"POST /update/bbs HTTP/1.1\r\nContent-Length: 6\r\n\r\nab"),
        AdminAction::Nothing
    ));
    assert_eq!(a.read_size(), 4096);
    match step(&mut a, true, b"cdefXX") {
        AdminAction::Install { key, prefix, module, reply } => {
            assert_eq!(key, b"bbs.wasm".to_vec());
            assert_eq!(prefix, b"/bbs".to_vec());
            assert_eq!(module, b"abcdef".to_vec());
            assert_eq!(reply, b"HTTP/1.0 200 OK\r\nContent-Length: 2\r\n\r\nOK".to_vec());
        }
        _ => panic!("expected an install"),
    }
    assert_eq!(a.read_size(), 0);
}

#[test]
fn admin_upload_to_update_installs_the_root_app() {
    let mut a = AdminConn::new();
    step(&mut a, true, b"");
    step(&mut a, true, b"POST /update HTTP/1.1\r\nContent-Length: 0\r\n\r\n");
    match step(&mut a, true, b"") {
        AdminAction::Install { key, prefix, module, .. } => {
            assert_eq!(key, b"app.wasm".to_vec());
            assert_eq!(prefix, b"/".to_vec());
            assert!(module.is_empty());
        }
        _ => panic!("expected an install"),
    }
}

#[test]
fn admin_without_length_is_a_bad_request() {
    let mut a = AdminConn::new();
    step(&mut a, true, b"");
    match step(&mut a, true, b"POST /update HTTP/1.1\r\nHost: x\r\n\r\n") {
        AdminAction::Reply(r) => assert_eq!(r, b"HTTP/1.0 400 Bad Request\r\n\r\n".to_vec()),
        _ => panic!("expected a reply"),
    }
    assert_eq!(a.read_size(), 0);
}

#[test]
fn admin_refuses_a_module_over_512_kib() {
    let mut a = AdminConn::new();
    step(&mut a, true, b"");
    step(&mut a, true, b"POST /update HTTP/1.1\r\nContent-Length: 524289\r\n\r\n");
    let chunk = vec![0u8; 4096];
    let mut sent = 0usize;
    loop {
        let n = chunk.len().min(524289 - sent);
        match step(&mut a, true, &chunk[..n]) {
            AdminAction::Nothing => sent += n,
            AdminAction::Reply(r) => {
                assert_eq!(r, b"HTTP/1.0 413 Payload Too Large\r\n\r\n".to_vec());
                break;
            }
            _ => panic!("unexpected install"),
        }
    }
}

#[test]
fn admin_closed_connection_goes_idle() {
    let mut a = AdminConn::new();
    step(&mut a, true, b"");
    step(&mut a, true, b"POST /update HTTP/1.1\r\n");
    a.on_closed();
    assert_eq!(a.read_size(), 0);
}

#[test]
fn announced_length_reads_back() {
    let content = vec![b'x'; 12345];
    let r = static_reply(&content, b"text/plain");
    let end = find_header_end(&r).unwrap();
    assert_eq!(parse_content_length(&r[..end]), Some(12345));
    assert_eq!(parse_usize(b"18446744073709551615"), Some(usize::MAX));
}

#[test]
fn broadcast_feed_reaches_every_memory_app() {
    let mut r: WasmRouter<MemApp> = WasmRouter::new();
    r.insert(b"/".to_vec(), MemApp::new(Some(b"root".to_vec())));
    r.insert(b"/bbs".to_vec(), MemApp::new(None));
    r.broadcast_feed(b"[1,2]");
    assert_eq!(r.route_mut(b"/").unwrap().1.held_feed(), &b"[1,2]".to_vec());
    assert_eq!(r.route_mut(b"/bbs").unwrap().1.held_feed(), &b"[1,2]".to_vec());
    let f: Vec<(Vec<u8>, Vec<u8>, Vec<u8>)> = Vec::new();
    let req = parse_http(b"GET /bbs/x HTTP/1.1\r\n\r\nhi");
    assert_eq!(respond(&f, &mut r, &req), FALLBACK.to_vec());
    let req = parse_http(b"GET /eq HTTP/1.1\r\n\r\n");
    assert_eq!(respond(&f, &mut r, &req), b"root".to_vec());
    let (_, app) = r.route_mut(b"/bbs").unwrap();
    assert_eq!(app.requests_seen()[0], (b"GET".to_vec(), b"/x".to_vec(), b"hi".to_vec()));
}

#[test]
fn swapped_module_serves_its_route() {
    let mut r: WasmRouter<MemApp> = WasmRouter::new();
    r.insert(b"/".to_vec(), MemApp::new(Some(b"root".to_vec())));
    r.insert(b"/bbs".to_vec(), MemApp::new(Some(b"old".to_vec())));
    r.insert(b"/bbs".to_vec(), MemApp::new(Some(b"new".to_vec())));
    assert_eq!(r.len(), 2);
    let f: Vec<(Vec<u8>, Vec<u8>, Vec<u8>)> = Vec::new();
    let req = parse_http(b"POST /bbs/api/messages HTTP/1.1\r\n\r\nhi");
    assert_eq!(respond(&f, &mut r, &req), b"new".to_vec());
    let app = r.route_mut(b"/bbs").unwrap().1;
    assert_eq!(
        app.requests_seen(),
        &vec![(b"POST".to_vec(), b"/api/messages".to_vec(), b"hi".to_vec())]
    );
    let req = parse_http(b"GET /api/quake HTTP/1.1\r\n\r\n");
    assert_eq!(respond(&f, &mut r, &req), b"root".to_vec());
    let root = r.route_mut(b"/").unwrap().1;
    assert_eq!(root.requests_seen(), &vec![(b"GET".to_vec(), b"api/quake".to_vec(), Vec::new())]);
}

#[test]
fn app_without_answer_gets_the_fallback_out() {
    let mut r: WasmRouter<MemApp> = WasmRouter::new();
    r.insert(b"/bbs".to_vec(), MemApp::new(None));
    let f: Vec<(Vec<u8>, Vec<u8>, Vec<u8>)> = Vec::new();
    let req = parse_http(b"GET /bbs HTTP/1.1\r\n\r\n");
    assert_eq!(respond(&f, &mut r, &req), FALLBACK.to_vec());
    let app = r.route_mut(b"/bbs").unwrap().1;
    assert_eq!(app.requests_seen(), &vec![(b"GET".to_vec(), b"/".to_vec(), Vec::new())]);
}
