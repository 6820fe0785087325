use unikernel::fetch::{
    http_body, http_get_request, FeedCommand, FeedFetch, FetchCommand, PortAllocator,
    RegistryDownload, SocketView,
};
use unikernel::registry::{gather_files, gather_routes, registry_ip, static_entries, wasm_entries};
use unikernel::scripted::ScriptedLink;
use unikernel::vsock::{
    fetch_secret, file_list, file_read, file_write, read_op, write_hdr, VsockDev,
};
use unikernel::wasm_rt::{
    check_module, load_module, copy_to_memory, get_feed, memory_slice, memory_str, memory_within_limit,
    request_args, response_bytes, write_request, HostState, ModuleVerdict,
};

// ─── vsock ──────────────────────────────────────────────────────────

fn hdr(src_port: u32, dst_port: u32, len: u32, op: u16, fwd: u32) -> Vec<u8> {
    let mut h = Vec::new();
    h.extend_from_slice(&3u64.to_le_bytes());
    h.extend_from_slice(&2u64.to_le_bytes());
    h.extend_from_slice(&src_port.to_le_bytes());
    h.extend_from_slice(&dst_port.to_le_bytes());
    h.extend_from_slice(&len.to_le_bytes());
    h.extend_from_slice(&1u16.to_le_bytes());
    h.extend_from_slice(&op.to_le_bytes());
    h.extend_from_slice(&0u32.to_le_bytes());
    h.extend_from_slice(&65536u32.to_le_bytes());
    h.extend_from_slice(&fwd.to_le_bytes());
    h
}

#[test]
fn packet_headers() {
    let h = write_hdr(3, 2, 40000, 1234, 7, 5, 65536, 9);
    assert_eq!(h, hdr(40000, 1234, 7, 5, 9));
    assert_eq!(h.len(), 44);
    assert_eq!(read_op(&h), 5);
}

#[test]
fn secret_fetch_sends_key_and_returns_data() {
    let link = ScriptedLink::new(vec![Some((2, Vec::new())), Some((5, b"s3cret".to_vec()))]);
    let mut dev = VsockDev::new(link);
    assert_eq!(fetch_secret(&mut dev, "api_key"), Some(b"s3cret".to_vec()));
    let sent = dev.transport().sent_packets();
    assert_eq!(sent.len(), 4);
    assert_eq!(sent[0], (hdr(40000, 1234, 0, 1, 0), Vec::new()));
    assert_eq!(sent[1], (hdr(40000, 1234, 0, 6, 0), Vec::new()));
    assert_eq!(sent[2], (hdr(40000, 1234, 8, 5, 0), b"api_key\n".to_vec()));
    assert_eq!(sent[3], (hdr(40000, 1234, 0, 3, 6), Vec::new()));
}

#[test]
fn secret_fetch_refused_sends_only_the_request() {
    let link = ScriptedLink::new(vec![Some((3, Vec::new()))]);
    let mut dev = VsockDev::new(link);
    assert_eq!(fetch_secret(&mut dev, "k"), None);
    assert_eq!(dev.transport().sent_packets().len(), 1);
}

#[test]
fn credit_updates_are_answered_while_waiting() {
    let link = ScriptedLink::new(vec![
        Some((2, Vec::new())),
        Some((6, Vec::new())),
        Some((5, b"v".to_vec())),
    ]);
    let mut dev = VsockDev::new(link);
    assert!(dev.connect());
    assert_eq!(dev.recv_data(), Some(b"v".to_vec()));
    let sent = dev.transport().sent_packets();
    assert_eq!(sent.len(), 3);
    assert_eq!(sent[2], (hdr(40000, 1234, 0, 6, 0), Vec::new()));
}

fn file_response(status: u8, payload: &[u8]) -> Vec<u8> {
    let mut d = vec![status];
    d.extend_from_slice(&(payload.len() as u32).to_le_bytes());
    d.extend_from_slice(payload);
    d
}

#[test]
fn file_read_returns_the_payload() {
    let link = ScriptedLink::new(vec![
        None,
        Some((2, Vec::new())),
        Some((5, file_response(0, b"abc"))),
    ]);
    let mut dev = VsockDev::new(link);
    assert_eq!(file_read(&mut dev, "/data/x"), Some(b"abc".to_vec()));
    let sent = dev.transport().sent_packets();
    assert_eq!(sent.len(), 4);
    assert_eq!(sent[0], (hdr(40001, 1235, 0, 1, 0), Vec::new()));
    assert_eq!(sent[1], (hdr(40001, 1235, 0, 6, 0), Vec::new()));
    let mut req = vec![1u8, 7, 0, 0, 0, 0, 0];
    req.extend_from_slice(b"/data/x");
    assert_eq!(sent[2], (hdr(40001, 1235, req.len() as u32, 5, 0), req));
    assert_eq!(sent[3], (hdr(40001, 1235, 0, 3, 8), Vec::new()));
}

#[test]
fn file_read_collects_a_payload_in_pieces() {
    let link = ScriptedLink::new(vec![
        None,
        Some((2, Vec::new())),
        Some((5, vec![0, 6, 0, 0, 0, b'a', b'b'])),
        Some((5, b"cdefgh".to_vec())),
    ]);
    let mut dev = VsockDev::new(link);
    assert_eq!(file_read(&mut dev, "f"), Some(b"abcdef".to_vec()));
}

#[test]
fn file_read_with_error_status_is_none() {
    let link = ScriptedLink::new(vec![None, Some((2, Vec::new())), Some((5, file_response(1, b"")))]);
    let mut dev = VsockDev::new(link);
    assert_eq!(file_read(&mut dev, "missing"), None);
}

#[test]
fn file_write_and_list() {
    let link = ScriptedLink::new(vec![
        Some((5, b"stale".to_vec())),
        None,
        Some((2, Vec::new())),
        Some((5, file_response(0, b""))),
    ]);
    let mut dev = VsockDev::new(link);
    assert!(file_write(&mut dev, "p", b"xy"));
    let sent = dev.transport().sent_packets();
    let mut req = vec![2u8, 1, 0, 2, 0, 0, 0];
    req.extend_from_slice(b"pxy");
    assert_eq!(sent[2].1, req);

    let link = ScriptedLink::new(vec![None, Some((2, Vec::new())), Some((5, file_response(0, b"a\nb\n")))]);
    let mut dev = VsockDev::new(link);
    assert_eq!(file_list(&mut dev, "/"), Some(b"a\nb\n".to_vec()));
    let link = ScriptedLink::new(vec![None, Some((3, Vec::new()))]);
    let mut dev = VsockDev::new(link);
    assert!(!file_write(&mut dev, "p", b""));
    assert_eq!(dev.transport().sent_packets().len(), 1);
}

// ─── HTTP client ────────────────────────────────────────────────────

#[test]
fn get_requests() {
    assert_eq!(
        http_get_request(b"/bbs.wasm", [10, 0, 2, 2]),
        b"GET /bbs.wasm HTTP/1.0\r\nHost: 10.0.2.2\r\nConnection: close\r\n\r\n".to_vec()
    );
    assert_eq!(registry_ip(), [10, 0, 2, 2]);
}

#[test]
fn reply_bodies() {
    assert_eq!(http_body(b"HTTP/1.0 200 OK\r\nA: b\r\n\r\nbody"), Some(b"body".to_vec()));
    assert_eq!(http_body(b"HTTP/1.0 200 OK\r\n\r\n"), None);
    assert_eq!(http_body(b"HTTP/1.0 200 OK\r\n"), None);
    assert_eq!(http_body(b"\r\n\r\n\r\n\r\n"), Some(b"\r\n\r\n".to_vec()));
}

#[test]
fn local_ports_cycle() {
    let mut p = PortAllocator::new();
    assert_eq!(p.take(), 49152);
    assert_eq!(p.take(), 49153);
    for _ in 49154..60000 {
        p.take();
    }
    assert_eq!(p.take(), 60000);
    assert_eq!(p.take(), 49152);
}

fn view(may_send: bool, closed: bool, is_open: bool, may_recv: bool, data: &[u8]) -> SocketView {
    SocketView { may_send, closed, is_open, may_recv, data: data.to_vec() }
}

#[test]
fn registry_download_runs_to_the_body() {
    let mut d = RegistryDownload::new(b"/app.wasm", [10, 0, 2, 2]);
    assert!(matches!(d.step(&view(false, false, true, true, b"")), FetchCommand::Poll));
    match d.step(&view(true, false, true, true, b"")) {
        FetchCommand::Send(req) => assert_eq!(req, http_get_request(b"/app.wasm", [10, 0, 2, 2])),
        _ => panic!("expected the request"),
    }
    assert!(matches!(d.step(&view(true, false, true, true, b"HTTP/1.0 200 OK\r\n\r\nab")), FetchCommand::Poll));
    match d.step(&view(false, false, false, false, b"cd")) {
        FetchCommand::Finish(r) => assert_eq!(r, Some(b"abcd".to_vec())),
        _ => panic!("expected the end"),
    }
}

#[test]
fn registry_download_gives_up_on_a_closed_socket() {
    let mut d = RegistryDownload::new(b"/x", [10, 0, 2, 2]);
    assert!(matches!(d.step(&view(false, true, false, false, b"")), FetchCommand::Finish(None)));
    let mut d = RegistryDownload::new(b"/x", [10, 0, 2, 2]);
    d.abort();
    assert!(matches!(d.step(&view(true, false, true, true, b"")), FetchCommand::Finish(None)));
}

#[test]
fn registry_download_times_out_connecting() {
    let mut d = RegistryDownload::new(b"/x", [10, 0, 2, 2]);
    let mut polls = 0u32;
    loop {
        match d.step(&view(false, false, true, false, b"")) {
            FetchCommand::Poll => polls += 1,
            FetchCommand::Finish(None) => break,
            _ => panic!("unexpected"),
        }
    }
    assert_eq!(polls, 99999);
}

#[test]
fn feed_download_cycle() {
    let mut f = FeedFetch::new();
    assert!(matches!(f.step(5, &view(false, false, false, false, b"")), FeedCommand::Connect));
    f.connected(true, 5);
    assert!(matches!(f.step(5, &view(false, false, true, false, b"")), FeedCommand::Nothing));
    match f.step(5, &view(true, false, true, true, b"")) {
        FeedCommand::Send(req) => assert_eq!(req, b"GET /quake HTTP/1.0\r\nHost: 10.0.2.2\r\nConnection: close\r\n\r\n".to_vec()),
        _ => panic!("expected the request"),
    }
    assert!(f.wants_more(100));
    assert!(!f.wants_more(262144));
    assert!(matches!(f.step(6, &view(true, false, true, true, b"HTTP/1.0 200 OK\r\n\r\n[1,")), FeedCommand::Nothing));
    match f.step(7, &view(true, false, true, false, b"2]")) {
        FeedCommand::Finish(r) => assert_eq!(r, Some(b"[1,2]".to_vec())),
        _ => panic!("expected the end"),
    }
    // next download due a minute later
    assert!(matches!(f.step(66, &view(false, false, false, false, b"")), FeedCommand::Nothing));
    assert!(matches!(f.step(67, &view(false, false, false, false, b"")), FeedCommand::Connect));
    f.connected(false, 67);
    assert!(matches!(f.step(126, &view(false, false, false, false, b"")), FeedCommand::Nothing));
    assert!(matches!(f.step(127, &view(false, false, false, false, b"")), FeedCommand::Connect));
}

#[test]
fn feed_connection_lost_is_abandoned() {
    let mut f = FeedFetch::new();
    f.step(0, &view(false, false, false, false, b""));
    f.connected(true, 0);
    assert!(matches!(f.step(3, &view(false, false, false, false, b"")), FeedCommand::Abandon));
    assert!(matches!(f.step(62, &view(false, false, false, false, b"")), FeedCommand::Nothing));
    assert!(matches!(f.step(63, &view(false, false, false, false, b"")), FeedCommand::Connect));
}

#[test]
fn registry_tables_and_gathering() {
    let w = wasm_entries();
    assert_eq!(w.len(), 3);
    assert_eq!(w[1], (b"/bbs.wasm".to_vec(), b"/bbs".to_vec()));
    let s = static_entries();
    assert_eq!(s[0], (b"/eq.html".to_vec(), b"/".to_vec(), b"text/html; charset=utf-8".to_vec()));
    let routes = gather_routes(&w, &[Some(b"A".to_vec()), None, Some(b"E".to_vec())]);
    assert_eq!(routes, vec![(b"/".to_vec(), b"A".to_vec()), (b"/editor".to_vec(), b"E".to_vec())]);
    let files = gather_files(&s, &[None, Some(b"<b>".to_vec()), None]);
    assert_eq!(files, vec![(b"/bbs".to_vec(), b"<b>".to_vec(), b"text/html; charset=utf-8".to_vec())]);
}

// ─── WebAssembly apps ───────────────────────────────────────────────

const EMPTY_MODULE: &[u8] = b"\0asm\x01\0\0\0";

fn module_with_memory(pages: u8) -> Vec<u8> {
    // a memory section with one memory of `pages` pages, exported as "memory"
    let mut m = EMPTY_MODULE.to_vec();
    m.extend_from_slice(&[5, 3, 1, 0, pages]);
    m.extend_from_slice(&[7, 10, 1, 6, b'm', b'e', b'm', b'o', b'r', b'y', 2, 0]);
    m
}

#[test]
fn module_checks() {
    assert_eq!(check_module(EMPTY_MODULE), ModuleVerdict::Accepted);
    assert_eq!(check_module(b"not wasm"), ModuleVerdict::Malformed);
    assert_eq!(check_module(&module_with_memory(2)), ModuleVerdict::Accepted);
    assert_eq!(check_module(&module_with_memory(16)), ModuleVerdict::Accepted);
    assert_eq!(check_module(&module_with_memory(17)), ModuleVerdict::MemoryTooLarge);
    assert_eq!(check_module(&vec![0u8; 1048577]), ModuleVerdict::TooLarge);
    assert!(memory_within_limit(&[None, Some(16)]));
    assert!(!memory_within_limit(&[Some(17), None]));
}

#[test]
fn accepted_modules_come_back_compiled() {
    let m = load_module(&module_with_memory(2)).ok().unwrap();
    assert_eq!(m.module().exports().count(), 1);
    assert_eq!(m.into_module().exports().count(), 1);
    assert_eq!(load_module(b"not wasm").err(), Some(ModuleVerdict::Malformed));
    assert_eq!(load_module(&module_with_memory(17)).err(), Some(ModuleVerdict::MemoryTooLarge));
    assert_eq!(load_module(&vec![0u8; 1048577]).err(), Some(ModuleVerdict::TooLarge));
}

#[test]
fn request_layout() {
    assert_eq!(request_args(3, 5, 0), (65536, 3, 65792, 5, 66816, 0));
    assert_eq!(request_args(300, 2000, 40000), (65536, 256, 65792, 1024, 66816, 32768));
    let mut mem = vec![0u8; 131072];
    write_request(&mut mem, b"GET", b"/x", b"body");
    assert_eq!(&mem[65536..65539], b"GET");
    assert_eq!(&mem[65792..65794], b"/x");
    assert_eq!(&mem[66816..66820], b"body");
    assert_eq!(mem[65539], 0);
    let long = vec![b'p'; 2000];
    write_request(&mut mem, b"GET", &long, b"");
    assert_eq!(&mem[65792..66816], &long[..1024]);
    assert_eq!(&mem[66816..66820], b"body");
}

#[test]
fn responses_come_out_of_memory() {
    let mut mem = vec![0u8; 100];
    mem[10..15].copy_from_slice(b"hello");
    assert_eq!(response_bytes(&mem, 10, 5), Some(b"hello".to_vec()));
    assert_eq!(response_bytes(&mem, 98, 5), None);
    assert_eq!(response_bytes(&mem, -10, 5), None);
}

#[test]
fn host_reads_are_cut_at_the_end_of_memory() {
    let mem = b"hello world".to_vec();
    assert_eq!(memory_slice(&mem, 6, 100), b"world");
    assert_eq!(memory_slice(&mem, 0, 5), b"hello");
    assert_eq!(memory_slice(&mem, 11, 3), b"");
    assert_eq!(memory_slice(&mem, 2, -5), b"llo world");
    assert_eq!(memory_str(&mem, 0, 5), Some("hello"));
    assert_eq!(memory_str(&[0xff, 0x41], 0, 2), None);
}

#[test]
fn host_copies_fit_or_fail() {
    let mut mem = vec![0u8; 10];
    assert_eq!(copy_to_memory(&mut mem, b"abcdef", 2, 4), 4);
    assert_eq!(&mem[2..6], b"abcd");
    assert_eq!(copy_to_memory(&mut mem, b"abcdef", 8, 100), -1);
    assert_eq!(&mem[8..10], &[0, 0]);
    assert_eq!(copy_to_memory(&mut mem, b"xy", 0, -1), 2);
    assert_eq!(&mem[0..2], b"xy");
    assert_eq!(copy_to_memory(&mut mem, b"xy", -100, 5), -1);
}

#[test]
fn feeds_for_apps() {
    let mut st = HostState::new();
    let mut mem = vec![0u8; 16];
    assert_eq!(get_feed(&st, &mut mem, true, 0, 16), 0);
    st.update_feed(b"quake".to_vec());
    assert_eq!(get_feed(&st, &mut mem, false, 0, 16), -1);
    assert_eq!(get_feed(&st, &mut mem, true, 4, 3), 3);
    assert_eq!(&mem[4..7], b"qua");
    assert_eq!(get_feed(&st, &mut mem, true, 14, 16), -1);
    assert_eq!(st.feed_cache, b"quake".to_vec());
}
