//! The vsock stream protocol between the guest (CID 3) and the host
//! (CID 2): connecting, flow-control credit, data, and the host's file
//! service (port 1235) with its request and response framing.
//!
//! A packet is a 44-byte header (source and destination CID and port,
//! payload length, type 1 for stream, operation, flags, the receive buffer
//! size and the count of payload bytes received so far) and a payload.

use vstd::prelude::*;
use vstd::string::StringSliceAdditionalSpecFns;
use crate::bytes::{
    le16, le16_bytes, le32, le32_bytes, le64_bytes, push_le16, push_le32, push_le64, read_le16,
    read_le32,
};
use crate::text::append_bytes;

verus! {

pub const VSOCK_TYPE_STREAM: u16 = 1;
pub const VSOCK_OP_REQUEST: u16 = 1;
pub const VSOCK_OP_RESPONSE: u16 = 2;
pub const VSOCK_OP_RST: u16 = 3;
pub const VSOCK_OP_RW: u16 = 5;
pub const VSOCK_OP_CREDIT_UPDATE: u16 = 6;

pub const GUEST_CID: u64 = 3;
pub const HOST_CID: u64 = 2;
pub const HOST_PORT: u32 = 1234;
pub const GUEST_PORT: u32 = 40000;
pub const BUF_ALLOC: u32 = 65536;
pub const HDR_SIZE: usize = 44;
pub const BUF_SIZE: usize = 4096;

pub const HOST_FILE_PORT: u32 = 1235;
pub const GUEST_FILE_PORT: u32 = 40001;
pub const FILE_OP_READ: u8 = 0x01;
pub const FILE_OP_WRITE: u8 = 0x02;
pub const FILE_OP_LIST: u8 = 0x03;

/// How many times a wait polls the receive queue before it gives up.
pub const POLL_LIMIT: u32 = 50_000_000;

/// A packet header.
pub open spec fn vsock_header(
    src_cid: u64,
    dst_cid: u64,
    src_port: u32,
    dst_port: u32,
    len: u32,
    op: u16,
    buf_alloc: u32,
    fwd_cnt: u32,
) -> Seq<u8> {
    le64_bytes(src_cid) + le64_bytes(dst_cid) + le32_bytes(src_port) + le32_bytes(dst_port)
        + le32_bytes(len) + le16_bytes(VSOCK_TYPE_STREAM) + le16_bytes(op) + le32_bytes(0)
        + le32_bytes(buf_alloc) + le32_bytes(fwd_cnt)
}

/// Encodes a packet header.
pub fn write_hdr(
    src_cid: u64,
    dst_cid: u64,
    src_port: u32,
    dst_port: u32,
    data_len: u32,
    op: u16,
    buf_alloc: u32,
    fwd_cnt: u32,
) -> (r: Vec<u8>)
    ensures
        r@ == vsock_header(src_cid, dst_cid, src_port, dst_port, data_len, op, buf_alloc, fwd_cnt),
        r@.len() == 44,
{
    let mut v: Vec<u8> = Vec::new();
    push_le64(&mut v, src_cid);
    push_le64(&mut v, dst_cid);
    push_le32(&mut v, src_port);
    push_le32(&mut v, dst_port);
    push_le32(&mut v, data_len);
    push_le16(&mut v, VSOCK_TYPE_STREAM);
    push_le16(&mut v, op);
    push_le32(&mut v, 0);
    push_le32(&mut v, buf_alloc);
    push_le32(&mut v, fwd_cnt);
    assert(v@ =~= vsock_header(src_cid, dst_cid, src_port, dst_port, data_len, op, buf_alloc, fwd_cnt));
    v
}

/// The operation of a received packet.
pub fn read_op(buf: &[u8]) -> (r: u16)
    requires
        buf@.len() >= 32,
    ensures
        r == le16(buf@, 30),
{
    read_le16(buf, 30)
}

/// The header of a packet from the guest's `src_port` to the host's `dst_port`.
pub open spec fn guest_header(src_port: u32, dst_port: u32, len: u32, op: u16, fwd: u32) -> Seq<u8> {
    vsock_header(GUEST_CID, HOST_CID, src_port, dst_port, len, op, BUF_ALLOC, fwd)
}

/// A header-only packet.
pub open spec fn control(src_port: u32, dst_port: u32, op: u16, fwd: u32) -> (Seq<u8>, Seq<u8>) {
    (guest_header(src_port, dst_port, 0, op, fwd), Seq::empty())
}

/// The credit updates sent with the flow counters `fwds`.
pub open spec fn credit_msgs(fwds: Seq<u32>, src_port: u32, dst_port: u32) -> Seq<(Seq<u8>, Seq<u8>)> {
    fwds.map_values(|f: u32| control(src_port, dst_port, VSOCK_OP_CREDIT_UPDATE, f))
}

/// The device's two queues.
///
/// Its state is what has been sent, and what each poll of the receive
/// queue returns, by poll number: `arrival(k)` is what the `k`-th poll
/// returns (an operation and a payload, or nothing), `polls()` how many
/// polls have been made. `quiet_in()` is the number of packets that come
/// before the next poll that returns nothing.
///
/// Unlike the other device traits this one has no switch that leaves the
/// model out: draining the receive queue ends because `quiet_in()` counts
/// down to an empty poll, so what the operations do rests on the model
/// describing the device. A device without a model (the hardware's) keeps
/// the default bodies below, which do not describe it; what is proved of
/// the operations holds of such a device only as far as its queues behave
/// as the model says.
pub trait VsockTransport {
    // The default bodies are closed, so nothing is proved from them.
    closed spec fn sent(&self) -> Seq<(Seq<u8>, Seq<u8>)> {
        Seq::empty()
    }

    closed spec fn polls(&self) -> nat {
        0
    }

    closed spec fn arrival(&self, k: nat) -> Option<(u16, Seq<u8>)> {
        None
    }

    closed spec fn quiet_in(&self) -> nat {
        0
    }

    /// Sends a packet whose header and payload fit in one 4096-byte buffer.
    fn send_raw(&mut self, hdr: &[u8], data: &[u8])
        requires
            hdr@.len() == 44,
            44 + data@.len() <= 4096,
        ensures
            final(self).sent() == old(self).sent().push((hdr@, data@)),
            final(self).polls() == old(self).polls(),
            final(self).quiet_in() == old(self).quiet_in(),
            forall|k: nat| #[trigger] final(self).arrival(k) == old(self).arrival(k),
    ;

    /// Polls the receive queue once, and hands the buffer back to the device.
    fn recv_packet(&mut self) -> (r: Option<(u16, Vec<u8>)>)
        ensures
            pkt_view(r) == old(self).arrival(old(self).polls()),
            final(self).polls() == old(self).polls() + 1,
            final(self).sent() == old(self).sent(),
            forall|k: nat| #[trigger] final(self).arrival(k) == old(self).arrival(k),
            (r is None) == (old(self).quiet_in() == 0),
            r is Some ==> final(self).quiet_in() == old(self).quiet_in() - 1,
    ;

    /// Waits a moment between polls.
    fn pause(&mut self)
        ensures
            final(self).sent() == old(self).sent(),
            final(self).polls() == old(self).polls(),
            final(self).quiet_in() == old(self).quiet_in(),
            forall|k: nat| #[trigger] final(self).arrival(k) == old(self).arrival(k),
    ;
}

pub open spec fn pkt_view(p: Option<(u16, Vec<u8>)>) -> Option<(u16, Seq<u8>)> {
    match p {
        Some((op, d)) => Some((op, d@)),
        None => None,
    }
}

pub open spec fn bytes_view(r: Option<Vec<u8>>) -> Option<Seq<u8>> {
    match r {
        Some(d) => Some(d@),
        None => None,
    }
}

/// The flow counter after a payload of `len` bytes.
pub open spec fn add_fwd(fwd: u32, len: nat) -> u32 {
    fwd.wrapping_add(len as u32)
}

// ─── Waiting for a packet ───────────────────────────────────────────

/// How a wait for a packet of operation `want` goes: what it returns, how
/// many polls it makes, the flow counter it leaves, and the counters of
/// the credit updates it answers.
pub struct WaitRun {
    pub result: Option<Seq<u8>>,
    pub polls: nat,
    pub fwd: u32,
    pub credits: Seq<u32>,
}

pub open spec fn wait_after(credits: Seq<u32>, r: WaitRun) -> WaitRun {
    WaitRun { result: r.result, polls: r.polls + 1, fwd: r.fwd, credits: credits + r.credits }
}

/// The wait from poll `k` on with `n` polls left: a credit update is
/// answered, a reset ends it with nothing, a packet of operation `want`
/// ends it with its payload, anything else is skipped.
pub open spec fn wait_run<T: VsockTransport>(t: T, k: nat, n: nat, want: u16, fwd: u32) -> WaitRun
    decreases n,
{
    if n == 0 {
        WaitRun { result: None, polls: 0, fwd, credits: Seq::empty() }
    } else {
        match t.arrival(k) {
            None => wait_after(Seq::empty(), wait_run(t, k + 1, (n - 1) as nat, want, fwd)),
            Some((op, d)) => {
                let f = add_fwd(fwd, d.len());
                if op == VSOCK_OP_CREDIT_UPDATE {
                    wait_after(seq![f], wait_run(t, k + 1, (n - 1) as nat, want, f))
                } else if op == VSOCK_OP_RST {
                    WaitRun { result: None, polls: 1, fwd: f, credits: Seq::empty() }
                } else if op == want {
                    WaitRun { result: Some(d), polls: 1, fwd: f, credits: Seq::empty() }
                } else {
                    wait_after(Seq::empty(), wait_run(t, k + 1, (n - 1) as nat, want, f))
                }
            },
        }
    }
}

/// A wait depends only on what the polls return.
pub proof fn lemma_wait_run_same<T: VsockTransport>(t1: T, t2: T, k: nat, n: nat, want: u16, fwd: u32)
    requires
        forall|j: nat| #[trigger] t1.arrival(j) == t2.arrival(j),
    ensures
        wait_run(t1, k, n, want, fwd) == wait_run(t2, k, n, want, fwd),
    decreases n,
{
    if n > 0 {
        assert(t1.arrival(k) == t2.arrival(k));
        lemma_wait_run_same(t1, t2, k + 1, (n - 1) as nat, want, fwd);
        if let Some((op, d)) = t1.arrival(k) {
            lemma_wait_run_same(t1, t2, k + 1, (n - 1) as nat, want, add_fwd(fwd, d.len()));
        }
    }
}

// ─── Connecting to a port ───────────────────────────────────────────

pub struct ConnectRun {
    pub ok: bool,
    pub polls: nat,
    pub fwd: u32,
}

/// The wait for the host's answer to a connection request: a response
/// accepts it, a reset refuses it, anything else is skipped.
pub open spec fn connect_run<T: VsockTransport>(t: T, k: nat, n: nat, fwd: u32) -> ConnectRun
    decreases n,
{
    if n == 0 {
        ConnectRun { ok: false, polls: 0, fwd }
    } else {
        match t.arrival(k) {
            None => {
                let r = connect_run(t, k + 1, (n - 1) as nat, fwd);
                ConnectRun { ok: r.ok, polls: r.polls + 1, fwd: r.fwd }
            },
            Some((op, d)) => {
                let f = add_fwd(fwd, d.len());
                if op == VSOCK_OP_RESPONSE {
                    ConnectRun { ok: true, polls: 1, fwd: f }
                } else if op == VSOCK_OP_RST {
                    ConnectRun { ok: false, polls: 1, fwd: f }
                } else {
                    let r = connect_run(t, k + 1, (n - 1) as nat, f);
                    ConnectRun { ok: r.ok, polls: r.polls + 1, fwd: r.fwd }
                }
            },
        }
    }
}

// ─── The file service's response ────────────────────────────────────

/// A response as far as it has come: whether its 5-byte head (status,
/// then the payload length) has arrived, and the payload so far.
pub struct RespState {
    pub header: bool,
    pub expected: nat,
    pub status: u8,
    pub payload: Seq<u8>,
}

pub struct RespRun {
    pub result: Option<(bool, Seq<u8>)>,
    pub polls: nat,
    pub fwd: u32,
    pub credits: Seq<u32>,
}

pub open spec fn resp_after(credits: Seq<u32>, r: RespRun) -> RespRun {
    RespRun { result: r.result, polls: r.polls + 1, fwd: r.fwd, credits: credits + r.credits }
}

/// The response after data packet `d`.
pub open spec fn resp_step(st: RespState, d: Seq<u8>) -> RespState {
    if !st.header {
        RespState {
            header: true,
            expected: le32(d, 1) as nat,
            status: d[0],
            payload: st.payload + d.skip(5),
        }
    } else {
        RespState { payload: st.payload + d, ..st }
    }
}

/// The wait for the file service's response: credit updates are answered,
/// a reset ends it with nothing, data packets build the response (a first
/// one shorter than its 5-byte head ends it with nothing), and once the
/// payload is complete the wait ends with whether the status is 0 and the
/// payload cut to the announced length.
pub open spec fn resp_run<T: VsockTransport>(t: T, k: nat, n: nat, fwd: u32, st: RespState) -> RespRun
    decreases n,
{
    if n == 0 {
        RespRun { result: None, polls: 0, fwd, credits: Seq::empty() }
    } else {
        match t.arrival(k) {
            None => resp_after(Seq::empty(), resp_run(t, k + 1, (n - 1) as nat, fwd, st)),
            Some((op, d)) => {
                let f = add_fwd(fwd, d.len());
                if op == VSOCK_OP_CREDIT_UPDATE {
                    resp_after(seq![f], resp_run(t, k + 1, (n - 1) as nat, f, st))
                } else if op == VSOCK_OP_RST {
                    RespRun { result: None, polls: 1, fwd: f, credits: Seq::empty() }
                } else if op == VSOCK_OP_RW {
                    if !st.header && d.len() < 5 {
                        RespRun { result: None, polls: 1, fwd: f, credits: Seq::empty() }
                    } else {
                        let st2 = resp_step(st, d);
                        if st2.payload.len() >= st2.expected {
                            RespRun {
                                result: Some((st2.status == 0, st2.payload.take(st2.expected as int))),
                                polls: 1,
                                fwd: f,
                                credits: Seq::empty(),
                            }
                        } else {
                            resp_after(Seq::empty(), resp_run(t, k + 1, (n - 1) as nat, f, st2))
                        }
                    }
                } else {
                    resp_after(Seq::empty(), resp_run(t, k + 1, (n - 1) as nat, f, st))
                }
            },
        }
    }
}

/// A connection wait depends only on what the polls return.
pub proof fn lemma_connect_run_same<T: VsockTransport>(t1: T, t2: T, k: nat, n: nat, fwd: u32)
    requires
        forall|j: nat| #[trigger] t1.arrival(j) == t2.arrival(j),
    ensures
        connect_run(t1, k, n, fwd) == connect_run(t2, k, n, fwd),
    decreases n,
{
    if n > 0 {
        assert(t1.arrival(k) == t2.arrival(k));
        lemma_connect_run_same(t1, t2, k + 1, (n - 1) as nat, fwd);
        if let Some((op, d)) = t1.arrival(k) {
            lemma_connect_run_same(t1, t2, k + 1, (n - 1) as nat, add_fwd(fwd, d.len()));
        }
    }
}

/// A response wait depends only on what the polls return.
pub proof fn lemma_resp_run_same<T: VsockTransport>(t1: T, t2: T, k: nat, n: nat, fwd: u32, st: RespState)
    requires
        forall|j: nat| #[trigger] t1.arrival(j) == t2.arrival(j),
    ensures
        resp_run(t1, k, n, fwd, st) == resp_run(t2, k, n, fwd, st),
    decreases n,
{
    if n > 0 {
        assert(t1.arrival(k) == t2.arrival(k));
        lemma_resp_run_same(t1, t2, k + 1, (n - 1) as nat, fwd, st);
        if let Some((op, d)) = t1.arrival(k) {
            let f = add_fwd(fwd, d.len());
            lemma_resp_run_same(t1, t2, k + 1, (n - 1) as nat, f, st);
            if !(!st.header && d.len() < 5) {
                lemma_resp_run_same(t1, t2, k + 1, (n - 1) as nat, f, resp_step(st, d));
            }
        }
    }
}

/// The response state before anything has arrived.
pub open spec fn resp_start() -> RespState {
    RespState { header: false, expected: 0, status: 0xFF, payload: Seq::empty() }
}

pub open spec fn resp_view(r: Option<(bool, Vec<u8>)>) -> Option<(bool, Seq<u8>)> {
    match r {
        Some((ok, d)) => Some((ok, d@)),
        None => None,
    }
}

/// The first poll after the receive queue has been drained.
pub open spec fn drained_at<T: VsockTransport>(t: T) -> nat {
    t.polls() + t.quiet_in() + 1
}

/// The packets that a file request sends, and how it ends.
pub struct FileExchange {
    pub result: Option<(bool, Seq<u8>)>,
    pub polls: nat,
    pub sent: Seq<(Seq<u8>, Seq<u8>)>,
}

/// A file request to the host's file service: drain the receive queue,
/// connect from port 40001 to port 1235 with the flow counter reset, send
/// the request, wait for the response, reset the connection. Nothing is
/// sent after a refused connection.
pub open spec fn file_exchange<T: VsockTransport>(t: T, op: u8, path: Seq<u8>, data: Seq<u8>) -> FileExchange {
    let k1 = drained_at(t);
    let c = connect_run(t, k1, POLL_LIMIT as nat, 0);
    let req = control(GUEST_FILE_PORT, HOST_FILE_PORT, VSOCK_OP_REQUEST, 0);
    if !c.ok {
        FileExchange { result: None, polls: k1 + c.polls, sent: seq![req] }
    } else {
        let k2 = k1 + c.polls;
        let r = resp_run(t, k2, POLL_LIMIT as nat, c.fwd, resp_start());
        let payload = file_request(op, path, data);
        FileExchange {
            result: r.result,
            polls: k2 + r.polls,
            sent: seq![
                req,
                control(GUEST_FILE_PORT, HOST_FILE_PORT, VSOCK_OP_CREDIT_UPDATE, c.fwd),
                (guest_header(GUEST_FILE_PORT, HOST_FILE_PORT, payload.len() as u32, VSOCK_OP_RW, c.fwd), payload),
            ] + credit_msgs(r.credits, GUEST_FILE_PORT, HOST_FILE_PORT) + seq![
                control(GUEST_FILE_PORT, HOST_FILE_PORT, VSOCK_OP_RST, r.fwd),
            ],
        }
    }
}

/// The payload of a file request: the operation, the path's length (16
/// bits), the data's length (32 bits), the path, the data.
pub open spec fn file_request(op: u8, path: Seq<u8>, data: Seq<u8>) -> Seq<u8> {
    seq![op] + le16_bytes(path.len() as u16) + le32_bytes(data.len() as u32) + path + data
}

/// A vsock device: its queues and the count of payload bytes received.
pub struct VsockDev<T> {
    transport: T,
    fwd_cnt: u32,
}

impl<T: VsockTransport> VsockDev<T> {
    pub closed spec fn link(&self) -> T {
        self.transport
    }

    pub closed spec fn fwd(&self) -> u32 {
        self.fwd_cnt
    }

    /// A device that has received nothing yet.
    pub fn new(transport: T) -> (d: Self)
        ensures
            d.link() == transport,
            d.fwd() == 0,
    {
        VsockDev { transport, fwd_cnt: 0 }
    }

    /// The queues.
    pub fn transport(&self) -> (r: &T)
        ensures
            *r == self.link(),
    {
        &self.transport
    }

    /// Polls once; counts the payload received.
    fn try_recv(&mut self) -> (r: Option<(u16, Vec<u8>)>)
        ensures
            pkt_view(r) == old(self).link().arrival(old(self).link().polls()),
            final(self).link().polls() == old(self).link().polls() + 1,
            final(self).link().sent() == old(self).link().sent(),
            forall|k: nat| #[trigger] final(self).link().arrival(k) == old(self).link().arrival(k),
            (r is None) == (old(self).link().quiet_in() == 0),
            r is Some ==> final(self).link().quiet_in() == old(self).link().quiet_in() - 1,
            final(self).fwd() == match r {
                Some((_, d)) => add_fwd(old(self).fwd(), d@.len()),
                None => old(self).fwd(),
            },
    {
        let r = self.transport.recv_packet();
        match &r {
            Some((_, data)) => {
                self.fwd_cnt = self.fwd_cnt.wrapping_add(data.len() as u32);
            },
            None => {},
        }
        r
    }

    /// A header-only packet to the host's `dst_port` from `src_port`.
    fn send_hdr_port(&mut self, src_port: u32, dst_port: u32, op: u16)
        ensures
            final(self).link().sent() == old(self).link().sent().push(
                control(src_port, dst_port, op, old(self).fwd()),
            ),
            final(self).link().polls() == old(self).link().polls(),
            final(self).link().quiet_in() == old(self).link().quiet_in(),
            forall|k: nat| #[trigger] final(self).link().arrival(k) == old(self).link().arrival(k),
            final(self).fwd() == old(self).fwd(),
    {
        let hdr = write_hdr(GUEST_CID, HOST_CID, src_port, dst_port, 0, op, BUF_ALLOC, self.fwd_cnt);
        let empty: Vec<u8> = Vec::new();
        self.transport.send_raw(hdr.as_slice(), empty.as_slice());
        assert(empty@ =~= Seq::<u8>::empty());
    }

    /// A header-only packet on the default connection.
    fn send_hdr(&mut self, op: u16)
        ensures
            final(self).link().sent() == old(self).link().sent().push(
                control(GUEST_PORT, HOST_PORT, op, old(self).fwd()),
            ),
            final(self).link().polls() == old(self).link().polls(),
            final(self).link().quiet_in() == old(self).link().quiet_in(),
            forall|k: nat| #[trigger] final(self).link().arrival(k) == old(self).link().arrival(k),
            final(self).fwd() == old(self).fwd(),
    {
        self.send_hdr_port(GUEST_PORT, HOST_PORT, op)
    }

    /// Waits for a packet of operation `want` on the default connection.
    fn recv_op(&mut self, want: u16) -> (r: Option<Vec<u8>>)
        ensures
            ({
                let run = wait_run(
                    old(self).link(),
                    old(self).link().polls(),
                    POLL_LIMIT as nat,
                    want,
                    old(self).fwd(),
                );
                &&& bytes_view(r) == run.result
                &&& final(self).link().polls() == old(self).link().polls() + run.polls
                &&& final(self).fwd() == run.fwd
                &&& final(self).link().sent() == old(self).link().sent() + credit_msgs(
                    run.credits,
                    GUEST_PORT,
                    HOST_PORT,
                )
            }),
            forall|k: nat| #[trigger] final(self).link().arrival(k) == old(self).link().arrival(k),
    {
        let ghost t0 = self.link();
        let ghost k0 = t0.polls();
        let ghost f0 = self.fwd();
        let ghost mut acc: Seq<u32> = Seq::empty();
        let mut i: u32 = 0;
        while i < POLL_LIMIT
            invariant
                i <= POLL_LIMIT,
                self.link().polls() == k0 + i,
                forall|k: nat| #[trigger] self.link().arrival(k) == t0.arrival(k),
                self.link().sent() == t0.sent() + credit_msgs(acc, GUEST_PORT, HOST_PORT),
                t0 == old(self).link(),
                f0 == old(self).fwd(),
                k0 == t0.polls(),
                ({
                    let rest = wait_run(t0, (k0 + i) as nat, (POLL_LIMIT - i) as nat, want, self.fwd());
                    wait_run(t0, k0, POLL_LIMIT as nat, want, f0) == WaitRun {
                        result: rest.result,
                        polls: (i + rest.polls) as nat,
                        fwd: rest.fwd,
                        credits: acc + rest.credits,
                    }
                }),
            decreases POLL_LIMIT - i,
        {
            let ghost fb = self.fwd();
            let ghost sb = self.link().sent();
            match self.try_recv() {
                Some((op, data)) => {
                    if op == VSOCK_OP_CREDIT_UPDATE {
                        self.send_hdr(VSOCK_OP_CREDIT_UPDATE);
                        proof {
                            let f = self.fwd();
                            assert(credit_msgs(acc.push(f), GUEST_PORT, HOST_PORT) =~= credit_msgs(
                                acc,
                                GUEST_PORT,
                                HOST_PORT,
                            ).push(control(GUEST_PORT, HOST_PORT, VSOCK_OP_CREDIT_UPDATE, f)));
                            let rest = wait_run(t0, (k0 + i + 1) as nat, (POLL_LIMIT - i - 1) as nat, want, f);
                            assert(acc.push(f) + rest.credits =~= acc + (seq![f] + rest.credits));
                            acc = acc.push(f);
                        }
                    } else if op == VSOCK_OP_RST {
                        return None;
                    } else if op == want {
                        return Some(data);
                    }
                },
                None => {},
            }
            self.transport.pause();
            i = i + 1;
            proof {
                let rest = wait_run(t0, (k0 + i) as nat, (POLL_LIMIT - i) as nat, want, self.fwd());
                assert(acc + rest.credits =~= acc + (Seq::<u32>::empty() + rest.credits)) ;
            }
        }
        None
    }

    /// Connects to the host's service on port 1234: sends a request and
    /// waits for the response; on success sends a credit update.
    pub fn connect(&mut self) -> (ok: bool)
        ensures
            ({
                let f0 = old(self).fwd();
                let run = wait_run(
                    old(self).link(),
                    old(self).link().polls(),
                    POLL_LIMIT as nat,
                    VSOCK_OP_RESPONSE,
                    f0,
                );
                &&& ok == (run.result is Some)
                &&& final(self).link().polls() == old(self).link().polls() + run.polls
                &&& final(self).fwd() == run.fwd
                &&& final(self).link().sent() == old(self).link().sent().push(
                    control(GUEST_PORT, HOST_PORT, VSOCK_OP_REQUEST, f0),
                ) + credit_msgs(run.credits, GUEST_PORT, HOST_PORT) + if ok {
                    seq![control(GUEST_PORT, HOST_PORT, VSOCK_OP_CREDIT_UPDATE, run.fwd)]
                } else {
                    Seq::empty()
                }
            }),
            forall|k: nat| #[trigger] final(self).link().arrival(k) == old(self).link().arrival(k),
    {
        let ghost t0 = self.link();
        self.send_hdr(VSOCK_OP_REQUEST);
        proof {
            lemma_wait_run_same(
                t0,
                self.link(),
                t0.polls(),
                POLL_LIMIT as nat,
                VSOCK_OP_RESPONSE,
                self.fwd(),
            );
        }
        if self.recv_op(VSOCK_OP_RESPONSE).is_some() {
            let ghost s1 = self.link().sent();
            self.send_hdr(VSOCK_OP_CREDIT_UPDATE);
            assert(self.link().sent() =~= s1 + seq![
                control(GUEST_PORT, HOST_PORT, VSOCK_OP_CREDIT_UPDATE, self.fwd()),
            ]);
            true
        } else {
            assert(self.link().sent() =~= self.link().sent() + Seq::<(Seq<u8>, Seq<u8>)>::empty());
            false
        }
    }

    /// Sends `data` on the default connection.
    pub fn send_data(&mut self, data: &[u8])
        requires
            44 + data@.len() <= 4096,
        ensures
            final(self).link().sent() == old(self).link().sent().push(
                (
                    guest_header(GUEST_PORT, HOST_PORT, data@.len() as u32, VSOCK_OP_RW, old(self).fwd()),
                    data@,
                ),
            ),
            final(self).link().polls() == old(self).link().polls(),
            forall|k: nat| #[trigger] final(self).link().arrival(k) == old(self).link().arrival(k),
            final(self).fwd() == old(self).fwd(),
    {
        let hdr = write_hdr(
            GUEST_CID,
            HOST_CID,
            GUEST_PORT,
            HOST_PORT,
            data.len() as u32,
            VSOCK_OP_RW,
            BUF_ALLOC,
            self.fwd_cnt,
        );
        self.transport.send_raw(hdr.as_slice(), data);
    }

    /// Waits for data on the default connection.
    pub fn recv_data(&mut self) -> (r: Option<Vec<u8>>)
        ensures
            ({
                let run = wait_run(
                    old(self).link(),
                    old(self).link().polls(),
                    POLL_LIMIT as nat,
                    VSOCK_OP_RW,
                    old(self).fwd(),
                );
                &&& bytes_view(r) == run.result
                &&& final(self).link().polls() == old(self).link().polls() + run.polls
                &&& final(self).fwd() == run.fwd
                &&& final(self).link().sent() == old(self).link().sent() + credit_msgs(
                    run.credits,
                    GUEST_PORT,
                    HOST_PORT,
                )
            }),
            forall|k: nat| #[trigger] final(self).link().arrival(k) == old(self).link().arrival(k),
    {
        self.recv_op(VSOCK_OP_RW)
    }

    /// Discards what the receive queue holds.
    fn drain_rx(&mut self)
        ensures
            final(self).link().polls() == drained_at(old(self).link()),
            final(self).link().sent() == old(self).link().sent(),
            forall|k: nat| #[trigger] final(self).link().arrival(k) == old(self).link().arrival(k),
    {
        let ghost t0 = self.link();
        loop
            invariant_except_break
                self.link().polls() + self.link().quiet_in() == t0.polls() + t0.quiet_in(),
            invariant
                self.link().sent() == t0.sent(),
                forall|k: nat| #[trigger] self.link().arrival(k) == t0.arrival(k),
                t0 == old(self).link(),
            ensures
                self.link().polls() == drained_at(t0),
            decreases self.link().quiet_in(),
        {
            match self.try_recv() {
                Some(_) => {},
                None => {
                    break;
                },
            }
        }
    }

    /// Connects from `src_port` to the host's `dst_port`, after draining the
    /// receive queue and resetting the flow counter; on success sends a
    /// credit update.
    fn connect_port(&mut self, src_port: u32, dst_port: u32) -> (ok: bool)
        ensures
            ({
                let k1 = drained_at(old(self).link());
                let run = connect_run(old(self).link(), k1, POLL_LIMIT as nat, 0);
                &&& ok == run.ok
                &&& final(self).link().polls() == k1 + run.polls
                &&& final(self).fwd() == run.fwd
                &&& final(self).link().sent() == old(self).link().sent().push(
                    control(src_port, dst_port, VSOCK_OP_REQUEST, 0),
                ) + if ok {
                    seq![control(src_port, dst_port, VSOCK_OP_CREDIT_UPDATE, run.fwd)]
                } else {
                    Seq::empty()
                }
            }),
            forall|k: nat| #[trigger] final(self).link().arrival(k) == old(self).link().arrival(k),
    {
        let ghost t0 = self.link();
        self.drain_rx();
        self.fwd_cnt = 0;
        self.send_hdr_port(src_port, dst_port, VSOCK_OP_REQUEST);
        let ghost k1 = drained_at(t0);
        let ghost s1 = self.link().sent();
        let mut i: u32 = 0;
        while i < POLL_LIMIT
            invariant
                i <= POLL_LIMIT,
                self.link().polls() == k1 + i,
                forall|k: nat| #[trigger] self.link().arrival(k) == t0.arrival(k),
                self.link().sent() == s1,
                s1 == t0.sent().push(control(src_port, dst_port, VSOCK_OP_REQUEST, 0)),
                t0 == old(self).link(),
                k1 == drained_at(t0),
                ({
                    let rest = connect_run(t0, (k1 + i) as nat, (POLL_LIMIT - i) as nat, self.fwd());
                    connect_run(t0, k1, POLL_LIMIT as nat, 0) == ConnectRun {
                        ok: rest.ok,
                        polls: (i + rest.polls) as nat,
                        fwd: rest.fwd,
                    }
                }),
            decreases POLL_LIMIT - i,
        {
            match self.try_recv() {
                Some((op, _)) => {
                    if op == VSOCK_OP_RESPONSE {
                        self.send_hdr_port(src_port, dst_port, VSOCK_OP_CREDIT_UPDATE);
                        assert(self.link().sent() =~= s1 + seq![
                            control(src_port, dst_port, VSOCK_OP_CREDIT_UPDATE, self.fwd()),
                        ]);
                        return true;
                    } else if op == VSOCK_OP_RST {
                        assert(self.link().sent() =~= s1 + Seq::<(Seq<u8>, Seq<u8>)>::empty());
                        return false;
                    }
                },
                None => {},
            }
            self.transport.pause();
            i = i + 1;
        }
        assert(self.link().sent() =~= s1 + Seq::<(Seq<u8>, Seq<u8>)>::empty());
        false
    }

    /// Sends a file request on the file service's connection.
    fn send_file_req(&mut self, op: u8, path: &str, data: &[u8])
        requires
            51 + path.spec_bytes().len() + data@.len() <= 4096,
        ensures
            ({
                let payload = file_request(op, path.spec_bytes(), data@);
                final(self).link().sent() == old(self).link().sent().push(
                    (
                        guest_header(
                            GUEST_FILE_PORT,
                            HOST_FILE_PORT,
                            payload.len() as u32,
                            VSOCK_OP_RW,
                            old(self).fwd(),
                        ),
                        payload,
                    ),
                )
            }),
            final(self).link().polls() == old(self).link().polls(),
            forall|k: nat| #[trigger] final(self).link().arrival(k) == old(self).link().arrival(k),
            final(self).fwd() == old(self).fwd(),
    {
        let path_bytes = path.as_bytes();
        let mut payload: Vec<u8> = Vec::new();
        payload.push(op);
        push_le16(&mut payload, path_bytes.len() as u16);
        push_le32(&mut payload, data.len() as u32);
        append_bytes(&mut payload, path_bytes);
        append_bytes(&mut payload, data);
        assert(payload@ =~= file_request(op, path.spec_bytes(), data@));
        let hdr = write_hdr(
            GUEST_CID,
            HOST_CID,
            GUEST_FILE_PORT,
            HOST_FILE_PORT,
            payload.len() as u32,
            VSOCK_OP_RW,
            BUF_ALLOC,
            self.fwd_cnt,
        );
        self.transport.send_raw(hdr.as_slice(), payload.as_slice());
    }

    /// Waits for the file service's response.
    fn recv_file_resp(&mut self) -> (r: Option<(bool, Vec<u8>)>)
        ensures
            ({
                let run = resp_run(
                    old(self).link(),
                    old(self).link().polls(),
                    POLL_LIMIT as nat,
                    old(self).fwd(),
                    resp_start(),
                );
                &&& resp_view(r) == run.result
                &&& final(self).link().polls() == old(self).link().polls() + run.polls
                &&& final(self).fwd() == run.fwd
                &&& final(self).link().sent() == old(self).link().sent() + credit_msgs(
                    run.credits,
                    GUEST_FILE_PORT,
                    HOST_FILE_PORT,
                )
            }),
            forall|k: nat| #[trigger] final(self).link().arrival(k) == old(self).link().arrival(k),
    {
        let ghost t0 = self.link();
        let ghost k0 = t0.polls();
        let ghost f0 = self.fwd();
        let ghost mut acc: Seq<u32> = Seq::empty();
        let mut header_received = false;
        let mut expected_len: usize = 0;
        let mut status: u8 = 0xFF;
        let mut payload: Vec<u8> = Vec::new();
        let mut i: u32 = 0;
        while i < POLL_LIMIT
            invariant
                i <= POLL_LIMIT,
                self.link().polls() == k0 + i,
                forall|k: nat| #[trigger] self.link().arrival(k) == t0.arrival(k),
                self.link().sent() == t0.sent() + credit_msgs(acc, GUEST_FILE_PORT, HOST_FILE_PORT),
                t0 == old(self).link(),
                f0 == old(self).fwd(),
                k0 == t0.polls(),
                ({
                    let st = RespState {
                        header: header_received,
                        expected: expected_len as nat,
                        status,
                        payload: payload@,
                    };
                    let rest = resp_run(t0, (k0 + i) as nat, (POLL_LIMIT - i) as nat, self.fwd(), st);
                    resp_run(t0, k0, POLL_LIMIT as nat, f0, resp_start()) == RespRun {
                        result: rest.result,
                        polls: (i + rest.polls) as nat,
                        fwd: rest.fwd,
                        credits: acc + rest.credits,
                    }
                }),
            decreases POLL_LIMIT - i,
        {
            let ghost st0 = RespState {
                header: header_received,
                expected: expected_len as nat,
                status,
                payload: payload@,
            };
            match self.try_recv() {
                Some((op, data)) => {
                    if op == VSOCK_OP_CREDIT_UPDATE {
                        self.send_hdr_port(GUEST_FILE_PORT, HOST_FILE_PORT, VSOCK_OP_CREDIT_UPDATE);
                        proof {
                            let f = self.fwd();
                            assert(credit_msgs(acc.push(f), GUEST_FILE_PORT, HOST_FILE_PORT)
                                =~= credit_msgs(acc, GUEST_FILE_PORT, HOST_FILE_PORT).push(
                                control(GUEST_FILE_PORT, HOST_FILE_PORT, VSOCK_OP_CREDIT_UPDATE, f),
                            ));
                            let rest = resp_run(
                                t0,
                                (k0 + i + 1) as nat,
                                (POLL_LIMIT - i - 1) as nat,
                                f,
                                st0,
                            );
                            assert(acc.push(f) + rest.credits =~= acc + (seq![f] + rest.credits));
                            acc = acc.push(f);
                        }
                    } else if op == VSOCK_OP_RST {
                        return None;
                    } else if op == VSOCK_OP_RW {
                        if !header_received {
                            if data.len() < 5 {
                                return None;
                            }
                            status = data[0];
                            expected_len = read_le32(data.as_slice(), 1) as usize;
                            let rest_bytes = vstd::slice::slice_subrange(data.as_slice(), 5, data.len());
                            append_bytes(&mut payload, rest_bytes);
                            assert(rest_bytes@ =~= data@.skip(5));
                            header_received = true;
                        } else {
                            append_bytes(&mut payload, data.as_slice());
                        }
                        if payload.len() >= expected_len {
                            payload.truncate(expected_len);
                            return Some((status == 0, payload));
                        }
                    }
                },
                None => {},
            }
            self.transport.pause();
            i = i + 1;
            proof {
                let st = RespState {
                    header: header_received,
                    expected: expected_len as nat,
                    status,
                    payload: payload@,
                };
                let rest = resp_run(t0, (k0 + i) as nat, (POLL_LIMIT - i) as nat, self.fwd(), st);
                assert(acc + rest.credits =~= acc + (Seq::<u32>::empty() + rest.credits));
            }
        }
        None
    }

    /// Resets the connection from `src_port` to the host's `dst_port`.
    fn close_port(&mut self, src_port: u32, dst_port: u32)
        ensures
            final(self).link().sent() == old(self).link().sent().push(
                control(src_port, dst_port, VSOCK_OP_RST, old(self).fwd()),
            ),
            final(self).link().polls() == old(self).link().polls(),
            forall|k: nat| #[trigger] final(self).link().arrival(k) == old(self).link().arrival(k),
            final(self).fwd() == old(self).fwd(),
    {
        self.send_hdr_port(src_port, dst_port, VSOCK_OP_RST);
    }

    /// One exchange with the host's file service.
    fn file_exchange(&mut self, op: u8, path: &str, data: &[u8]) -> (r: Option<(bool, Vec<u8>)>)
        requires
            51 + path.spec_bytes().len() + data@.len() <= 4096,
        ensures
            ({
                let x = file_exchange(old(self).link(), op, path.spec_bytes(), data@);
                &&& resp_view(r) == x.result
                &&& final(self).link().polls() == x.polls
                &&& final(self).link().sent() == old(self).link().sent() + x.sent
            }),
            forall|k: nat| #[trigger] final(self).link().arrival(k) == old(self).link().arrival(k),
    {
        let ghost t0 = self.link();
        let ghost s0 = t0.sent();
        if !self.connect_port(GUEST_FILE_PORT, HOST_FILE_PORT) {
            assert(self.link().sent() =~= s0 + file_exchange(t0, op, path.spec_bytes(), data@).sent);
            return None;
        }
        let ghost s1 = self.link().sent();
        let ghost fc = self.fwd();
        self.send_file_req(op, path, data);
        let ghost t2 = self.link();
        proof {
            lemma_resp_run_same(t0, t2, t2.polls(), POLL_LIMIT as nat, fc, resp_start());
        }
        let result = self.recv_file_resp();
        self.close_port(GUEST_FILE_PORT, HOST_FILE_PORT);
        proof {
            let x = file_exchange(t0, op, path.spec_bytes(), data@);
            assert(self.link().sent() =~= s0 + x.sent);
        }
        result
    }

    /// Resets the default connection.
    pub fn close(&mut self)
        ensures
            final(self).link().sent() == old(self).link().sent().push(
                control(GUEST_PORT, HOST_PORT, VSOCK_OP_RST, old(self).fwd()),
            ),
            final(self).link().polls() == old(self).link().polls(),
            forall|k: nat| #[trigger] final(self).link().arrival(k) == old(self).link().arrival(k),
            final(self).fwd() == old(self).fwd(),
    {
        self.send_hdr(VSOCK_OP_RST);
    }
}

/// Reads the host file at `path`: its contents where the host answers
/// with status 0, else `None`.
pub fn file_read<T: VsockTransport>(dev: &mut VsockDev<T>, path: &str) -> (r: Option<Vec<u8>>)
    requires
        51 + path.spec_bytes().len() <= 4096,
    ensures
        ({
            let x = file_exchange(old(dev).link(), FILE_OP_READ, path.spec_bytes(), Seq::empty());
            &&& bytes_view(r) == match x.result {
                Some((true, d)) => Some(d),
                _ => None,
            }
            &&& final(dev).link().polls() == x.polls
            &&& final(dev).link().sent() == old(dev).link().sent() + x.sent
        }),
{
    let empty: Vec<u8> = Vec::new();
    assert(empty@ =~= Seq::<u8>::empty());
    match dev.file_exchange(FILE_OP_READ, path, empty.as_slice()) {
        Some((ok, data)) => if ok {
            Some(data)
        } else {
            None
        },
        None => None,
    }
}

/// Writes `data` to the host file at `path`; tells whether the host
/// answered with status 0.
pub fn file_write<T: VsockTransport>(dev: &mut VsockDev<T>, path: &str, data: &[u8]) -> (ok: bool)
    requires
        51 + path.spec_bytes().len() + data@.len() <= 4096,
    ensures
        ({
            let x = file_exchange(old(dev).link(), FILE_OP_WRITE, path.spec_bytes(), data@);
            &&& ok == (x.result matches Some((true, _)))
            &&& final(dev).link().polls() == x.polls
            &&& final(dev).link().sent() == old(dev).link().sent() + x.sent
        }),
{
    match dev.file_exchange(FILE_OP_WRITE, path, data) {
        Some((ok, _)) => ok,
        None => false,
    }
}

/// Lists the host directory `dir`: the listing where the host answers with
/// status 0, else `None`.
pub fn file_list<T: VsockTransport>(dev: &mut VsockDev<T>, dir: &str) -> (r: Option<Vec<u8>>)
    requires
        51 + dir.spec_bytes().len() <= 4096,
    ensures
        ({
            let x = file_exchange(old(dev).link(), FILE_OP_LIST, dir.spec_bytes(), Seq::empty());
            &&& bytes_view(r) == match x.result {
                Some((true, d)) => Some(d),
                _ => None,
            }
            &&& final(dev).link().polls() == x.polls
            &&& final(dev).link().sent() == old(dev).link().sent() + x.sent
        }),
{
    let empty: Vec<u8> = Vec::new();
    assert(empty@ =~= Seq::<u8>::empty());
    match dev.file_exchange(FILE_OP_LIST, dir, empty.as_slice()) {
        Some((ok, data)) => if ok {
            Some(data)
        } else {
            None
        },
        None => None,
    }
}


/// What fetching the secret named `key` does: connect to the host's
/// service on port 1234, send the key and a newline, wait for data, reset
/// the connection. Nothing more is sent after a refused connection.
pub open spec fn secret_fetch<T: VsockTransport>(t: T, fwd: u32, key: Seq<u8>) -> FileExchange {
    let c = wait_run(t, t.polls(), POLL_LIMIT as nat, VSOCK_OP_RESPONSE, fwd);
    let opened = seq![control(GUEST_PORT, HOST_PORT, VSOCK_OP_REQUEST, fwd)] + credit_msgs(
        c.credits,
        GUEST_PORT,
        HOST_PORT,
    );
    if c.result is None {
        FileExchange { result: None, polls: t.polls() + c.polls, sent: opened }
    } else {
        let k1 = t.polls() + c.polls;
        let req = key.push(10u8);
        let d = wait_run(t, k1, POLL_LIMIT as nat, VSOCK_OP_RW, c.fwd);
        FileExchange {
            result: match d.result {
                Some(v) => Some((true, v)),
                None => None,
            },
            polls: k1 + d.polls,
            sent: opened + seq![
                control(GUEST_PORT, HOST_PORT, VSOCK_OP_CREDIT_UPDATE, c.fwd),
                (guest_header(GUEST_PORT, HOST_PORT, req.len() as u32, VSOCK_OP_RW, c.fwd), req),
            ] + credit_msgs(d.credits, GUEST_PORT, HOST_PORT) + seq![
                control(GUEST_PORT, HOST_PORT, VSOCK_OP_RST, d.fwd),
            ],
        }
    }
}

/// Fetches the secret named `key_name` from the host: the data that the
/// host sends back, or `None` where the connection is refused or no data
/// comes.
pub fn fetch_secret<T: VsockTransport>(dev: &mut VsockDev<T>, key_name: &str) -> (r: Option<Vec<u8>>)
    requires
        45 + key_name.spec_bytes().len() <= 4096,
    ensures
        ({
            let x = secret_fetch(old(dev).link(), old(dev).fwd(), key_name.spec_bytes());
            &&& bytes_view(r) == match x.result {
                Some((_, d)) => Some(d),
                None => None,
            }
            &&& final(dev).link().polls() == x.polls
            &&& final(dev).link().sent() == old(dev).link().sent() + x.sent
        }),
{
    let ghost t0 = dev.link();
    let ghost f0 = dev.fwd();
    let ghost key = key_name.spec_bytes();
    if !dev.connect() {
        return None;
    }
    let ghost c = wait_run(t0, t0.polls(), POLL_LIMIT as nat, VSOCK_OP_RESPONSE, f0);
    let ghost s1 = dev.link().sent();
    let mut req: Vec<u8> = Vec::new();
    append_bytes(&mut req, key_name.as_bytes());
    req.push(10u8);
    assert(req@ =~= key.push(10u8));
    dev.send_data(req.as_slice());
    let ghost t2 = dev.link();
    let ghost s2 = t2.sent();
    proof {
        lemma_wait_run_same(t0, t2, t2.polls(), POLL_LIMIT as nat, VSOCK_OP_RW, dev.fwd());
    }
    let result = dev.recv_data();
    let ghost s3 = dev.link().sent();
    dev.close();
    proof {
        let x = secret_fetch(t0, f0, key);
        let d = wait_run(t0, t0.polls() + c.polls, POLL_LIMIT as nat, VSOCK_OP_RW, c.fwd);
        assert(dev.link().sent() =~= t0.sent() + x.sent);
    }
    result
}

} // verus!
