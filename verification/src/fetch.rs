//! The kernel's HTTP client: the `GET` request it sends, the body it
//! keeps from a reply, the local ports it connects from, and the two
//! fetches it runs over the TCP stack: a one-off download from the module
//! registry, and the periodic feed download of the server loop.
//!
//! Each fetch is a step machine: the caller polls the network stack,
//! reports what the socket shows, and carries out the command it gets
//! back.

use vstd::prelude::*;
use vstd::string::StringSliceAdditionalSpecFns;
use crate::net::{blank_line_at, blank_line_from, find_header_end, lemma_blank_line_from};
use crate::serial::{decimal, usize_decimal};
use crate::text::append_bytes;

verus! {

/// `GET <path> HTTP/1.0`, a `Host` header with the server's dotted
/// address, `Connection: close`, and the blank line.
pub open spec fn get_request(path: Seq<u8>, ip: [u8; 4]) -> Seq<u8> {
    "GET ".spec_bytes() + path + " HTTP/1.0\r\nHost: ".spec_bytes() + decimal(ip[0] as nat) + ".".spec_bytes()
        + decimal(ip[1] as nat) + ".".spec_bytes() + decimal(ip[2] as nat) + ".".spec_bytes()
        + decimal(ip[3] as nat) + "\r\nConnection: close\r\n\r\n".spec_bytes()
}

/// Builds the `GET` request for `path` on the server at `ip`.
pub fn http_get_request(path: &[u8], ip: [u8; 4]) -> (r: Vec<u8>)
    ensures
        r@ == get_request(path@, ip),
{
    let mut r: Vec<u8> = Vec::new();
    append_bytes(&mut r, "GET ".as_bytes());
    append_bytes(&mut r, path);
    append_bytes(&mut r, " HTTP/1.0\r\nHost: ".as_bytes());
    let d0 = usize_decimal(ip[0] as usize);
    append_bytes(&mut r, d0.as_slice());
    append_bytes(&mut r, ".".as_bytes());
    let d1 = usize_decimal(ip[1] as usize);
    append_bytes(&mut r, d1.as_slice());
    append_bytes(&mut r, ".".as_bytes());
    let d2 = usize_decimal(ip[2] as usize);
    append_bytes(&mut r, d2.as_slice());
    append_bytes(&mut r, ".".as_bytes());
    let d3 = usize_decimal(ip[3] as usize);
    append_bytes(&mut r, d3.as_slice());
    append_bytes(&mut r, "\r\nConnection: close\r\n\r\n".as_bytes());
    r
}

/// The body of a raw reply: what follows the first blank line, where
/// there is such a line and something follows it.
pub open spec fn reply_body(raw: Seq<u8>) -> Option<Seq<u8>> {
    match blank_line_from(raw, 0) {
        Some(pos) => if pos + 4 < raw.len() {
            Some(raw.skip(pos + 4))
        } else {
            None
        },
        None => None,
    }
}

/// A reply's body is what follows its headers: for headers whose first
/// blank line is the one that ends them, and a body that is not empty.
pub proof fn lemma_reply_body(head: Seq<u8>, body: Seq<u8>)
    requires
        blank_line_from(head + seq![13u8, 10, 13, 10], 0) == Some(head.len() as int),
        body.len() > 0,
    ensures
        reply_body(head + seq![13u8, 10, 13, 10] + body) == Some(body),
{
    let sep = seq![13u8, 10, 13, 10];
    let raw = head + sep + body;
    lemma_blank_line_from(head + sep, 0);
    assert(sep.len() == 4);
    lemma_blank_line_prefix(head + sep, body, 0);
    assert(raw.skip(head.len() + 4int) =~= body);
}

/// Where a blank line starts in `s`, it starts there in `s + t` too, and
/// no earlier.
pub proof fn lemma_blank_line_prefix(s: Seq<u8>, t: Seq<u8>, k: int)
    requires
        0 <= k,
        blank_line_from(s, k) is Some,
    ensures
        blank_line_from(s + t, k) == blank_line_from(s, k),
    decreases s.len() - k,
{
    if k + 4 <= s.len() && !blank_line_at(s, k) {
        assert(!blank_line_at(s + t, k));
        lemma_blank_line_prefix(s, t, k + 1);
    } else if k + 4 <= s.len() {
        assert(blank_line_at(s + t, k));
    }
}

/// The body of a raw reply.
pub fn http_body(raw: &[u8]) -> (r: Option<Vec<u8>>)
    ensures
        match r {
            Some(v) => reply_body(raw@) == Some(v@),
            None => reply_body(raw@) is None,
        },
{
    proof {
        lemma_blank_line_from(raw@, 0);
    }
    match find_header_end(raw) {
        Some(pos) => {
            let n = raw.len();
            if pos + 4 < n {
                let rest = vstd::slice::slice_subrange(raw, pos + 4, n);
                let mut body: Vec<u8> = Vec::new();
                append_bytes(&mut body, rest);
                assert(body@ =~= raw@.skip(pos + 4));
                Some(body)
            } else {
                None
            }
        },
        None => None,
    }
}

// ─── Local ports ────────────────────────────────────────────────────

pub const FIRST_LOCAL_PORT: u16 = 49152;
pub const LAST_LOCAL_PORT: u16 = 60000;

/// The port after `p`: the next one, back to 49152 after 60000.
pub open spec fn port_after(p: u16) -> u16 {
    if p >= LAST_LOCAL_PORT {
        FIRST_LOCAL_PORT
    } else {
        (p + 1) as u16
    }
}

/// Once in the range 49152 to 60000, the ports handed out stay in it.
pub proof fn lemma_port_after_in_range(p: u16)
    requires
        FIRST_LOCAL_PORT <= p <= LAST_LOCAL_PORT,
    ensures
        FIRST_LOCAL_PORT <= port_after(p) <= LAST_LOCAL_PORT,
        port_after(p) != p,
{
}

/// Hands out a different local port for each connection, so that a new
/// connection does not meet the last one's lingering state.
pub struct PortAllocator {
    next: u16,
}

impl PortAllocator {
    pub closed spec fn next_port(&self) -> u16 {
        self.next
    }

    /// Starts at 49152.
    pub fn new() -> (a: Self)
        ensures
            a.next_port() == FIRST_LOCAL_PORT,
    {
        PortAllocator { next: FIRST_LOCAL_PORT }
    }

    /// The port for the next connection.
    pub fn take(&mut self) -> (p: u16)
        ensures
            p == old(self).next_port(),
            final(self).next_port() == port_after(p),
    {
        let p = self.next;
        self.next = if p >= LAST_LOCAL_PORT {
            FIRST_LOCAL_PORT
        } else {
            p + 1
        };
        p
    }
}

// ─── A download from the registry ───────────────────────────────────

/// How many polls a registry download waits for its connection.
pub const CONNECT_POLLS: u32 = 100000;
/// How many polls a registry download reads its reply for.
pub const RECEIVE_POLLS: u32 = 2000000;

/// What the socket shows after a poll.
pub struct SocketView {
    /// The connection is up and may send.
    pub may_send: bool,
    /// The socket has gone back to closed.
    pub closed: bool,
    /// The connection is neither closed nor winding down.
    pub is_open: bool,
    /// The peer may still send.
    pub may_recv: bool,
    /// The bytes read from the socket after this poll.
    pub data: Vec<u8>,
}

/// What the caller does next.
pub enum FetchCommand {
    /// Poll the stack again and report.
    Poll,
    /// Send these bytes, then poll and report.
    Send(Vec<u8>),
    /// Drop the socket; the download is over with this result.
    Finish(Option<Vec<u8>>),
}

pub enum FetchOutcome {
    Poll,
    Send(Seq<u8>),
    Finish(Option<Seq<u8>>),
}

pub open spec fn command_view(c: FetchCommand) -> FetchOutcome {
    match c {
        FetchCommand::Poll => FetchOutcome::Poll,
        FetchCommand::Send(b) => FetchOutcome::Send(b@),
        FetchCommand::Finish(r) => FetchOutcome::Finish(
            match r {
                Some(v) => Some(v@),
                None => None,
            },
        ),
    }
}

enum RegistryStage {
    Connecting(u32),
    Receiving(Vec<u8>, u32),
    Over,
}

pub enum DownloadPhase {
    /// Waiting for the connection, after this many polls.
    Connecting(nat),
    /// Reading the reply, received so far, after this many polls.
    Receiving(Seq<u8>, nat),
    Over,
}

/// One step of a registry download of `path` from `ip`, after a poll that
/// showed `v`. While connecting: a connection that may send gets the
/// request; a socket that closed, or 100000 polls without a connection,
/// end the download with nothing. While receiving: the bytes read are
/// kept, and once the socket is no longer open, or after 2000000 polls,
/// the download ends with the reply's body.
pub open spec fn download_next(
    p: DownloadPhase,
    path: Seq<u8>,
    ip: [u8; 4],
    may_send: bool,
    closed: bool,
    is_open: bool,
    data: Seq<u8>,
) -> (DownloadPhase, FetchOutcome) {
    match p {
        DownloadPhase::Connecting(n) => if may_send {
            (DownloadPhase::Receiving(Seq::empty(), 0), FetchOutcome::Send(get_request(path, ip)))
        } else if closed || n + 1 >= CONNECT_POLLS {
            (DownloadPhase::Over, FetchOutcome::Finish(None))
        } else {
            (DownloadPhase::Connecting(n + 1), FetchOutcome::Poll)
        },
        DownloadPhase::Receiving(raw, n) => {
            let r = raw + data;
            if !is_open || n + 1 >= RECEIVE_POLLS {
                (DownloadPhase::Over, FetchOutcome::Finish(reply_body(r)))
            } else {
                (DownloadPhase::Receiving(r, n + 1), FetchOutcome::Poll)
            }
        },
        DownloadPhase::Over => (DownloadPhase::Over, FetchOutcome::Finish(None)),
    }
}

/// A download of one file from the registry.
pub struct RegistryDownload {
    path: Vec<u8>,
    ip: [u8; 4],
    stage: RegistryStage,
}

impl RegistryDownload {
    pub closed spec fn phase(&self) -> DownloadPhase {
        match self.stage {
            RegistryStage::Connecting(n) => DownloadPhase::Connecting(n as nat),
            RegistryStage::Receiving(raw, n) => DownloadPhase::Receiving(raw@, n as nat),
            RegistryStage::Over => DownloadPhase::Over,
        }
    }

    pub closed spec fn path(&self) -> Seq<u8> {
        self.path@
    }

    pub closed spec fn server(&self) -> [u8; 4] {
        self.ip
    }

    pub closed spec fn wf(&self) -> bool {
        match self.stage {
            RegistryStage::Connecting(n) => n < CONNECT_POLLS,
            RegistryStage::Receiving(_, n) => n < RECEIVE_POLLS,
            RegistryStage::Over => true,
        }
    }

    /// A download of `path` from `ip` whose connection request has gone
    /// out.
    pub fn new(path: &[u8], ip: [u8; 4]) -> (d: Self)
        ensures
            d.phase() == DownloadPhase::Connecting(0),
            d.path() == path@,
            d.server() == ip,
            d.wf(),
    {
        let mut p: Vec<u8> = Vec::new();
        append_bytes(&mut p, path);
        assert(p@ =~= path@);
        RegistryDownload { path: p, ip, stage: RegistryStage::Connecting(0) }
    }

    /// The connection request was refused, or sending failed: the
    /// download is over with nothing.
    pub fn abort(&mut self)
        ensures
            final(self).phase() == DownloadPhase::Over,
            final(self).path() == old(self).path(),
            final(self).server() == old(self).server(),
            final(self).wf(),
    {
        self.stage = RegistryStage::Over;
    }

    /// One step: see `download_next`.
    pub fn step(&mut self, v: &SocketView) -> (c: FetchCommand)
        requires
            old(self).wf(),
        ensures
            (final(self).phase(), command_view(c)) == download_next(
                old(self).phase(),
                old(self).path(),
                old(self).server(),
                v.may_send,
                v.closed,
                v.is_open,
                v.data@,
            ),
            final(self).path() == old(self).path(),
            final(self).server() == old(self).server(),
            final(self).wf(),
    {
        let mut stage = RegistryStage::Over;
        core::mem::swap(&mut stage, &mut self.stage);
        match stage {
            RegistryStage::Connecting(n) => {
                if v.may_send {
                    let empty: Vec<u8> = Vec::new();
                    assert(empty@ =~= Seq::<u8>::empty());
                    self.stage = RegistryStage::Receiving(empty, 0);
                    FetchCommand::Send(http_get_request(self.path.as_slice(), self.ip))
                } else if v.closed || n + 1 >= CONNECT_POLLS {
                    FetchCommand::Finish(None)
                } else {
                    self.stage = RegistryStage::Connecting(n + 1);
                    FetchCommand::Poll
                }
            },
            RegistryStage::Receiving(raw, n) => {
                let mut r = raw;
                append_bytes(&mut r, v.data.as_slice());
                if !v.is_open || n + 1 >= RECEIVE_POLLS {
                    FetchCommand::Finish(http_body(r.as_slice()))
                } else {
                    self.stage = RegistryStage::Receiving(r, n + 1);
                    FetchCommand::Poll
                }
            },
            RegistryStage::Over => FetchCommand::Finish(None),
        }
    }
}

// ─── The periodic feed download ─────────────────────────────────────

/// Seconds between feed downloads.
pub const FEED_INTERVAL_SECS: i64 = 60;
/// The most feed bytes kept.
pub const FEED_MAX_SIZE: usize = 262144;
/// Polls a feed connection may take to come up.
pub const FEED_CONNECT_POLLS: u32 = 200000;
/// Polls without new data after which a feed download ends.
pub const FEED_STALE_POLLS: u32 = 500000;

enum FeedStage {
    Idle(i64),
    Connecting(u32),
    Receiving(Vec<u8>, u32),
}

pub enum FeedPhase {
    /// Waiting for the time of the next download.
    Idle(int),
    /// Waiting for the connection, after this many polls.
    Connecting(nat),
    /// Reading the reply, received so far, and polls since data last came.
    Receiving(Seq<u8>, nat),
}

/// What the server loop does next for the feed.
pub enum FeedCommand {
    Nothing,
    /// Open a connection to the feed server and report whether it was
    /// accepted (`connected`).
    Connect,
    /// Send these bytes.
    Send(Vec<u8>),
    /// Drop the socket.
    Abandon,
    /// Close and drop the socket; hand the body, where there is one, to
    /// every app.
    Finish(Option<Vec<u8>>),
}

pub enum FeedOutcome {
    Nothing,
    Connect,
    Send(Seq<u8>),
    Abandon,
    Finish(Option<Seq<u8>>),
}

pub open spec fn feed_command_view(c: FeedCommand) -> FeedOutcome {
    match c {
        FeedCommand::Nothing => FeedOutcome::Nothing,
        FeedCommand::Connect => FeedOutcome::Connect,
        FeedCommand::Send(b) => FeedOutcome::Send(b@),
        FeedCommand::Abandon => FeedOutcome::Abandon,
        FeedCommand::Finish(r) => FeedOutcome::Finish(
            match r {
                Some(v) => Some(v@),
                None => None,
            },
        ),
    }
}

/// The path and server of the feed.
pub open spec fn feed_request() -> Seq<u8> {
    get_request("/quake".spec_bytes(), [10u8, 0, 2, 2])
}

/// One step of the feed download at time `now` (seconds), given what the
/// socket shows. When idle and due, connect. While connecting: a
/// connection that may send gets the request; a socket that is no longer
/// open, or more than 200000 polls, give up until a minute later. While
/// receiving: the bytes read are kept; once the peer is done, 500000 polls
/// bring nothing, or 256 KiB have come, the download ends with the reply's
/// body, and the next one is due a minute later.
pub open spec fn feed_next(p: FeedPhase, now: int, may_send: bool, is_open: bool, may_recv: bool, data: Seq<u8>) -> (FeedPhase, FeedOutcome) {
    match p {
        FeedPhase::Idle(next) => if now >= next {
            (FeedPhase::Idle(next), FeedOutcome::Connect)
        } else {
            (FeedPhase::Idle(next), FeedOutcome::Nothing)
        },
        FeedPhase::Connecting(n) => if may_send {
            (FeedPhase::Receiving(Seq::empty(), 0), FeedOutcome::Send(feed_request()))
        } else if !is_open || n > FEED_CONNECT_POLLS {
            (FeedPhase::Idle(now + FEED_INTERVAL_SECS), FeedOutcome::Abandon)
        } else {
            (FeedPhase::Connecting(n + 1), FeedOutcome::Nothing)
        },
        FeedPhase::Receiving(buf, stale) => {
            let b = buf + data;
            let s = if data.len() > 0 {
                0
            } else {
                stale + 1
            };
            if !may_recv || s > FEED_STALE_POLLS || b.len() >= FEED_MAX_SIZE {
                (FeedPhase::Idle(now + FEED_INTERVAL_SECS), FeedOutcome::Finish(reply_body(b)))
            } else {
                (FeedPhase::Receiving(b, s), FeedOutcome::Nothing)
            }
        },
    }
}

/// The feed download's state in the server loop.
pub struct FeedFetch {
    stage: FeedStage,
}

/// Times from which the next download's time, a minute later, is still
/// a 64-bit time.
pub open spec fn plausible_time(now: i64) -> bool {
    now + FEED_INTERVAL_SECS <= i64::MAX
}

impl FeedFetch {
    pub closed spec fn phase(&self) -> FeedPhase {
        match self.stage {
            FeedStage::Idle(t) => FeedPhase::Idle(t as int),
            FeedStage::Connecting(n) => FeedPhase::Connecting(n as nat),
            FeedStage::Receiving(b, s) => FeedPhase::Receiving(b@, s as nat),
        }
    }

    pub closed spec fn wf(&self) -> bool {
        match self.stage {
            FeedStage::Connecting(n) => n <= FEED_CONNECT_POLLS + 1,
            FeedStage::Receiving(b, s) => s <= FEED_STALE_POLLS && b@.len() < FEED_MAX_SIZE,
            FeedStage::Idle(_) => true,
        }
    }

    /// Due at once.
    pub fn new() -> (f: Self)
        ensures
            f.phase() == FeedPhase::Idle(0),
            f.wf(),
    {
        FeedFetch { stage: FeedStage::Idle(0) }
    }

    /// Whether `pending` more bytes may still be read this step: the
    /// download keeps reading while it holds under 256 KiB.
    pub fn wants_more(&self, pending: usize) -> (r: bool)
        requires
            self.wf(),
        ensures
            r == (self.phase() matches FeedPhase::Receiving(b, _) && b.len() + pending
                < FEED_MAX_SIZE),
    {
        match &self.stage {
            FeedStage::Receiving(b, _) => pending < FEED_MAX_SIZE - b.len(),
            _ => false,
        }
    }

    /// The outcome of the connection attempt that `Connect` asked for, at
    /// time `now`: connecting on success, else idle until a minute later.
    pub fn connected(&mut self, ok: bool, now: i64)
        requires
            plausible_time(now),
        ensures
            final(self).phase() == if ok {
                FeedPhase::Connecting(0)
            } else {
                FeedPhase::Idle(now + FEED_INTERVAL_SECS)
            },
            final(self).wf(),
    {
        self.stage = if ok {
            FeedStage::Connecting(0)
        } else {
            FeedStage::Idle(now + FEED_INTERVAL_SECS)
        };
    }

    /// One step: see `feed_next`.
    pub fn step(&mut self, now: i64, v: &SocketView) -> (c: FeedCommand)
        requires
            old(self).wf(),
            plausible_time(now),
        ensures
            (final(self).phase(), feed_command_view(c)) == feed_next(
                old(self).phase(),
                now as int,
                v.may_send,
                v.is_open,
                v.may_recv,
                v.data@,
            ),
            final(self).wf(),
    {
        let mut stage = FeedStage::Idle(0);
        core::mem::swap(&mut stage, &mut self.stage);
        match stage {
            FeedStage::Idle(next) => {
                self.stage = FeedStage::Idle(next);
                if now >= next {
                    FeedCommand::Connect
                } else {
                    FeedCommand::Nothing
                }
            },
            FeedStage::Connecting(n) => {
                if v.may_send {
                    let empty: Vec<u8> = Vec::new();
                    assert(empty@ =~= Seq::<u8>::empty());
                    self.stage = FeedStage::Receiving(empty, 0);
                    FeedCommand::Send(http_get_request("/quake".as_bytes(), [10u8, 0, 2, 2]))
                } else if !v.is_open || n > FEED_CONNECT_POLLS {
                    self.stage = FeedStage::Idle(now + FEED_INTERVAL_SECS);
                    FeedCommand::Abandon
                } else {
                    self.stage = FeedStage::Connecting(n + 1);
                    FeedCommand::Nothing
                }
            },
            FeedStage::Receiving(buf, stale) => {
                let got = v.data.len();
                let mut b = buf;
                append_bytes(&mut b, v.data.as_slice());
                let s: u32 = if got > 0 {
                    0
                } else {
                    stale + 1
                };
                if !v.may_recv || s > FEED_STALE_POLLS || b.len() >= FEED_MAX_SIZE {
                    self.stage = FeedStage::Idle(now + FEED_INTERVAL_SECS);
                    FeedCommand::Finish(http_body(b.as_slice()))
                } else {
                    self.stage = FeedStage::Receiving(b, s);
                    FeedCommand::Nothing
                }
            },
        }
    }
}

// ─── What a download keeps over many reads ──────────────────────────

/// `chunks` joined in order, the last one split off.
pub proof fn lemma_flatten_last(chunks: Seq<Seq<u8>>)
    requires
        chunks.len() > 0,
    ensures
        chunks.flatten() == chunks.drop_last().flatten() + chunks.last(),
{
    chunks.lemma_flatten_and_flatten_alt_are_equivalent();
    chunks.drop_last().lemma_flatten_and_flatten_alt_are_equivalent();
}

/// The registry download's phase after receiving steps that read
/// `reads`, one after another, the socket open throughout.
pub open spec fn download_reads(p: DownloadPhase, path: Seq<u8>, ip: [u8; 4], reads: Seq<Seq<u8>>) -> DownloadPhase
    decreases reads.len(),
{
    if reads.len() == 0 {
        p
    } else {
        download_next(
            download_reads(p, path, ip, reads.drop_last()),
            path,
            ip,
            false,
            false,
            true,
            reads.last(),
        ).0
    }
}

proof fn lemma_download_reads_keep(path: Seq<u8>, ip: [u8; 4], reads: Seq<Seq<u8>>)
    requires
        reads.len() < RECEIVE_POLLS,
    ensures
        download_reads(DownloadPhase::Receiving(Seq::empty(), 0), path, ip, reads)
            == DownloadPhase::Receiving(reads.flatten(), reads.len()),
    decreases reads.len(),
{
    if reads.len() > 0 {
        lemma_download_reads_keep(path, ip, reads.drop_last());
        lemma_flatten_last(reads);
    } else {
        assert(reads.flatten() =~= Seq::<u8>::empty());
    }
}

/// A registry download keeps every byte it reads, in the order read: once
/// connected it sends the `GET` request, and after reads `r1`, ..., `rk`
/// with the socket open and a last read `last` after which it is not,
/// it ends with the body of `r1 + ... + rk + last`. For a reply made of
/// headers (in which no `\r\n\r\n` starts before the one that ends
/// them), `\r\n\r\n` and a non-empty body, that is the body, however
/// the reply was split into reads.
pub proof fn lemma_download_in_reads(
    path: Seq<u8>,
    ip: [u8; 4],
    n: nat,
    reads: Seq<Seq<u8>>,
    last: Seq<u8>,
    head: Seq<u8>,
    body: Seq<u8>,
)
    requires
        reads.len() + 1 < RECEIVE_POLLS,
        reads.flatten() + last == head + seq![13u8, 10, 13, 10] + body,
        forall|i: int| 0 <= i < head.len() ==> !blank_line_at(head + seq![13u8, 10, 13, 10], i),
        body.len() > 0,
    ensures
        ({
            let s0 = download_next(DownloadPhase::Connecting(n), path, ip, true, false, true, Seq::empty());
            let p = download_reads(s0.0, path, ip, reads);
            let s1 = download_next(p, path, ip, false, false, false, last);
            &&& s0.1 == FetchOutcome::Send(get_request(path, ip))
            &&& p == DownloadPhase::Receiving(reads.flatten(), reads.len())
            &&& s1 == (DownloadPhase::Over, FetchOutcome::Finish(Some(body)))
        }),
{
    lemma_download_reads_keep(path, ip, reads);
    crate::net::lemma_headers_end(head, Seq::empty());
    assert(head + seq![13u8, 10, 13, 10] + Seq::<u8>::empty() =~= head + seq![13u8, 10, 13, 10]);
    lemma_reply_body(head, body);
}

/// The feed download's phase after receiving steps that read `reads`,
/// one after another, the peer still sending throughout.
pub open spec fn feed_reads(p: FeedPhase, now: int, reads: Seq<Seq<u8>>) -> FeedPhase
    decreases reads.len(),
{
    if reads.len() == 0 {
        p
    } else {
        feed_next(feed_reads(p, now, reads.drop_last()), now, false, true, true, reads.last()).0
    }
}

proof fn lemma_feed_reads_keep(now: int, reads: Seq<Seq<u8>>)
    requires
        reads.len() <= FEED_STALE_POLLS,
        reads.flatten().len() < FEED_MAX_SIZE,
    ensures
        feed_reads(FeedPhase::Receiving(Seq::empty(), 0), now, reads) matches FeedPhase::Receiving(b, s)
            && b == reads.flatten() && s <= reads.len(),
    decreases reads.len(),
{
    if reads.len() > 0 {
        lemma_flatten_last(reads);
        lemma_feed_reads_keep(now, reads.drop_last());
    } else {
        assert(reads.flatten() =~= Seq::<u8>::empty());
    }
}

/// The feed download keeps every byte it reads, in the order read: once
/// connected it sends the feed request, and after reads `r1`, ..., `rk`
/// (at most 500000 of them, under 256 KiB in all) with the peer still
/// sending, and a last read `last` after which it is done, it ends with
/// the body of `r1 + ... + rk + last` and waits a minute for the next
/// download. For a reply made of headers (in which no `\r\n\r\n`
/// starts before the one that ends them), `\r\n\r\n` and a non-empty
/// body, that is the body, however the reply was split into reads.
pub proof fn lemma_feed_in_reads(
    now: int,
    n: nat,
    reads: Seq<Seq<u8>>,
    last: Seq<u8>,
    head: Seq<u8>,
    body: Seq<u8>,
)
    requires
        reads.len() <= FEED_STALE_POLLS,
        reads.flatten().len() < FEED_MAX_SIZE,
        reads.flatten() + last == head + seq![13u8, 10, 13, 10] + body,
        forall|i: int| 0 <= i < head.len() ==> !blank_line_at(head + seq![13u8, 10, 13, 10], i),
        body.len() > 0,
    ensures
        ({
            let s0 = feed_next(FeedPhase::Connecting(n), now, true, true, true, Seq::empty());
            let p = feed_reads(s0.0, now, reads);
            let s1 = feed_next(p, now, false, true, false, last);
            &&& s0.1 == FeedOutcome::Send(feed_request())
            &&& p matches FeedPhase::Receiving(b, _) && b == reads.flatten()
            &&& s1 == (FeedPhase::Idle(now + FEED_INTERVAL_SECS), FeedOutcome::Finish(Some(body)))
        }),
{
    lemma_feed_reads_keep(now, reads);
    crate::net::lemma_headers_end(head, Seq::empty());
    assert(head + seq![13u8, 10, 13, 10] + Seq::<u8>::empty() =~= head + seq![13u8, 10, 13, 10]);
    lemma_reply_body(head, body);
}

/// The request a download sends asks for its path: read back as a
/// request, it is a `GET` of that path (for a path without spaces or
/// carriage returns).
pub proof fn lemma_get_request_reads_back(path: Seq<u8>, ip: [u8; 4])
    requires
        forall|i: int| 0 <= i < path.len() ==> path[i] != 32 && path[i] != 13,
    ensures
        crate::net::request_method(get_request(path, ip)) == "GET".spec_bytes(),
        crate::net::request_path(get_request(path, ip)) == path,
{
    reveal_strlit("GET ");
    reveal_strlit("GET");
    reveal_strlit(" HTTP/1.0\r\nHost: ");
    vstd::string::is_ascii_spec_bytes("GET ");
    vstd::string::is_ascii_spec_bytes("GET");
    vstd::string::is_ascii_spec_bytes(" HTTP/1.0\r\nHost: ");
    let method = "GET".spec_bytes();
    let tail = " HTTP/1.0\r\nHost: ".spec_bytes();
    assert(method =~= seq![71u8, 69, 84]);
    assert("GET ".spec_bytes() =~= method + seq![32u8]);
    assert(tail.len() == 17 && tail[0] == 32);
    assert(tail =~= seq![32u8] + tail.skip(1));
    let rest = tail.skip(1) + decimal(ip[0] as nat) + ".".spec_bytes() + decimal(ip[1] as nat)
        + ".".spec_bytes() + decimal(ip[2] as nat) + ".".spec_bytes() + decimal(ip[3] as nat)
        + "\r\nConnection: close\r\n\r\n".spec_bytes();
    assert(get_request(path, ip) =~= method + seq![32u8] + path + seq![32u8] + rest);
    crate::net::lemma_request_line_parts(method, path, rest);
}

} // verus!
