//! A vsock link whose receive queue plays back a fixed script: the
//! host's side of a conversation written out in advance, for driving the
//! protocol without a device.

use vstd::prelude::*;
use crate::vsock::{VsockTransport, pkt_view};
use crate::text::append_bytes;

verus! {

/// What the poll at `k` returns under `script`; nothing past its end.
pub open spec fn script_at(script: Seq<Option<(u16, Vec<u8>)>>, k: nat) -> Option<(u16, Seq<u8>)> {
    if k < script.len() {
        pkt_view(script[k as int])
    } else {
        None
    }
}

/// The number of packets in `script` from position `k` up to the first
/// empty poll.
pub open spec fn packets_from(script: Seq<Option<(u16, Vec<u8>)>>, k: nat) -> nat
    decreases script.len() - k,
{
    if k >= script.len() {
        0
    } else if script[k as int] is None {
        0
    } else {
        1 + packets_from(script, k + 1)
    }
}

pub open spec fn sent_view(log: Seq<(Vec<u8>, Vec<u8>)>) -> Seq<(Seq<u8>, Seq<u8>)> {
    log.map_values(|p: (Vec<u8>, Vec<u8>)| (p.0@, p.1@))
}

/// Where the playback stands: `pos` polls into the script, and
/// `past_end` more polls after its end.
struct Cursor {
    script: Vec<Option<(u16, Vec<u8>)>>,
    pos: usize,
    past_end: Ghost<nat>,
}

impl Cursor {
    #[verifier::type_invariant]
    spec fn inv(self) -> bool {
        &&& self.pos <= self.script@.len()
        &&& self.past_end@ > 0 ==> self.pos == self.script@.len()
    }
}

/// A link that answers polls from a script and records what is sent.
pub struct ScriptedLink {
    cursor: Cursor,
    log: Vec<(Vec<u8>, Vec<u8>)>,
}

impl ScriptedLink {
    /// The script this link plays back.
    pub closed spec fn script(&self) -> Seq<Option<(u16, Vec<u8>)>> {
        self.cursor.script@
    }

    /// A link that has neither been polled nor sent anything.
    pub fn new(script: Vec<Option<(u16, Vec<u8>)>>) -> (l: Self)
        ensures
            l.script() == script@,
            l.polls() == 0,
            l.sent() == Seq::<(Seq<u8>, Seq<u8>)>::empty(),
    {
        let l = ScriptedLink { cursor: Cursor { script, pos: 0, past_end: Ghost(0) }, log: Vec::new() };
        assert(sent_view(l.log@) =~= Seq::<(Seq<u8>, Seq<u8>)>::empty());
        l
    }

    /// The packets sent so far, in order: each a header and a payload.
    pub fn sent_packets(&self) -> (r: &Vec<(Vec<u8>, Vec<u8>)>)
        ensures
            sent_view(r@) == self.sent(),
    {
        &self.log
    }

    /// How many polls have been made.
    pub fn poll_count(&self) -> (r: usize)
        ensures
            r as nat == self.polls() || (r == self.script().len() && self.polls() > r),
    {
        proof {
            use_type_invariant(&self.cursor);
        }
        self.cursor.pos
    }
}

impl VsockTransport for ScriptedLink {
    closed spec fn sent(&self) -> Seq<(Seq<u8>, Seq<u8>)> {
        sent_view(self.log@)
    }

    closed spec fn polls(&self) -> nat {
        self.cursor.pos as nat + self.cursor.past_end@
    }

    closed spec fn arrival(&self, k: nat) -> Option<(u16, Seq<u8>)> {
        script_at(self.cursor.script@, k)
    }

    closed spec fn quiet_in(&self) -> nat {
        packets_from(self.cursor.script@, self.cursor.pos as nat)
    }

    fn send_raw(&mut self, hdr: &[u8], data: &[u8]) {
        let mut h: Vec<u8> = Vec::new();
        append_bytes(&mut h, hdr);
        let mut d: Vec<u8> = Vec::new();
        append_bytes(&mut d, data);
        assert(h@ =~= hdr@);
        assert(d@ =~= data@);
        self.log.push((h, d));
        assert(sent_view(self.log@) =~= sent_view(old(self).log@).push((hdr@, data@)));
    }

    fn recv_packet(&mut self) -> (r: Option<(u16, Vec<u8>)>) {
        proof {
            use_type_invariant(&self.cursor);
        }
        if self.cursor.pos < self.cursor.script.len() {
            let r = match &self.cursor.script[self.cursor.pos] {
                Some((op, d)) => {
                    let mut c: Vec<u8> = Vec::new();
                    append_bytes(&mut c, d.as_slice());
                    assert(c@ =~= d@);
                    Some((*op, c))
                },
                None => None,
            };
            self.cursor.pos = self.cursor.pos + 1;
            r
        } else {
            self.cursor.past_end = Ghost(self.cursor.past_end@ + 1);
            None
        }
    }

    fn pause(&mut self) {
    }
}

} // verus!
