//! The legacy virtio drivers for the block and network devices, as the
//! bookkeeping of their rings: which descriptors, ring entries and ring
//! indices each request writes into the queue memory, and which port is
//! notified. The caller owns the memory and the ports and carries the
//! writes out in order (ring indices as single 16-bit stores).
//!
//! A legacy device sits behind a 32-byte I/O window: guest features at
//! 0x04, the queue's page frame at 0x08, the queue size at 0x0C, the
//! queue selector at 0x0E, the notify register at 0x10, the status at
//! 0x12 and, for the network device, its MAC address at 0x14.

use vstd::prelude::*;
use crate::bytes::{le16_bytes, le32_bytes, push_le16};
use crate::virtio::{
    DescSpec, VIRTIO_BLK_T_IN, VRING_DESC_F_NEXT, VRING_DESC_F_WRITE, avail_offset,
    blk_descriptor_chain, blk_header, blk_request_header, descriptor, encode_descriptor,
    page_round_up, used_offset,
};
use crate::text::append_bytes;

verus! {

pub const REG_GUEST_FEATURES: u16 = 0x04;
pub const REG_QUEUE_PFN: u16 = 0x08;
pub const REG_QUEUE_SIZE: u16 = 0x0C;
pub const REG_QUEUE_SEL: u16 = 0x0E;
pub const REG_QUEUE_NOTIFY: u16 = 0x10;
pub const REG_STATUS: u16 = 0x12;
pub const REG_MAC_BASE: u16 = 0x14;

pub const STATUS_RESET: u8 = 0;
pub const STATUS_ACKNOWLEDGE: u8 = 1;
pub const STATUS_DRIVER: u8 = 2;
pub const STATUS_DRIVER_OK: u8 = 4;

/// How many times a block request polls for its completion.
pub const BLK_POLL_LIMIT: usize = 10_000_000;

/// A write into a queue's memory: these bytes at this offset.
pub struct MemWrite {
    pub offset: usize,
    pub bytes: Vec<u8>,
}

pub open spec fn writes_view(w: Seq<MemWrite>) -> Seq<(int, Seq<u8>)> {
    w.map_values(|m: MemWrite| (m.offset as int, m.bytes@))
}

/// Where slot `slot` of the available ring sits in a queue of `qs`.
pub open spec fn avail_entry_at(qs: int, slot: int) -> int {
    qs * 16 + 4 + slot * 2
}

/// Where the available ring's index sits.
pub open spec fn avail_idx_at(qs: int) -> int {
    qs * 16 + 2
}

/// Where the used ring's index sits.
pub open spec fn used_idx_at(qs: int) -> int {
    page_round_up(qs * 18 + 6) + 2
}

/// Where entry `i` of the used ring (a 32-bit descriptor id, then a
/// 32-bit length) sits.
pub open spec fn used_entry_at(qs: int, i: int) -> int {
    page_round_up(qs * 18 + 6) + 4 + i * 8
}

fn avail_entry_offset(qs: u16, slot: u16) -> (r: usize)
    ensures
        r == avail_entry_at(qs as int, slot as int),
{
    avail_offset(qs as usize) + 4 + (slot as usize) * 2
}

fn avail_idx_offset(qs: u16) -> (r: usize)
    ensures
        r == avail_idx_at(qs as int),
{
    avail_offset(qs as usize) + 2
}

/// Where the used ring's index sits in a queue of `qs` entries.
pub fn used_idx_offset(qs: u16) -> (r: usize)
    ensures
        r == used_idx_at(qs as int),
{
    used_offset(qs as usize) + 2
}

/// Where entry `i` of the used ring sits in a queue of `qs` entries.
pub fn used_entry_offset(qs: u16, i: u16) -> (r: usize)
    ensures
        r == used_entry_at(qs as int, i as int),
{
    used_offset(qs as usize) + 4 + (i as usize) * 8
}

fn u16_write(offset: usize, v: u16) -> (w: MemWrite)
    ensures
        w.offset == offset,
        w.bytes@ == le16_bytes(v),
{
    let mut b: Vec<u8> = Vec::new();
    push_le16(&mut b, v);
    assert(b@ =~= le16_bytes(v));
    MemWrite { offset, bytes: b }
}

// ─── The block device ───────────────────────────────────────────────

/// A legacy virtio block device with one queue, driven synchronously:
/// each request is a three-descriptor chain (header, data, status byte)
/// in descriptors 0 to 2.
pub struct VirtioBlkDev {
    io_base: u16,
    queue_size: u16,
    next_avail: u16,
    last_used: u16,
}

/// The writes of one block request, in order, and where to look for its
/// completion.
pub struct BlkRequest {
    /// The 16-byte request header, for the buffer at the header address.
    pub header: Vec<u8>,
    /// The descriptor table's first three entries, then the available
    /// ring's slot, then its index.
    pub writes: Vec<MemWrite>,
    /// The port to write 0 to (queue 0) once the writes are done.
    pub notify_port: u16,
    /// Where the used ring's index sits.
    pub used_idx_offset: usize,
}

impl VirtioBlkDev {
    pub closed spec fn io_base(&self) -> u16 {
        self.io_base
    }

    pub closed spec fn queue_size(&self) -> u16 {
        self.queue_size
    }

    /// The available ring's next index.
    pub closed spec fn next_avail(&self) -> u16 {
        self.next_avail
    }

    /// The used ring's index as last seen.
    pub closed spec fn last_used(&self) -> u16 {
        self.last_used
    }

    /// The driver for the device at `io_base` whose queue 0 reports
    /// `queue_size` entries; `None` where it reports none.
    pub fn new(io_base: u16, queue_size: u16) -> (d: Option<Self>)
        requires
            io_base + REG_STATUS <= u16::MAX,
        ensures
            queue_size == 0 ==> d is None,
            queue_size > 0 ==> (d matches Some(dev) && dev.io_base() == io_base && dev.queue_size()
                == queue_size && dev.next_avail() == 0 && dev.last_used() == 0),
    {
        if queue_size == 0 {
            return None;
        }
        Some(VirtioBlkDev { io_base, queue_size, next_avail: 0, last_used: 0 })
    }

    /// The port of one of the device's registers.
    pub fn register(&self, reg: u16) -> (p: u16)
        requires
            self.io_base() + reg <= u16::MAX,
        ensures
            p == self.io_base() + reg,
    {
        self.io_base + reg
    }

    /// Prepares a request of type `req_type` (0 read, 1 write) at sector
    /// `lba`, with the header buffer, the data buffer of `data_len` bytes
    /// and the status byte at the given addresses, and takes the next
    /// available slot.
    pub fn prepare(
        &mut self,
        req_type: u32,
        lba: u64,
        header_addr: u64,
        data_addr: u64,
        data_len: u32,
        status_addr: u64,
    ) -> (r: BlkRequest)
        requires
            old(self).queue_size() > 0,
            old(self).io_base() + REG_STATUS <= u16::MAX,
        ensures
            r.header@ == blk_header(req_type, lba),
            writes_view(r.writes@) == seq![
                (0int, descriptor(header_addr, 16, VRING_DESC_F_NEXT, 1)),
                (
                    16int,
                    descriptor(
                        data_addr,
                        data_len,
                        if req_type == VIRTIO_BLK_T_IN {
                            VRING_DESC_F_NEXT | VRING_DESC_F_WRITE
                        } else {
                            VRING_DESC_F_NEXT
                        },
                        2,
                    ),
                ),
                (32int, descriptor(status_addr, 1, VRING_DESC_F_WRITE, 0)),
                (
                    avail_entry_at(
                        old(self).queue_size() as int,
                        (old(self).next_avail() % old(self).queue_size()) as int,
                    ),
                    le16_bytes(0),
                ),
                (
                    avail_idx_at(old(self).queue_size() as int),
                    le16_bytes(old(self).next_avail().wrapping_add(1)),
                ),
            ],
            r.notify_port == old(self).io_base() + REG_QUEUE_NOTIFY,
            r.used_idx_offset == used_idx_at(old(self).queue_size() as int),
            final(self).next_avail() == old(self).next_avail().wrapping_add(1),
            final(self).last_used() == old(self).last_used(),
            final(self).io_base() == old(self).io_base(),
            final(self).queue_size() == old(self).queue_size(),
    {
        let header = blk_request_header(req_type, lba);
        let chain = blk_descriptor_chain(req_type, header_addr, data_addr, data_len, status_addr);
        let mut writes: Vec<MemWrite> = Vec::new();
        let mut k: usize = 0;
        while k < 3
            invariant
                k <= 3,
                chain@.len() == 3,
                writes@.len() == k,
                forall|j: int|
                    0 <= j < k ==> (#[trigger] writes@[j]).offset == j * 16 && writes@[j].bytes@
                        == descriptor(chain@[j].addr, chain@[j].len, chain@[j].flags, chain@[j].next),
            decreases 3 - k,
        {
            let d = &chain[k];
            writes.push(MemWrite { offset: k * 16, bytes: encode_descriptor(d.addr, d.len, d.flags, d.next) });
            k = k + 1;
        }
        let qs = self.queue_size;
        let slot = self.next_avail % qs;
        writes.push(u16_write(avail_entry_offset(qs, slot), 0));
        self.next_avail = self.next_avail.wrapping_add(1);
        writes.push(u16_write(avail_idx_offset(qs), self.next_avail));
        assert(writes_view(writes@) =~= seq![
            (0int, descriptor(header_addr, 16, VRING_DESC_F_NEXT, 1)),
            (
                16int,
                descriptor(
                    data_addr,
                    data_len,
                    if req_type == VIRTIO_BLK_T_IN {
                        VRING_DESC_F_NEXT | VRING_DESC_F_WRITE
                    } else {
                        VRING_DESC_F_NEXT
                    },
                    2,
                ),
            ),
            (32int, descriptor(status_addr, 1, VRING_DESC_F_WRITE, 0)),
            (avail_entry_at(qs as int, slot as int), le16_bytes(0)),
            (avail_idx_at(qs as int), le16_bytes(self.next_avail)),
        ]);
        BlkRequest {
            header,
            writes,
            notify_port: self.io_base + REG_QUEUE_NOTIFY,
            used_idx_offset: used_idx_offset(qs),
        }
    }

    /// Whether the request has completed, given the used ring's index as
    /// just read; on completion the driver moves past it.
    pub fn check_completion(&mut self, used_idx: u16) -> (done: bool)
        ensures
            done == (used_idx != old(self).last_used()),
            final(self).last_used() == if done {
                old(self).last_used().wrapping_add(1)
            } else {
                old(self).last_used()
            },
            final(self).next_avail() == old(self).next_avail(),
            final(self).io_base() == old(self).io_base(),
            final(self).queue_size() == old(self).queue_size(),
    {
        if used_idx != self.last_used {
            self.last_used = self.last_used.wrapping_add(1);
            true
        } else {
            false
        }
    }
}

/// A completed block request succeeded when the device left status 0.
pub fn blk_status_ok(status: u8) -> (r: bool)
    ensures
        r == (status == 0),
{
    status == 0
}

// ─── Receive queues ─────────────────────────────────────────────────

/// Write `k` of filling a receive queue of `qs` entries with `count`
/// buffers of `size` bytes from `bufs_addr` on: writes `2i` and `2i + 1`
/// put buffer `i` (written by the device) in descriptor `i` and available
/// slot `i`; write `2 * count` sets the available index to `count`.
pub open spec fn fill_write(qs: int, bufs_addr: u64, count: int, size: int, k: int) -> (int, Seq<u8>) {
    if k == 2 * count {
        (avail_idx_at(qs), le16_bytes(count as u16))
    } else if k % 2 == 0 {
        (
            (k / 2) * 16,
            descriptor((bufs_addr + (k / 2) * size) as u64, size as u32, VRING_DESC_F_WRITE, 0),
        )
    } else {
        (avail_entry_at(qs, k / 2), le16_bytes((k / 2) as u16))
    }
}

/// The writes that fill a receive queue: see `fill_write`.
pub fn fill_writes(qs: u16, bufs_addr: u64, count: u16, size: u32) -> (w: Vec<MemWrite>)
    requires
        bufs_addr + count * size <= u64::MAX,
    ensures
        w@.len() == 2 * count + 1,
        forall|k: int|
            0 <= k < w@.len() ==> (#[trigger] w@[k]).offset == fill_write(
                qs as int,
                bufs_addr,
                count as int,
                size as int,
                k,
            ).0 && w@[k].bytes@ == fill_write(qs as int, bufs_addr, count as int, size as int, k).1,
{
    let mut w: Vec<MemWrite> = Vec::new();
    let mut i: u16 = 0;
    while i < count
        invariant
            i <= count,
            bufs_addr + count * size <= u64::MAX,
            w@.len() == 2 * i,
            forall|k: int|
                0 <= k < w@.len() ==> (#[trigger] w@[k]).offset == fill_write(
                    qs as int,
                    bufs_addr,
                    count as int,
                    size as int,
                    k,
                ).0 && w@[k].bytes@ == fill_write(qs as int, bufs_addr, count as int, size as int, k).1,
        decreases count - i,
    {
        assert(i * size <= count * size) by (nonlinear_arith)
            requires
                i <= count,
        ;
        let addr: u64 = bufs_addr + (i as u64) * (size as u64);
        w.push(MemWrite { offset: (i as usize) * 16, bytes: encode_descriptor(addr, size, VRING_DESC_F_WRITE, 0) });
        w.push(u16_write(avail_entry_offset(qs, i), i));
        proof {
            let k0 = 2 * i as int;
            assert(k0 % 2 == 0 && k0 / 2 == i);
            assert((k0 + 1) % 2 == 1 && (k0 + 1) / 2 == i);
        }
        i = i + 1;
    }
    w.push(u16_write(avail_idx_offset(qs), count));
    w
}

// ─── The network device ─────────────────────────────────────────────

pub const NET_QUEUE_RX: u16 = 0;
pub const NET_QUEUE_TX: u16 = 1;
/// Bytes per packet buffer.
pub const NET_BUF_SIZE: usize = 2048;
/// The virtio-net header that precedes each frame.
pub const VNET_HDR: usize = 10;
/// Buffers per queue.
pub const QUEUE_BUFS: usize = 16;

/// A legacy virtio network device: a receive queue (0) with 16 buffers
/// that the device fills, and a transmit queue (1) with 16 buffers.
pub struct VirtioNetDev {
    io_base: u16,
    mac: [u8; 6],
    queue_size: u16,
    rx_next_avail: u16,
    rx_last_used: u16,
    tx_next_avail: u16,
}

/// A received packet's place: the frame's offset in the receive buffers
/// and its length, and the writes that hand the buffer back.
pub struct RxSlot {
    pub frame_offset: u64,
    pub frame_len: u32,
    pub writes: Vec<MemWrite>,
    pub notify_port: u16,
}

/// Where a frame to send goes: its buffer's offset in the transmit
/// buffers (the frame follows a zeroed 10-byte header there), and the
/// writes that hand it to the device.
pub struct TxSlot {
    pub buffer_offset: usize,
    pub writes: Vec<MemWrite>,
    pub notify_port: u16,
}

impl VirtioNetDev {
    pub closed spec fn io_base(&self) -> u16 {
        self.io_base
    }

    pub closed spec fn queue_size(&self) -> u16 {
        self.queue_size
    }

    pub closed spec fn mac(&self) -> [u8; 6] {
        self.mac
    }

    /// The number of entries in each queue.
    pub fn queue_len(&self) -> (r: u16)
        ensures
            r == self.queue_size(),
    {
        self.queue_size
    }

    /// The device's MAC address.
    pub fn mac_address(&self) -> (m: [u8; 6])
        ensures
            m == self.mac(),
    {
        self.mac
    }

    pub closed spec fn rx_next_avail(&self) -> u16 {
        self.rx_next_avail
    }

    pub closed spec fn rx_last_used(&self) -> u16 {
        self.rx_last_used
    }

    pub closed spec fn tx_next_avail(&self) -> u16 {
        self.tx_next_avail
    }

    /// The driver once the receive queue holds its 16 buffers.
    pub fn new(io_base: u16, mac: [u8; 6], queue_size: u16) -> (d: Self)
        requires
            io_base + REG_MAC_BASE + 6 <= u16::MAX,
        ensures
            d.io_base() == io_base,
            d.mac() == mac,
            d.queue_size() == queue_size,
            d.rx_next_avail() == QUEUE_BUFS,
            d.rx_last_used() == 0,
            d.tx_next_avail() == 0,
    {
        VirtioNetDev {
            io_base,
            mac,
            queue_size,
            rx_next_avail: 16,
            rx_last_used: 0,
            tx_next_avail: 0,
        }
    }

    /// The port of one of the device's registers.
    pub fn register(&self, reg: u16) -> (p: u16)
        requires
            self.io_base() + reg <= u16::MAX,
        ensures
            p == self.io_base() + reg,
    {
        self.io_base + reg
    }

    /// The receive queue's initial writes: its 16 buffers of 2048 bytes
    /// from `bufs_addr` on, in descriptors and available slots 0 to 15.
    pub fn rx_setup(&self, bufs_addr: u64) -> (w: Vec<MemWrite>)
        requires
            bufs_addr + QUEUE_BUFS * NET_BUF_SIZE <= u64::MAX,
        ensures
            w@.len() == 2 * QUEUE_BUFS + 1,
            forall|k: int|
                0 <= k < w@.len() ==> (#[trigger] w@[k]).offset == fill_write(
                    self.queue_size() as int,
                    bufs_addr,
                    QUEUE_BUFS as int,
                    NET_BUF_SIZE as int,
                    k,
                ).0 && w@[k].bytes@ == fill_write(
                    self.queue_size() as int,
                    bufs_addr,
                    QUEUE_BUFS as int,
                    NET_BUF_SIZE as int,
                    k,
                ).1,
    {
        fill_writes(self.queue_size, bufs_addr, 16, 2048)
    }

    /// Whether a received packet waits, given the receive queue's used
    /// index as just read.
    pub fn rx_pending(&self, used_idx: u16) -> (r: bool)
        ensures
            r == (used_idx != self.rx_last_used()),
    {
        used_idx != self.rx_last_used
    }

    /// Where the next used entry of the receive queue sits.
    pub fn rx_used_entry(&self) -> (off: usize)
        requires
            self.queue_size() > 0,
        ensures
            off == used_entry_at(
                self.queue_size() as int,
                (self.rx_last_used() % self.queue_size()) as int,
            ),
    {
        used_entry_offset(self.queue_size, self.rx_last_used % self.queue_size)
    }

    /// Takes the packet that the used entry names (descriptor `desc_id`,
    /// `pkt_len` bytes with the virtio-net header): the frame lies after
    /// the header in that descriptor's buffer; the buffer goes back into
    /// the next available slot.
    pub fn rx_take(&mut self, desc_id: u32, pkt_len: u32) -> (r: RxSlot)
        requires
            old(self).queue_size() > 0,
            old(self).io_base() + REG_MAC_BASE <= u16::MAX,
        ensures
            r.frame_offset == desc_id * NET_BUF_SIZE + VNET_HDR,
            r.frame_len == if pkt_len >= VNET_HDR {
                pkt_len - VNET_HDR
            } else {
                0
            },
            writes_view(r.writes@) == seq![
                (
                    avail_entry_at(
                        old(self).queue_size() as int,
                        (old(self).rx_next_avail() % old(self).queue_size()) as int,
                    ),
                    le16_bytes(desc_id as u16),
                ),
                (
                    avail_idx_at(old(self).queue_size() as int),
                    le16_bytes(old(self).rx_next_avail().wrapping_add(1)),
                ),
            ],
            r.notify_port == old(self).io_base() + REG_QUEUE_NOTIFY,
            final(self).rx_last_used() == old(self).rx_last_used().wrapping_add(1),
            final(self).rx_next_avail() == old(self).rx_next_avail().wrapping_add(1),
            final(self).tx_next_avail() == old(self).tx_next_avail(),
            final(self).io_base() == old(self).io_base(),
            final(self).queue_size() == old(self).queue_size(),
            final(self).mac() == old(self).mac(),
    {
        let qs = self.queue_size;
        self.rx_last_used = self.rx_last_used.wrapping_add(1);
        let frame_offset: u64 = (desc_id as u64) * 2048 + 10;
        let frame_len: u32 = if pkt_len >= 10 {
            pkt_len - 10
        } else {
            0
        };
        let slot = self.rx_next_avail % qs;
        let mut writes: Vec<MemWrite> = Vec::new();
        writes.push(u16_write(avail_entry_offset(qs, slot), desc_id as u16));
        self.rx_next_avail = self.rx_next_avail.wrapping_add(1);
        writes.push(u16_write(avail_idx_offset(qs), self.rx_next_avail));
        assert(writes_view(writes@) =~= seq![
            (avail_entry_at(qs as int, slot as int), le16_bytes(desc_id as u16)),
            (avail_idx_at(qs as int), le16_bytes(self.rx_next_avail)),
        ]);
        RxSlot { frame_offset, frame_len, writes, notify_port: self.io_base + REG_QUEUE_NOTIFY }
    }

    /// Places a frame of `frame_len` bytes for sending: buffer
    /// `(next % qs) % 16` of the transmit buffers (at `bufs_addr`) holds
    /// the header and the frame; descriptor and available slot
    /// `next % qs` name it.
    pub fn tx_prepare(&mut self, bufs_addr: u64, frame_len: usize) -> (r: TxSlot)
        requires
            old(self).queue_size() > 0,
            old(self).io_base() + REG_MAC_BASE <= u16::MAX,
            VNET_HDR + frame_len <= NET_BUF_SIZE,
            bufs_addr + QUEUE_BUFS * NET_BUF_SIZE <= u64::MAX,
        ensures
            ({
                let slot = old(self).tx_next_avail() % old(self).queue_size();
                let buf = (slot % QUEUE_BUFS as u16) * NET_BUF_SIZE;
                &&& r.buffer_offset == buf
                &&& writes_view(r.writes@) == seq![
                    (
                        slot * 16,
                        descriptor((bufs_addr + buf) as u64, (VNET_HDR + frame_len) as u32, 0, 0),
                    ),
                    (avail_entry_at(old(self).queue_size() as int, slot as int), le16_bytes(slot)),
                    (
                        avail_idx_at(old(self).queue_size() as int),
                        le16_bytes(old(self).tx_next_avail().wrapping_add(1)),
                    ),
                ]
            }),
            r.notify_port == old(self).io_base() + REG_QUEUE_NOTIFY,
            final(self).tx_next_avail() == old(self).tx_next_avail().wrapping_add(1),
            final(self).rx_next_avail() == old(self).rx_next_avail(),
            final(self).rx_last_used() == old(self).rx_last_used(),
            final(self).io_base() == old(self).io_base(),
            final(self).queue_size() == old(self).queue_size(),
            final(self).mac() == old(self).mac(),
    {
        let qs = self.queue_size;
        let slot = self.tx_next_avail % qs;
        let buf: usize = ((slot % 16) as usize) * 2048;
        let total: u32 = (10 + frame_len) as u32;
        let mut writes: Vec<MemWrite> = Vec::new();
        writes.push(
            MemWrite {
                offset: (slot as usize) * 16,
                bytes: encode_descriptor(bufs_addr + buf as u64, total, 0, 0),
            },
        );
        writes.push(u16_write(avail_entry_offset(qs, slot), slot));
        self.tx_next_avail = self.tx_next_avail.wrapping_add(1);
        writes.push(u16_write(avail_idx_offset(qs), self.tx_next_avail));
        assert(writes_view(writes@) =~= seq![
            (slot * 16, descriptor((bufs_addr + buf) as u64, (VNET_HDR + frame_len) as u32, 0, 0)),
            (avail_entry_at(qs as int, slot as int), le16_bytes(slot)),
            (avail_idx_at(qs as int), le16_bytes(self.tx_next_avail)),
        ]);
        TxSlot { buffer_offset: buf, writes, notify_port: self.io_base + REG_QUEUE_NOTIFY }
    }
}

// ─── The vsock device's queues ──────────────────────────────────────

/// Entries in each of the vsock device's queues.
pub const VSOCK_QUEUE_SIZE: u16 = 8;
/// Bytes per vsock packet buffer.
pub const VSOCK_BUF_SIZE: u32 = 4096;
/// The vsock packet header that starts each buffer.
pub const VSOCK_HDR: u32 = 44;
pub const VSOCK_QUEUE_RX: u16 = 0;
pub const VSOCK_QUEUE_TX: u16 = 1;

/// The rings of a modern virtio vsock device: receive (queue 0, eight
/// 4096-byte buffers) and transmit (queue 1), each kicked by a 16-bit
/// write of the queue's number at `notify_base + notify_off * mult`.
pub struct VsockRings {
    rx_last_used: u16,
    rx_next_avail: u16,
    tx_next_avail: u16,
    notify_base: u64,
    notify_mult: u32,
    rx_notify_off: u16,
    tx_notify_off: u16,
}

/// A received vsock packet: its buffer's offset among the receive
/// buffers (the header at its start, the payload after), the payload's
/// length, the writes that hand the buffer back, and where to kick.
pub struct VsockRx {
    pub buffer_offset: u64,
    pub data_len: u32,
    pub writes: Vec<MemWrite>,
    pub notify_addr: u64,
}

/// Where a packet to send goes: its buffer's offset among the transmit
/// buffers, the writes that hand it to the device, and where to kick.
pub struct VsockTx {
    pub buffer_offset: u64,
    pub writes: Vec<MemWrite>,
    pub notify_addr: u64,
}

/// The address that kicks a queue whose notify offset is `off`.
pub open spec fn notify_at(base: u64, off: u16, mult: u32) -> int {
    base + off * mult
}

impl VsockRings {
    pub closed spec fn rx_last_used(&self) -> u16 {
        self.rx_last_used
    }

    pub closed spec fn rx_next_avail(&self) -> u16 {
        self.rx_next_avail
    }

    pub closed spec fn tx_next_avail(&self) -> u16 {
        self.tx_next_avail
    }

    pub closed spec fn rx_kick(&self) -> int {
        notify_at(self.notify_base, self.rx_notify_off, self.notify_mult)
    }

    pub closed spec fn tx_kick(&self) -> int {
        notify_at(self.notify_base, self.tx_notify_off, self.notify_mult)
    }

    pub closed spec fn wf(&self) -> bool {
        self.rx_kick() <= u64::MAX && self.tx_kick() <= u64::MAX
    }

    /// The rings once the receive queue holds its eight buffers.
    pub fn new(notify_base: u64, notify_mult: u32, rx_notify_off: u16, tx_notify_off: u16) -> (r: Self)
        requires
            notify_at(notify_base, rx_notify_off, notify_mult) <= u64::MAX,
            notify_at(notify_base, tx_notify_off, notify_mult) <= u64::MAX,
        ensures
            r.rx_last_used() == 0,
            r.rx_next_avail() == VSOCK_QUEUE_SIZE,
            r.tx_next_avail() == 0,
            r.rx_kick() == notify_at(notify_base, rx_notify_off, notify_mult),
            r.tx_kick() == notify_at(notify_base, tx_notify_off, notify_mult),
            r.wf(),
    {
        VsockRings {
            rx_last_used: 0,
            rx_next_avail: 8,
            tx_next_avail: 0,
            notify_base,
            notify_mult,
            rx_notify_off,
            tx_notify_off,
        }
    }

    /// The address that kicks the receive queue.
    pub fn rx_notify_addr(&self) -> (a: u64)
        requires
            self.wf(),
        ensures
            a == self.rx_kick(),
    {
        self.notify_base + (self.rx_notify_off as u64) * (self.notify_mult as u64)
    }

    /// The address that kicks the transmit queue.
    pub fn tx_notify_addr(&self) -> (a: u64)
        requires
            self.wf(),
        ensures
            a == self.tx_kick(),
    {
        self.notify_base + (self.tx_notify_off as u64) * (self.notify_mult as u64)
    }

    /// The receive queue's initial writes: its eight buffers from
    /// `bufs_addr` on.
    pub fn rx_setup(&self, bufs_addr: u64) -> (w: Vec<MemWrite>)
        requires
            bufs_addr + VSOCK_QUEUE_SIZE * VSOCK_BUF_SIZE <= u64::MAX,
        ensures
            w@.len() == 2 * VSOCK_QUEUE_SIZE + 1,
            forall|k: int|
                0 <= k < w@.len() ==> (#[trigger] w@[k]).offset == fill_write(
                    VSOCK_QUEUE_SIZE as int,
                    bufs_addr,
                    VSOCK_QUEUE_SIZE as int,
                    VSOCK_BUF_SIZE as int,
                    k,
                ).0 && w@[k].bytes@ == fill_write(
                    VSOCK_QUEUE_SIZE as int,
                    bufs_addr,
                    VSOCK_QUEUE_SIZE as int,
                    VSOCK_BUF_SIZE as int,
                    k,
                ).1,
    {
        fill_writes(8, bufs_addr, 8, 4096)
    }

    /// Whether a received packet waits, given the receive queue's used
    /// index as just read.
    pub fn rx_pending(&self, used_idx: u16) -> (r: bool)
        ensures
            r == (used_idx != self.rx_last_used()),
    {
        used_idx != self.rx_last_used
    }

    /// Where the next used entry of the receive queue sits.
    pub fn rx_used_entry(&self) -> (off: usize)
        ensures
            off == used_entry_at(VSOCK_QUEUE_SIZE as int, (self.rx_last_used() % 8) as int),
    {
        used_entry_offset(8, self.rx_last_used % 8)
    }

    /// Takes the packet that the used entry names (descriptor `desc_id`,
    /// `pkt_len` bytes with the header); its buffer goes back into the
    /// next available slot.
    pub fn rx_take(&mut self, desc_id: u32, pkt_len: u32) -> (r: VsockRx)
        requires
            old(self).wf(),
        ensures
            r.buffer_offset == desc_id * VSOCK_BUF_SIZE,
            r.data_len == if pkt_len > VSOCK_HDR {
                pkt_len - VSOCK_HDR
            } else {
                0
            },
            writes_view(r.writes@) == seq![
                (
                    avail_entry_at(VSOCK_QUEUE_SIZE as int, (old(self).rx_next_avail() % 8) as int),
                    le16_bytes(desc_id as u16),
                ),
                (
                    avail_idx_at(VSOCK_QUEUE_SIZE as int),
                    le16_bytes(old(self).rx_next_avail().wrapping_add(1)),
                ),
            ],
            r.notify_addr == old(self).rx_kick(),
            final(self).rx_last_used() == old(self).rx_last_used().wrapping_add(1),
            final(self).rx_next_avail() == old(self).rx_next_avail().wrapping_add(1),
            final(self).tx_next_avail() == old(self).tx_next_avail(),
            final(self).rx_kick() == old(self).rx_kick(),
            final(self).tx_kick() == old(self).tx_kick(),
            final(self).wf(),
    {
        self.rx_last_used = self.rx_last_used.wrapping_add(1);
        let buffer_offset: u64 = (desc_id as u64) * 4096;
        let data_len: u32 = if pkt_len > 44 {
            pkt_len - 44
        } else {
            0
        };
        let slot = self.rx_next_avail % 8;
        let mut writes: Vec<MemWrite> = Vec::new();
        writes.push(u16_write(avail_entry_offset(8, slot), desc_id as u16));
        self.rx_next_avail = self.rx_next_avail.wrapping_add(1);
        writes.push(u16_write(avail_idx_offset(8), self.rx_next_avail));
        assert(writes_view(writes@) =~= seq![
            (avail_entry_at(8, slot as int), le16_bytes(desc_id as u16)),
            (avail_idx_at(8), le16_bytes(self.rx_next_avail)),
        ]);
        VsockRx { buffer_offset, data_len, writes, notify_addr: self.rx_notify_addr() }
    }

    /// Places a packet of `total` bytes (header and payload) for sending:
    /// buffer, descriptor and available slot `next % 8`.
    pub fn tx_prepare(&mut self, bufs_addr: u64, total: u32) -> (r: VsockTx)
        requires
            old(self).wf(),
            total <= VSOCK_BUF_SIZE,
            bufs_addr + VSOCK_QUEUE_SIZE * VSOCK_BUF_SIZE <= u64::MAX,
        ensures
            ({
                let slot = old(self).tx_next_avail() % 8;
                &&& r.buffer_offset == slot * VSOCK_BUF_SIZE
                &&& writes_view(r.writes@) == seq![
                    (slot * 16, descriptor((bufs_addr + slot * VSOCK_BUF_SIZE) as u64, total, 0, 0)),
                    (avail_entry_at(VSOCK_QUEUE_SIZE as int, slot as int), le16_bytes(slot)),
                    (
                        avail_idx_at(VSOCK_QUEUE_SIZE as int),
                        le16_bytes(old(self).tx_next_avail().wrapping_add(1)),
                    ),
                ]
            }),
            r.notify_addr == old(self).tx_kick(),
            final(self).tx_next_avail() == old(self).tx_next_avail().wrapping_add(1),
            final(self).rx_next_avail() == old(self).rx_next_avail(),
            final(self).rx_last_used() == old(self).rx_last_used(),
            final(self).rx_kick() == old(self).rx_kick(),
            final(self).tx_kick() == old(self).tx_kick(),
            final(self).wf(),
    {
        let slot = self.tx_next_avail % 8;
        let buffer_offset: u64 = (slot as u64) * 4096;
        let mut writes: Vec<MemWrite> = Vec::new();
        writes.push(
            MemWrite {
                offset: (slot as usize) * 16,
                bytes: encode_descriptor(bufs_addr + buffer_offset, total, 0, 0),
            },
        );
        writes.push(u16_write(avail_entry_offset(8, slot), slot));
        self.tx_next_avail = self.tx_next_avail.wrapping_add(1);
        writes.push(u16_write(avail_idx_offset(8), self.tx_next_avail));
        assert(writes_view(writes@) =~= seq![
            (slot * 16, descriptor((bufs_addr + slot * VSOCK_BUF_SIZE) as u64, total, 0, 0)),
            (avail_entry_at(8, slot as int), le16_bytes(slot)),
            (avail_idx_at(8), le16_bytes(self.tx_next_avail)),
        ]);
        VsockTx { buffer_offset, writes, notify_addr: self.tx_notify_addr() }
    }
}

/// The base addresses of the common configuration and notify structures:
/// each BAR's address plus the capability's offset; `None` where either
/// BAR maps nothing (an I/O BAR reads as address 0).
pub fn vsock_bases(common_bar: u64, common_off: u32, notify_bar: u64, notify_off: u32) -> (r: Option<(u64, u64)>)
    requires
        common_bar + common_off <= u64::MAX,
        notify_bar + notify_off <= u64::MAX,
    ensures
        r == if common_bar == 0 || notify_bar == 0 {
            None
        } else {
            Some(((common_bar + common_off) as u64, (notify_bar + notify_off) as u64))
        },
{
    if common_bar == 0 || notify_bar == 0 {
        return None;
    }
    Some((common_bar + common_off as u64, notify_bar + notify_off as u64))
}

// ─── Bringing up a modern virtio device ─────────────────────────────

pub const OFF_DRV_FEAT_SEL: u64 = 8;
pub const OFF_DRV_FEAT: u64 = 12;
pub const OFF_MSIX_VEC: u64 = 16;
pub const OFF_DEV_STATUS: u64 = 20;
pub const OFF_Q_SELECT: u64 = 22;
pub const OFF_Q_SIZE: u64 = 24;
pub const OFF_Q_MSIX: u64 = 26;
pub const OFF_Q_ENABLE: u64 = 28;
pub const OFF_Q_NOTIFY_OFF: u64 = 30;
pub const OFF_Q_DESC: u64 = 32;
pub const OFF_Q_DRIVER: u64 = 40;
pub const OFF_Q_DEVICE: u64 = 48;
pub const STATUS_FEATURES_OK: u8 = 8;
/// Bit 32 of the features: the device follows virtio 1.0.
pub const VIRTIO_F_VERSION_1: u32 = 1;
/// No MSI-X vector.
pub const NO_VECTOR: u16 = 0xFFFF;

/// A write into the common configuration structure: `width` bytes (1, 2,
/// 4 or 8) of `value` at `offset`.
#[derive(Clone, Copy, PartialEq, Eq, Structural, Debug)]
pub struct MmioWrite {
    pub offset: u64,
    pub width: u8,
    pub value: u64,
}

/// Reset, acknowledge, driver, then the driver features (none in the low
/// word, `VERSION_1` in the high word), then `FEATURES_OK`.
pub open spec fn negotiation_writes() -> Seq<MmioWrite> {
    seq![
        MmioWrite { offset: OFF_DEV_STATUS, width: 1, value: 0 },
        MmioWrite { offset: OFF_DEV_STATUS, width: 1, value: 1 },
        MmioWrite { offset: OFF_DEV_STATUS, width: 1, value: 3 },
        MmioWrite { offset: OFF_DRV_FEAT_SEL, width: 4, value: 0 },
        MmioWrite { offset: OFF_DRV_FEAT, width: 4, value: 0 },
        MmioWrite { offset: OFF_DRV_FEAT_SEL, width: 4, value: 1 },
        MmioWrite { offset: OFF_DRV_FEAT, width: 4, value: 1 },
        MmioWrite { offset: OFF_DEV_STATUS, width: 1, value: 11 },
    ]
}

/// The feature negotiation, as writes in order.
pub fn negotiation_sequence() -> (w: Vec<MmioWrite>)
    ensures
        w@ == negotiation_writes(),
{
    let mut w: Vec<MmioWrite> = Vec::new();
    w.push(MmioWrite { offset: OFF_DEV_STATUS, width: 1, value: 0 });
    w.push(MmioWrite { offset: OFF_DEV_STATUS, width: 1, value: 1 });
    w.push(MmioWrite { offset: OFF_DEV_STATUS, width: 1, value: 3 });
    w.push(MmioWrite { offset: OFF_DRV_FEAT_SEL, width: 4, value: 0 });
    w.push(MmioWrite { offset: OFF_DRV_FEAT, width: 4, value: 0 });
    w.push(MmioWrite { offset: OFF_DRV_FEAT_SEL, width: 4, value: 1 });
    w.push(MmioWrite { offset: OFF_DRV_FEAT, width: 4, value: 1 });
    w.push(MmioWrite { offset: OFF_DEV_STATUS, width: 1, value: 11 });
    assert(w@ =~= negotiation_writes());
    w
}

/// Whether the device kept `FEATURES_OK` after the negotiation.
pub fn features_accepted(status: u8) -> (r: bool)
    ensures
        r == ((status / 8) % 2 == 1),
{
    assert(status & 8u8 == 0u8 <==> (status / 8) % 2 == 0) by (bit_vector);
    status & STATUS_FEATURES_OK != 0
}

/// Selects queue `queue`, sets its size and leaves it without an MSI-X
/// vector; its notify offset is read after these writes.
pub fn queue_select_writes(queue: u16, size: u16) -> (w: Vec<MmioWrite>)
    ensures
        w@ == seq![
            MmioWrite { offset: OFF_Q_SELECT, width: 2, value: queue as u64 },
            MmioWrite { offset: OFF_Q_SIZE, width: 2, value: size as u64 },
            MmioWrite { offset: OFF_Q_MSIX, width: 2, value: NO_VECTOR as u64 },
        ],
{
    let mut w: Vec<MmioWrite> = Vec::new();
    w.push(MmioWrite { offset: OFF_Q_SELECT, width: 2, value: queue as u64 });
    w.push(MmioWrite { offset: OFF_Q_SIZE, width: 2, value: size as u64 });
    w.push(MmioWrite { offset: OFF_Q_MSIX, width: 2, value: NO_VECTOR as u64 });
    w
}

/// Gives the selected queue its descriptor table, available ring
/// (`avail_offset` into the queue memory at `mem`) and used ring
/// (`used_offset` into it), then enables it.
pub fn queue_enable_writes(mem: u64, qs: u16) -> (w: Vec<MmioWrite>)
    requires
        mem + page_round_up(qs * 18 + 6) <= u64::MAX,
    ensures
        w@ == seq![
            MmioWrite { offset: OFF_Q_DESC, width: 8, value: mem },
            MmioWrite { offset: OFF_Q_DRIVER, width: 8, value: (mem + qs * 16) as u64 },
            MmioWrite { offset: OFF_Q_DEVICE, width: 8, value: (mem + page_round_up(qs * 18 + 6)) as u64 },
            MmioWrite { offset: OFF_Q_ENABLE, width: 2, value: 1 },
        ],
{
    let mut w: Vec<MmioWrite> = Vec::new();
    w.push(MmioWrite { offset: OFF_Q_DESC, width: 8, value: mem });
    w.push(MmioWrite { offset: OFF_Q_DRIVER, width: 8, value: mem + avail_offset(qs as usize) as u64 });
    w.push(MmioWrite { offset: OFF_Q_DEVICE, width: 8, value: mem + used_offset(qs as usize) as u64 });
    w.push(MmioWrite { offset: OFF_Q_ENABLE, width: 2, value: 1 });
    w
}

/// The status that ends the bring-up: acknowledge, driver, features OK,
/// driver OK.
pub const MODERN_DRIVER_OK: u8 = 15;

} // verus!
