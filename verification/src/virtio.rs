//! Virtio plumbing shared by the block, network and vsock drivers: the
//! split-virtqueue memory layout, descriptors, the block request header,
//! and the PCI capabilities and BARs through which a modern device is found.

use vstd::prelude::*;
use crate::bytes::{le16_bytes, le32_bytes, le64_bytes, push_le16, push_le32, push_le64};
use crate::pci::{ConfigSpace, PciDevice, cfg8, cfg16, cfg32, read8, read16, read32};

verus! {

pub const PAGE_SIZE: usize = 4096;

/// `x` rounded up to a whole number of pages.
pub open spec fn page_round_up(x: int) -> int {
    ((x + 4095) / 4096) * 4096
}

fn round_up_page(x: usize) -> (r: usize)
    requires
        x + 4095 <= usize::MAX,
    ensures
        r == page_round_up(x as int),
{
    let y = x + 4095;
    let r = y & !4095usize;
    assert(y & !4095usize == (y / 4096) * 4096) by (bit_vector);
    r
}

/// Where the available ring starts: right after `qs` 16-byte descriptors.
pub fn avail_offset(qs: usize) -> (r: usize)
    requires
        qs * 16 <= usize::MAX,
    ensures
        r == qs * 16,
{
    qs * 16
}

/// Where the used ring starts: the available ring (6 + 2 * `qs` bytes)
/// rounded up to a page.
pub fn used_offset(qs: usize) -> (r: usize)
    requires
        qs * 18 + 6 + 4095 <= usize::MAX,
    ensures
        r == page_round_up(qs * 18 + 6),
        r % 4096 == 0,
        qs * 18 + 6 <= r < qs * 18 + 6 + 4096,
{
    let avail_end = avail_offset(qs) + 6 + 2 * qs;
    round_up_page(avail_end)
}

/// The memory a queue of `qs` entries takes: through the used ring
/// (6 + 8 * `qs` bytes), rounded up to a page.
pub fn queue_mem_size(qs: usize) -> (r: usize)
    requires
        qs * 26 + 12 + 2 * 4095 <= usize::MAX,
    ensures
        r == page_round_up(page_round_up(qs * 18 + 6) + 6 + qs * 8),
        r % 4096 == 0,
        page_round_up(qs * 18 + 6) + 6 + qs * 8 <= r,
{
    let used_end = used_offset(qs) + 6 + 8 * qs;
    round_up_page(used_end)
}

/// The 16 bytes of a descriptor: buffer address, length, flags, next index.
pub open spec fn descriptor(addr: u64, len: u32, flags: u16, next: u16) -> Seq<u8> {
    le64_bytes(addr) + le32_bytes(len) + le16_bytes(flags) + le16_bytes(next)
}

/// Encodes a descriptor.
pub fn encode_descriptor(addr: u64, len: u32, flags: u16, next: u16) -> (r: Vec<u8>)
    ensures
        r@ == descriptor(addr, len, flags, next),
        r@.len() == 16,
{
    let mut v: Vec<u8> = Vec::new();
    push_le64(&mut v, addr);
    push_le32(&mut v, len);
    push_le16(&mut v, flags);
    push_le16(&mut v, next);
    assert(v@ =~= descriptor(addr, len, flags, next));
    v
}

/// The descriptor continues in the one named by `next`.
pub const VRING_DESC_F_NEXT: u16 = 1;
/// The device writes the buffer.
pub const VRING_DESC_F_WRITE: u16 = 2;

pub const VIRTIO_BLK_T_IN: u32 = 0;
pub const VIRTIO_BLK_T_OUT: u32 = 1;

/// The 16-byte header of a block request: type, a reserved word, sector.
pub open spec fn blk_header(req_type: u32, lba: u64) -> Seq<u8> {
    le32_bytes(req_type) + le32_bytes(0) + le64_bytes(lba)
}

/// Encodes the header of a block request.
pub fn blk_request_header(req_type: u32, lba: u64) -> (r: Vec<u8>)
    ensures
        r@ == blk_header(req_type, lba),
        r@.len() == 16,
{
    let mut v: Vec<u8> = Vec::new();
    push_le32(&mut v, req_type);
    push_le32(&mut v, 0);
    push_le64(&mut v, lba);
    assert(v@ =~= blk_header(req_type, lba));
    v
}

/// A descriptor as the driver fills it in.
pub struct DescSpec {
    pub addr: u64,
    pub len: u32,
    pub flags: u16,
    pub next: u16,
}

/// The three-descriptor chain of a block request: the header (read by
/// the device) in descriptor 0, the data in descriptor 1 (written by the
/// device for a read), the status byte (written by the device) in
/// descriptor 2.
pub fn blk_descriptor_chain(
    req_type: u32,
    header_addr: u64,
    data_addr: u64,
    data_len: u32,
    status_addr: u64,
) -> (r: Vec<DescSpec>)
    ensures
        r@.len() == 3,
        r@[0] == (DescSpec { addr: header_addr, len: 16, flags: VRING_DESC_F_NEXT, next: 1 }),
        r@[1] == (DescSpec {
            addr: data_addr,
            len: data_len,
            flags: if req_type == VIRTIO_BLK_T_IN {
                VRING_DESC_F_NEXT | VRING_DESC_F_WRITE
            } else {
                VRING_DESC_F_NEXT
            },
            next: 2,
        }),
        r@[2] == (DescSpec { addr: status_addr, len: 1, flags: VRING_DESC_F_WRITE, next: 0 }),
{
    let data_flags = VRING_DESC_F_NEXT | if req_type == VIRTIO_BLK_T_IN {
        VRING_DESC_F_WRITE
    } else {
        0
    };
    assert(VRING_DESC_F_NEXT | 0u16 == VRING_DESC_F_NEXT) by (bit_vector);
    let mut v: Vec<DescSpec> = Vec::new();
    v.push(DescSpec { addr: header_addr, len: 16, flags: VRING_DESC_F_NEXT, next: 1 });
    v.push(DescSpec { addr: data_addr, len: data_len, flags: data_flags, next: 2 });
    v.push(DescSpec { addr: status_addr, len: 1, flags: VRING_DESC_F_WRITE, next: 0 });
    v
}

/// The base port of an I/O BAR, or `None` where BAR 0 maps memory.
pub fn io_bar_base(bar0: u32) -> (r: Option<u16>)
    ensures
        r == if bar0 % 2 == 0 {
            None
        } else {
            Some(((bar0 - bar0 % 4) % 65536) as u16)
        },
{
    if bar0 & 0x1 == 0 {
        assert(bar0 & 1u32 == bar0 % 2) by (bit_vector);
        return None;
    }
    assert(bar0 & 1u32 == bar0 % 2) by (bit_vector);
    assert((bar0 & !3u32) as u16 == ((bar0 - bar0 % 4) % 65536) as u16) by (bit_vector);
    Some((bar0 & !0x3) as u16)
}

// ─── Capabilities of a modern virtio device ─────────────────────────

/// A virtio capability: the BAR and the offset in it of a structure, and
/// where in configuration space the capability itself sits.
pub struct CapInfo {
    pub bar: u8,
    pub offset: u32,
    pub cap_cfg_offset: u8,
}

/// What a walk of the capability list finds: the capability, nothing, or a
/// pointer so near the end of configuration space that the walk's
/// arithmetic overflows.
pub enum CapWalk {
    Found { bar: u8, offset: u32, cap_cfg_offset: u8 },
    Missing,
    Overflow,
}

/// The walk from capability pointer `ptr`, `guard` steps taken, for the
/// virtio capability of type `cfg_type`.
pub open spec fn cap_walk<C: ConfigSpace>(cs: &C, dev: PciDevice, ptr: u8, guard: int, cfg_type: u8) -> CapWalk
    decreases 32 - guard,
{
    if ptr == 0 || guard >= 32 {
        CapWalk::Missing
    } else if ptr > 253 {
        CapWalk::Overflow
    } else {
        let cap_id = cfg8(cs, dev.bus, dev.slot, dev.func, ptr);
        let cap_len = cfg8(cs, dev.bus, dev.slot, dev.func, (ptr + 2) as u8);
        let next = cfg8(cs, dev.bus, dev.slot, dev.func, (ptr + 1) as u8);
        if cap_id == 0x09 && cap_len >= 16 {
            if ptr > 252 {
                CapWalk::Overflow
            } else if cfg8(cs, dev.bus, dev.slot, dev.func, (ptr + 3) as u8) == cfg_type {
                if ptr > 247 {
                    CapWalk::Overflow
                } else {
                    CapWalk::Found {
                        bar: cfg8(cs, dev.bus, dev.slot, dev.func, (ptr + 4) as u8),
                        offset: cfg32(cs, dev.bus, dev.slot, dev.func, (ptr + 8) as u8),
                        cap_cfg_offset: ptr,
                    }
                }
            } else {
                cap_walk(cs, dev, next, guard + 1, cfg_type)
            }
        } else {
            cap_walk(cs, dev, next, guard + 1, cfg_type)
        }
    }
}

/// What `find_cap` finds: nothing where the device lists no capabilities,
/// else what the walk from the capability pointer finds.
pub open spec fn cap_search<C: ConfigSpace>(cs: &C, dev: PciDevice, cfg_type: u8) -> CapWalk {
    if cfg16(cs, dev.bus, dev.slot, dev.func, 0x06) & 0x10 == 0 {
        CapWalk::Missing
    } else {
        cap_walk(cs, dev, cfg8(cs, dev.bus, dev.slot, dev.func, 0x34), 0, cfg_type)
    }
}

/// Finds the virtio capability of type `cfg_type` (1 common, 2 notify, ...)
/// in the device's capability list; follows at most 32 links.
pub fn find_cap<C: ConfigSpace>(cs: &C, dev: &PciDevice, cfg_type: u8) -> (r: Option<CapInfo>)
    requires
        !(cap_search(cs, *dev, cfg_type) is Overflow),
    ensures
        match cap_search(cs, *dev, cfg_type) {
            CapWalk::Found { bar, offset, cap_cfg_offset } => r == Some(
                CapInfo { bar, offset, cap_cfg_offset },
            ),
            _ => r is None,
        },
{
    let status = read16(cs, dev.bus, dev.slot, dev.func, 0x06);
    if status & 0x10 == 0 {
        return None;
    }
    let mut ptr = read8(cs, dev.bus, dev.slot, dev.func, 0x34);
    let mut guard: u8 = 0;
    while ptr != 0 && guard < 32
        invariant
            guard <= 32,
            cap_search(cs, *dev, cfg_type) == cap_walk(cs, *dev, ptr, guard as int, cfg_type),
            !(cap_search(cs, *dev, cfg_type) is Overflow),
        decreases 32 - guard,
    {
        guard = guard + 1;
        let cap_id = read8(cs, dev.bus, dev.slot, dev.func, ptr);
        let cap_len = read8(cs, dev.bus, dev.slot, dev.func, ptr + 2);
        let next = read8(cs, dev.bus, dev.slot, dev.func, ptr + 1);
        if cap_id == 0x09 && cap_len >= 16 {
            let ct = read8(cs, dev.bus, dev.slot, dev.func, ptr + 3);
            if ct == cfg_type {
                let bar = read8(cs, dev.bus, dev.slot, dev.func, ptr + 4);
                let offset = read32(cs, dev.bus, dev.slot, dev.func, ptr + 8);
                return Some(CapInfo { bar, offset, cap_cfg_offset: ptr });
            }
        }
        ptr = next;
    }
    None
}

/// Whether `find_cap` may be called: the walk never reaches a pointer
/// so near the end of configuration space that its arithmetic overflows.
pub fn cap_search_defined<C: ConfigSpace>(cs: &C, dev: &PciDevice, cfg_type: u8) -> (r: bool)
    ensures
        r == !(cap_search(cs, *dev, cfg_type) is Overflow),
{
    let status = read16(cs, dev.bus, dev.slot, dev.func, 0x06);
    if status & 0x10 == 0 {
        return true;
    }
    let mut ptr = read8(cs, dev.bus, dev.slot, dev.func, 0x34);
    let mut guard: u8 = 0;
    while ptr != 0 && guard < 32
        invariant
            guard <= 32,
            cap_search(cs, *dev, cfg_type) == cap_walk(cs, *dev, ptr, guard as int, cfg_type),
        decreases 32 - guard,
    {
        if ptr > 253 {
            return false;
        }
        guard = guard + 1;
        let cap_id = read8(cs, dev.bus, dev.slot, dev.func, ptr);
        let cap_len = read8(cs, dev.bus, dev.slot, dev.func, ptr + 2);
        let next = read8(cs, dev.bus, dev.slot, dev.func, ptr + 1);
        if cap_id == 0x09 && cap_len >= 16 {
            if ptr > 252 {
                return false;
            }
            let ct = read8(cs, dev.bus, dev.slot, dev.func, ptr + 3);
            if ct == cfg_type {
                return ptr <= 247;
            }
        }
        ptr = next;
    }
    true
}

/// The address that BAR `bar_idx` maps: 0 for an I/O BAR, else its base
/// with the flag bits cleared, a 64-bit BAR taking its high half from the
/// next register.
pub open spec fn bar_address<C: ConfigSpace>(cs: &C, dev: PciDevice, bar_idx: u8) -> u64 {
    let off = (0x10 + bar_idx * 4) as u8;
    let val = cfg32(cs, dev.bus, dev.slot, dev.func, off);
    if val % 2 == 1 {
        0
    } else if (val / 2) % 4 == 2 {
        (cfg32(cs, dev.bus, dev.slot, dev.func, (off + 4) as u8) * 0x1_0000_0000 + (val - val % 16)) as u64
    } else {
        (val - val % 16) as u64
    }
}

/// BAR `bar_idx` lies in the standard header, and so does the high half
/// of a 64-bit BAR.
pub open spec fn bar_in_header<C: ConfigSpace>(cs: &C, dev: PciDevice, bar_idx: u8) -> bool {
    let off = 0x10 + bar_idx * 4;
    &&& off <= 255
    &&& (cfg32(cs, dev.bus, dev.slot, dev.func, off as u8) / 2) % 4 == 2 && cfg32(
        cs,
        dev.bus,
        dev.slot,
        dev.func,
        off as u8,
    ) % 2 == 0 ==> off + 4 <= 255
}

/// Reads the address that BAR `bar_idx` maps.
pub fn bar_addr<C: ConfigSpace>(cs: &C, dev: &PciDevice, bar_idx: u8) -> (r: u64)
    requires
        bar_in_header(cs, *dev, bar_idx),
    ensures
        r == bar_address(cs, *dev, bar_idx),
{
    let off: u8 = 0x10 + bar_idx * 4;
    let val = read32(cs, dev.bus, dev.slot, dev.func, off);
    assert(val & 1u32 == val % 2) by (bit_vector);
    if val & 1 == 1 {
        return 0;
    }
    let addr32 = val & !0xF;
    assert(val & !0xFu32 == val - val % 16) by (bit_vector);
    assert((val >> 1u32) & 3u32 == (val / 2) % 4) by (bit_vector);
    if (val >> 1) & 0x3 == 2 {
        let high = read32(cs, dev.bus, dev.slot, dev.func, off + 4);
        let r = ((high as u64) << 32u64) | (addr32 as u64);
        assert(addr32 < 0x1_0000_0000u64 ==> ((high as u64) << 32u64) | (addr32 as u64) == (high
            as u64) * 0x1_0000_0000u64 + (addr32 as u64)) by (bit_vector);
        r
    } else {
        addr32 as u64
    }
}

/// Whether `bar_addr` may be called for BAR `bar_idx`.
pub fn bar_readable<C: ConfigSpace>(cs: &C, dev: &PciDevice, bar_idx: u8) -> (r: bool)
    ensures
        r == bar_in_header(cs, *dev, bar_idx),
{
    let off: u32 = 0x10 + (bar_idx as u32) * 4;
    if off > 255 {
        return false;
    }
    let val = read32(cs, dev.bus, dev.slot, dev.func, off as u8);
    assert(val & 1u32 == val % 2) by (bit_vector);
    assert((val >> 1u32) & 3u32 == (val / 2) % 4) by (bit_vector);
    if (val >> 1) & 0x3 == 2 && val & 1 == 0 {
        off + 4 <= 255
    } else {
        true
    }
}

} // verus!
