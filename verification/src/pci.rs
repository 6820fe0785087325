//! PCI configuration space through the legacy address/data port pair:
//! the address of a 32-bit register goes to port 0xCF8, its value comes
//! back from port 0xCFC.

use vstd::prelude::*;

verus! {

/// The value written to the address port to select the register that
/// holds byte `offset` of function `func` of device `slot` on `bus`.
pub open spec fn config_address(bus: u8, slot: u8, func: u8, offset: u8) -> u32 {
    0x8000_0000u32 | ((bus as u32) << 16u32) | ((slot as u32) << 11u32) | ((func as u32) << 8u32)
        | ((offset as u32) & 0xFCu32)
}

/// Configuration space as the address/data port pair shows it.
///
/// Unlike the other device traits this one has no switch that leaves the
/// model out: the capability walk and the BAR reads take, as their
/// preconditions, facts about what the registers hold (that a pointer
/// leaves room for the bytes read after it), so what they do rests on
/// `config_word` describing the device. A device without a model (the
/// hardware's) keeps the default body below, which does not describe it;
/// what is proved of the scans holds of such a device only as far as its
/// registers read as `config_word` says.
pub trait ConfigSpace {
    /// The register that the address port value `address` selects; the
    /// default body is closed, so nothing is proved from it.
    closed spec fn config_word(&self, address: u32) -> u32 {
        0
    }

    /// Selects `address` and reads the register.
    fn read_word(&self, address: u32) -> (r: u32)
        ensures
            r == self.config_word(address),
    ;
}

/// A configuration space held in memory: registers set by `set`, and
/// `0xFFFF_FFFF` (no device) everywhere else.
pub struct MemConfigSpace {
    regs: Vec<(u32, u32)>,
}

/// The value of `address` among `regs`: the last pair that sets it.
pub open spec fn reg_value(regs: Seq<(u32, u32)>, address: u32) -> u32
    decreases regs.len(),
{
    if regs.len() == 0 {
        0xFFFF_FFFF
    } else if regs.last().0 == address {
        regs.last().1
    } else {
        reg_value(regs.drop_last(), address)
    }
}

impl MemConfigSpace {
    pub closed spec fn regs(&self) -> Seq<(u32, u32)> {
        self.regs@
    }

    /// A configuration space with no device.
    pub fn new() -> (cs: MemConfigSpace)
        ensures
            forall|a: u32| #[trigger] cs.config_word(a) == 0xFFFF_FFFFu32,
    {
        MemConfigSpace { regs: Vec::new() }
    }

    /// Sets the register at `address` to `value`.
    pub fn set(&mut self, address: u32, value: u32)
        ensures
            forall|a: u32|
                #[trigger] final(self).config_word(a) == if a == address {
                    value
                } else {
                    old(self).config_word(a)
                },
    {
        self.regs.push((address, value));
        assert(self.regs@.drop_last() =~= old(self).regs@);
    }
}

impl ConfigSpace for MemConfigSpace {
    closed spec fn config_word(&self, address: u32) -> u32 {
        reg_value(self.regs@, address)
    }

    fn read_word(&self, address: u32) -> (r: u32) {
        let mut i = self.regs.len();
        assert(self.regs@.take(i as int) =~= self.regs@);
        while i > 0
            invariant
                i <= self.regs@.len(),
                reg_value(self.regs@, address) == reg_value(self.regs@.take(i as int), address),
            decreases i,
        {
            let (a, v) = self.regs[i - 1];
            assert(self.regs@.take(i as int).drop_last() =~= self.regs@.take(i - 1));
            if a == address {
                return v;
            }
            i = i - 1;
        }
        0xFFFF_FFFF
    }
}

/// The address port value for byte `offset` of `bus`/`slot`/`func`.
pub fn make_address(bus: u8, slot: u8, func: u8, offset: u8) -> (r: u32)
    ensures
        r == config_address(bus, slot, func, offset),
        slot < 32 && func < 8 ==> r == 0x8000_0000 + bus * 65536 + slot * 2048 + func * 256 + (
        offset - offset % 4),
{
    let r = 0x8000_0000u32 | ((bus as u32) << 16u32) | ((slot as u32) << 11u32) | ((func as u32)
        << 8u32) | ((offset as u32) & 0xFCu32);
    proof {
        let (b, s, f, o) = (bus as u32, slot as u32, func as u32, offset as u32);
        assert(s < 32 && f < 8 && b < 256 && o < 256 ==> 0x8000_0000u32 | (b << 16u32) | (s
            << 11u32) | (f << 8u32) | (o & 0xFCu32) == 0x8000_0000u32 + b * 65536 + s * 2048 + f
            * 256 + (o - o % 4)) by (bit_vector);
    }
    r
}

/// The 32-bit register that holds byte `offset`.
pub open spec fn cfg32<C: ConfigSpace>(cs: &C, bus: u8, slot: u8, func: u8, offset: u8) -> u32 {
    cs.config_word(config_address(bus, slot, func, offset))
}

/// The 16-bit half of `word` that holds byte `offset`.
pub open spec fn half_at(word: u32, offset: u8) -> u16 {
    if offset % 4 < 2 {
        (word % 65536) as u16
    } else {
        (word / 65536) as u16
    }
}

/// The byte of `word` at position `offset % 4`.
pub open spec fn byte_at(word: u32, offset: u8) -> u8 {
    if offset % 4 == 0 {
        (word % 256) as u8
    } else if offset % 4 == 1 {
        ((word / 256) % 256) as u8
    } else if offset % 4 == 2 {
        ((word / 65536) % 256) as u8
    } else {
        (word / 16777216) as u8
    }
}

pub open spec fn cfg16<C: ConfigSpace>(cs: &C, bus: u8, slot: u8, func: u8, offset: u8) -> u16 {
    half_at(cfg32(cs, bus, slot, func, offset), offset)
}

pub open spec fn cfg8<C: ConfigSpace>(cs: &C, bus: u8, slot: u8, func: u8, offset: u8) -> u8 {
    byte_at(cfg32(cs, bus, slot, func, offset), offset)
}

/// Reads the 32-bit register that holds byte `offset`.
pub fn read32<C: ConfigSpace>(cs: &C, bus: u8, slot: u8, func: u8, offset: u8) -> (r: u32)
    ensures
        r == cfg32(cs, bus, slot, func, offset),
{
    cs.read_word(make_address(bus, slot, func, offset))
}

/// Reads the 16-bit value at byte `offset` (its low bit ignored).
pub fn read16<C: ConfigSpace>(cs: &C, bus: u8, slot: u8, func: u8, offset: u8) -> (r: u16)
    ensures
        r == cfg16(cs, bus, slot, func, offset),
{
    let val = read32(cs, bus, slot, func, offset & !3u8);
    proof {
        assert((offset & !3u8) as u32 & 0xFCu32 == offset as u32 & 0xFCu32) by (bit_vector);
    }
    let sel: u8 = offset & 2;
    proof {
        assert(offset & 2u8 == 0u8 || offset & 2u8 == 2u8) by (bit_vector);
        assert((offset & 2u8 == 0u8) == (offset % 4 < 2)) by (bit_vector);
    }
    let shift: u32 = (sel * 8) as u32;
    let r = ((val >> shift) & 0xFFFF) as u16;
    proof {
        assert(shift == 0u32 ==> (val >> shift) & 0xFFFFu32 == val % 65536) by (bit_vector);
        assert(shift == 16u32 ==> (val >> shift) & 0xFFFFu32 == val / 65536) by (bit_vector);
    }
    r
}

/// Reads the byte at `offset`.
pub fn read8<C: ConfigSpace>(cs: &C, bus: u8, slot: u8, func: u8, offset: u8) -> (r: u8)
    ensures
        r == cfg8(cs, bus, slot, func, offset),
{
    let val = read32(cs, bus, slot, func, offset & !3u8);
    proof {
        assert((offset & !3u8) as u32 & 0xFCu32 == offset as u32 & 0xFCu32) by (bit_vector);
    }
    let sel: u8 = offset & 3;
    proof {
        assert(offset & 3u8 == offset % 4) by (bit_vector);
    }
    let shift: u32 = (sel * 8) as u32;
    let r = ((val >> shift) & 0xFF) as u8;
    proof {
        assert(shift == 0u32 ==> (val >> shift) & 0xFFu32 == val % 256) by (bit_vector);
        assert(shift == 8u32 ==> (val >> shift) & 0xFFu32 == (val / 256) % 256) by (bit_vector);
        assert(shift == 16u32 ==> (val >> shift) & 0xFFu32 == (val / 65536) % 256) by (bit_vector);
        assert(shift == 24u32 ==> (val >> shift) & 0xFFu32 == val / 16777216) by (bit_vector);
    }
    r
}

/// Where a PCI function sits and what it is.
pub struct PciDevice {
    pub bus: u8,
    pub slot: u8,
    pub func: u8,
    pub vendor_id: u16,
    pub device_id: u16,
    /// Base address register 0 as read (an I/O BAR has bit 0 set).
    pub bar0: u32,
}

pub open spec fn vendor_of<C: ConfigSpace>(cs: &C, bus: u8, slot: u8, func: u8) -> u16 {
    cfg16(cs, bus, slot, func, 0x00)
}

pub open spec fn device_of<C: ConfigSpace>(cs: &C, bus: u8, slot: u8, func: u8) -> u16 {
    cfg16(cs, bus, slot, func, 0x02)
}

/// The scan looks at function `func` of `bus`/`slot`: always at function 0,
/// and at functions 1 to 7 where function 0 is present and its header type
/// marks a multi-function device.
pub open spec fn probed<C: ConfigSpace>(cs: &C, bus: u8, slot: u8, func: u8) -> bool {
    func == 0 || (1 <= func < 8 && vendor_of(cs, bus, slot, 0) != 0xFFFF && cfg8(
        cs,
        bus,
        slot,
        0,
        0x0E,
    ) & 0x80 != 0)
}

/// The scan finds a present function with these ids at `bus`/`slot`/`func`.
pub open spec fn found_at<C: ConfigSpace>(
    cs: &C,
    bus: u8,
    slot: u8,
    func: u8,
    vendor_id: u16,
    device_id: u16,
) -> bool {
    &&& probed(cs, bus, slot, func)
    &&& vendor_of(cs, bus, slot, func) != 0xFFFF
    &&& vendor_of(cs, bus, slot, func) == vendor_id
    &&& device_of(cs, bus, slot, func) == device_id
}

/// The position of `bus`/`slot`/`func` in the scan order.
pub open spec fn scan_index(bus: u8, slot: u8, func: u8) -> int {
    bus * 256 + slot * 8 + func
}

/// No function before scan position `k` is found.
pub open spec fn none_before<C: ConfigSpace>(cs: &C, vendor_id: u16, device_id: u16, k: int) -> bool {
    forall|b: u8, s: u8, f: u8|
        s < 32 && f < 8 && scan_index(b, s, f) < k ==> !#[trigger] found_at(
            cs,
            b,
            s,
            f,
            vendor_id,
            device_id,
        )
}

/// The first function, in the order bus, device, function, whose vendor
/// and device ids are these.
pub fn find<C: ConfigSpace>(cs: &C, vendor_id: u16, device_id: u16) -> (r: Option<PciDevice>)
    ensures
        match r {
            Some(d) => {
                &&& d.slot < 32
                &&& d.func < 8
                &&& found_at(cs, d.bus, d.slot, d.func, vendor_id, device_id)
                &&& none_before(cs, vendor_id, device_id, scan_index(d.bus, d.slot, d.func))
                &&& d.vendor_id == vendor_id
                &&& d.device_id == device_id
                &&& d.bar0 == cfg32(cs, d.bus, d.slot, d.func, 0x10)
            },
            None => none_before(cs, vendor_id, device_id, 65536),
        },
{
    let mut bus: u16 = 0;
    while bus < 256
        invariant
            bus <= 256,
            none_before(cs, vendor_id, device_id, bus * 256),
        decreases 256 - bus,
    {
        let b = bus as u8;
        let mut slot: u8 = 0;
        while slot < 32
            invariant
                slot <= 32,
                bus < 256,
                b == bus,
                none_before(cs, vendor_id, device_id, bus * 256 + slot * 8),
            decreases 32 - slot,
        {
            let v = read16(cs, b, slot, 0, 0x00);
            if v != 0xFFFF {
                let d = read16(cs, b, slot, 0, 0x02);
                if v == vendor_id && d == device_id {
                    let bar0 = read32(cs, b, slot, 0, 0x10);
                    return Some(
                        PciDevice { bus: b, slot, func: 0, vendor_id: v, device_id: d, bar0 },
                    );
                }
                let header = read8(cs, b, slot, 0, 0x0E);
                if header & 0x80 != 0 {
                    let mut func: u8 = 1;
                    while func < 8
                        invariant
                            1 <= func <= 8,
                            slot < 32,
                            bus < 256,
                            b == bus,
                            probed(cs, b, slot, 1),
                            none_before(cs, vendor_id, device_id, bus * 256 + slot * 8 + func),
                        decreases 8 - func,
                    {
                        let v = read16(cs, b, slot, func, 0x00);
                        if v != 0xFFFF {
                            let d = read16(cs, b, slot, func, 0x02);
                            if v == vendor_id && d == device_id {
                                let bar0 = read32(cs, b, slot, func, 0x10);
                                assert(found_at(cs, b, slot, func, vendor_id, device_id));
                                return Some(
                                    PciDevice {
                                        bus: b,
                                        slot,
                                        func,
                                        vendor_id: v,
                                        device_id: d,
                                        bar0,
                                    },
                                );
                            }
                        }
                        assert(!found_at(cs, b, slot, func, vendor_id, device_id));
                        func = func + 1;
                    }
                } else {
                    assert forall|f: u8| 1 <= f < 8 implies !#[trigger] found_at(
                        cs,
                        b,
                        slot,
                        f,
                        vendor_id,
                        device_id,
                    ) by {}
                }
            } else {
                assert forall|f: u8| f < 8 implies !#[trigger] found_at(
                    cs,
                    b,
                    slot,
                    f,
                    vendor_id,
                    device_id,
                ) by {}
            }
            slot = slot + 1;
        }
        bus = bus + 1;
    }
    None
}

} // verus!
