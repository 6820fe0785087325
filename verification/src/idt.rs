//! The interrupt descriptor table and the two 8259A interrupt controllers.
//!
//! Every one of the 256 vectors gets a 64-bit interrupt gate (kernel code
//! segment 0x08, present, privilege 0) to one of four entry stubs: the
//! exceptions that push an error code (8, 10 to 14, 17, 30), the master
//! controller's lines (0x20 to 0x27), the slave's (0x28 to 0x2F), and
//! every other vector.

use vstd::prelude::*;

verus! {

pub const KERNEL_CODE_SELECTOR: u16 = 0x08;
/// Present, privilege 0, 64-bit interrupt gate.
pub const GATE_ATTRS: u16 = 0x8E00;
pub const IDT_VECTORS: usize = 256;

/// One gate, in its 16-byte layout.
#[derive(Clone, Copy, PartialEq, Eq, Structural, Debug)]
pub struct IdtEntry {
    pub offset_lo: u16,
    pub selector: u16,
    pub attrs: u16,
    pub offset_mid: u16,
    pub offset_hi: u32,
    pub reserved: u32,
}

/// The handler address that a gate holds.
pub open spec fn gate_target(e: IdtEntry) -> int {
    e.offset_lo + e.offset_mid * 0x1_0000 + e.offset_hi * 0x1_0000_0000
}

/// An interrupt gate whose target is `handler`.
pub open spec fn interrupt_gate(handler: u64) -> IdtEntry {
    IdtEntry {
        offset_lo: (handler % 0x1_0000) as u16,
        selector: KERNEL_CODE_SELECTOR,
        attrs: GATE_ATTRS,
        offset_mid: ((handler / 0x1_0000) % 0x1_0000) as u16,
        offset_hi: (handler / 0x1_0000_0000) as u32,
        reserved: 0,
    }
}

impl IdtEntry {
    /// An interrupt gate to `handler`.
    pub fn new(handler: u64) -> (e: IdtEntry)
        ensures
            e == interrupt_gate(handler),
    {
        let lo: u16 = (handler & 0xFFFF) as u16;
        let mid: u16 = ((handler >> 16) & 0xFFFF) as u16;
        let hi: u32 = (handler >> 32) as u32;
        assert((handler & 0xFFFF) == handler % 0x1_0000) by (bit_vector);
        assert(((handler >> 16) & 0xFFFF) == (handler / 0x1_0000) % 0x1_0000) by (bit_vector);
        assert((handler >> 32) == handler / 0x1_0000_0000) by (bit_vector);
        IdtEntry {
            offset_lo: lo,
            selector: KERNEL_CODE_SELECTOR,
            attrs: GATE_ATTRS,
            offset_mid: mid,
            offset_hi: hi,
            reserved: 0,
        }
    }

    /// An empty (not present) gate.
    pub fn zero() -> (e: IdtEntry)
        ensures
            e == (IdtEntry {
                offset_lo: 0,
                selector: 0,
                attrs: 0,
                offset_mid: 0,
                offset_hi: 0,
                reserved: 0,
            }),
    {
        IdtEntry { offset_lo: 0, selector: 0, attrs: 0, offset_mid: 0, offset_hi: 0, reserved: 0 }
    }
}

/// A gate leads back to the handler it was made for.
pub proof fn lemma_gate_round_trip(handler: u64)
    ensures
        gate_target(interrupt_gate(handler)) == handler,
{
    let h = handler as int;
    assert(h == h % 0x1_0000 + ((h / 0x1_0000) % 0x1_0000) * 0x1_0000 + (h / 0x1_0000_0000)
        * 0x1_0000_0000) by (nonlinear_arith)
        requires
            0 <= h,
    ;
}

/// Which entry stub serves a vector.
#[derive(Clone, Copy, PartialEq, Eq, Structural, Debug)]
pub enum Stub {
    Exception,
    ExceptionWithError,
    PicMaster,
    PicSlave,
}

/// The exceptions that push an error code.
pub open spec fn pushes_error_code(v: int) -> bool {
    v == 8 || v == 10 || v == 11 || v == 12 || v == 13 || v == 14 || v == 17 || v == 30
}

/// The stub for vector `v`.
pub open spec fn stub_for(v: int) -> Stub {
    if pushes_error_code(v) {
        Stub::ExceptionWithError
    } else if 0x20 <= v < 0x28 {
        Stub::PicMaster
    } else if 0x28 <= v < 0x30 {
        Stub::PicSlave
    } else {
        Stub::Exception
    }
}

/// The stub for vector `v`.
pub fn vector_stub(v: usize) -> (s: Stub)
    ensures
        s == stub_for(v as int),
{
    if v == 8 || v == 10 || v == 11 || v == 12 || v == 13 || v == 14 || v == 17 || v == 30 {
        Stub::ExceptionWithError
    } else if 0x20 <= v && v < 0x28 {
        Stub::PicMaster
    } else if 0x28 <= v && v < 0x30 {
        Stub::PicSlave
    } else {
        Stub::Exception
    }
}

/// The addresses of the four entry stubs.
#[derive(Clone, Copy)]
pub struct StubAddrs {
    pub exception: u64,
    pub exception_err: u64,
    pub pic_master: u64,
    pub pic_slave: u64,
}

pub open spec fn stub_addr(a: StubAddrs, s: Stub) -> u64 {
    match s {
        Stub::Exception => a.exception,
        Stub::ExceptionWithError => a.exception_err,
        Stub::PicMaster => a.pic_master,
        Stub::PicSlave => a.pic_slave,
    }
}

/// The whole table: vector `i` gets a gate to the stub that serves it.
pub fn idt_table(stubs: StubAddrs) -> (t: Vec<IdtEntry>)
    ensures
        t@.len() == IDT_VECTORS,
        forall|i: int| 0 <= i < IDT_VECTORS ==> #[trigger] t@[i] == interrupt_gate(stub_addr(stubs, stub_for(i))),
{
    let mut t: Vec<IdtEntry> = Vec::new();
    let mut i: usize = 0;
    while i < IDT_VECTORS
        invariant
            i <= IDT_VECTORS,
            t@.len() == i,
            forall|j: int| 0 <= j < i ==> #[trigger] t@[j] == interrupt_gate(stub_addr(stubs, stub_for(j))),
        decreases IDT_VECTORS - i,
    {
        let addr = match vector_stub(i) {
            Stub::Exception => stubs.exception,
            Stub::ExceptionWithError => stubs.exception_err,
            Stub::PicMaster => stubs.pic_master,
            Stub::PicSlave => stubs.pic_slave,
        };
        t.push(IdtEntry::new(addr));
        i = i + 1;
    }
    t
}

/// The table's limit for `lidt`: its size in bytes, less one.
pub const IDT_LIMIT: u16 = 4095;

/// The port writes that remap the two controllers to vectors 0x20 to 0x2F
/// (master first, slave on its line 2, 8086 mode) and leave only the
/// timer's line (IRQ 0) unmasked.
pub open spec fn pic_init_writes() -> Seq<(u16, u8)> {
    seq![
        (0x20u16, 0x11u8),
        (0xA0, 0x11),
        (0x21, 0x20),
        (0xA1, 0x28),
        (0x21, 0x04),
        (0xA1, 0x02),
        (0x21, 0x01),
        (0xA1, 0x01),
        (0x21, 0xFE),
        (0xA1, 0xFF),
    ]
}

/// The controllers' initialisation, as port writes in order.
pub fn pic_init_sequence() -> (w: Vec<(u16, u8)>)
    ensures
        w@ == pic_init_writes(),
{
    let mut w: Vec<(u16, u8)> = Vec::new();
    w.push((0x20, 0x11));
    w.push((0xA0, 0x11));
    w.push((0x21, 0x20));
    w.push((0xA1, 0x28));
    w.push((0x21, 0x04));
    w.push((0xA1, 0x02));
    w.push((0x21, 0x01));
    w.push((0xA1, 0x01));
    w.push((0x21, 0xFE));
    w.push((0xA1, 0xFF));
    assert(w@ =~= pic_init_writes());
    w
}

} // verus!
