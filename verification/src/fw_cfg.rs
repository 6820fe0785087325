//! QEMU's firmware configuration interface, through which the host hands
//! the guest named files (secrets among them) at run time.
//!
//! A selector names an item; the item's bytes then come one per read,
//! and reads past its end give 0. Item 0 is the signature `QEMU`; item
//! 0x19 is the file directory: a big-endian 32-bit count, then per file
//! 64 bytes: its size (big-endian, 32 bits), its selector (big-endian, 16
//! bits), two reserved bytes, and its name in 56 bytes, NUL-padded.

use vstd::prelude::*;
use vstd::string::StringSliceAdditionalSpecFns;
use crate::text::bytes_eq;

verus! {

pub const FW_CFG_SIGNATURE: u16 = 0x0000;
pub const FW_CFG_FILE_DIR: u16 = 0x0019;
pub const DIR_ENTRY_SIZE: usize = 64;
pub const NAME_SIZE: usize = 56;

/// The byte at `i` of an item, 0 past its end.
pub open spec fn byte_at(item: Seq<u8>, i: int) -> u8 {
    if 0 <= i < item.len() {
        item[i]
    } else {
        0
    }
}

/// `len` bytes of an item read from `off` on.
pub open spec fn item_bytes(item: Seq<u8>, off: int, len: nat) -> Seq<u8> {
    Seq::new(len, |j: int| byte_at(item, off + j))
}

/// The firmware configuration device.
///
/// Its state is the selected item, `selected()`, and how far it has been
/// read, `pos()`; `item(sel)` is the content of item `sel`.
///
/// A device is `modeled()` when these describe it; of a device that is
/// not, the contracts promise nothing about what it selects or reads.
pub trait FwCfgPort {
    /// Whether `item`, `selected` and `pos` describe the device. The
    /// default bodies stand for a device of which no model is kept (the
    /// hardware's): it counts as not modeled, and its contracts then hold
    /// of it whatever it does.
    closed spec fn modeled(&self) -> bool {
        false
    }

    closed spec fn item(&self, sel: u16) -> Seq<u8> {
        Seq::empty()
    }

    closed spec fn selected(&self) -> u16 {
        0
    }

    closed spec fn pos(&self) -> nat {
        0
    }

    /// Selects item `sel`, to be read from its start.
    fn select(&mut self, sel: u16)
        ensures
            final(self).modeled() == old(self).modeled(),
            old(self).modeled() ==> final(self).selected() == sel,
            final(self).pos() == 0,
            forall|s: u16| #[trigger] final(self).item(s) == old(self).item(s),
    ;

    /// Reads the next byte of the selected item.
    fn read_byte(&mut self) -> (b: u8)
        ensures
            final(self).modeled() == old(self).modeled(),
            old(self).modeled() ==> b == byte_at(old(self).item(old(self).selected()), old(self).pos() as int),
            final(self).selected() == old(self).selected(),
            old(self).modeled() ==> final(self).pos() == old(self).pos() + 1,
            forall|s: u16| #[trigger] final(self).item(s) == old(self).item(s),
    ;
}

/// A configuration device whose items are held in memory.
pub struct MemFwCfg {
    items: Vec<(u16, Vec<u8>)>,
    sel: u16,
    pos: usize,
    past_end: Ghost<nat>,
}

/// The content of item `sel` in `items`: that of the first entry for it,
/// empty where there is none.
pub open spec fn mem_item(items: Seq<(u16, Vec<u8>)>, sel: u16, k: int) -> Seq<u8>
    decreases items.len() - k,
{
    if k < 0 || k >= items.len() {
        Seq::empty()
    } else if items[k].0 == sel {
        items[k].1@
    } else {
        mem_item(items, sel, k + 1)
    }
}

impl MemFwCfg {
    #[verifier::type_invariant]
    spec fn inv(self) -> bool {
        self.past_end@ > 0 ==> self.pos == usize::MAX
    }

    /// A device with these items, item 0 selected.
    pub fn new(items: Vec<(u16, Vec<u8>)>) -> (d: Self)
        ensures
            d.modeled(),
            forall|s: u16| #[trigger] d.item(s) == mem_item(items@, s, 0),
            d.selected() == 0,
            d.pos() == 0,
    {
        MemFwCfg { items, sel: 0, pos: 0, past_end: Ghost(0) }
    }

    fn find_item(&self, sel: u16) -> (r: Option<usize>)
        ensures
            match r {
                Some(i) => i < self.items@.len() && mem_item(self.items@, sel, 0)
                    == self.items@[i as int].1@,
                None => mem_item(self.items@, sel, 0) == Seq::<u8>::empty(),
            },
    {
        let mut i: usize = 0;
        while i < self.items.len()
            invariant
                i <= self.items@.len(),
                mem_item(self.items@, sel, 0) == mem_item(self.items@, sel, i as int),
            decreases self.items@.len() - i,
        {
            if self.items[i].0 == sel {
                return Some(i);
            }
            i = i + 1;
        }
        None
    }
}

impl FwCfgPort for MemFwCfg {
    closed spec fn modeled(&self) -> bool {
        true
    }

    closed spec fn item(&self, sel: u16) -> Seq<u8> {
        mem_item(self.items@, sel, 0)
    }

    closed spec fn selected(&self) -> u16 {
        self.sel
    }

    closed spec fn pos(&self) -> nat {
        self.pos as nat + self.past_end@
    }

    fn select(&mut self, sel: u16) {
        self.past_end = Ghost(0);
        self.pos = 0;
        self.sel = sel;
    }

    fn read_byte(&mut self) -> (b: u8) {
        proof {
            use_type_invariant(&*self);
        }
        let b = match self.find_item(self.sel) {
            Some(i) => {
                if self.pos < self.items[i].1.len() {
                    self.items[i].1[self.pos]
                } else {
                    0
                }
            },
            None => 0,
        };
        if self.pos < usize::MAX {
            self.pos = self.pos + 1;
        } else {
            self.past_end = Ghost(self.past_end@ + 1);
        }
        b
    }
}

fn read_bytes<P: FwCfgPort>(port: &mut P, n: usize) -> (r: Vec<u8>)
    ensures
        final(port).modeled() == old(port).modeled(),
        old(port).modeled() ==> r@ == item_bytes(old(port).item(old(port).selected()), old(port).pos() as int, n as nat),
        r@.len() == n,
        final(port).selected() == old(port).selected(),
        old(port).modeled() ==> final(port).pos() == old(port).pos() + n,
        forall|s: u16| #[trigger] final(port).item(s) == old(port).item(s),
{
    let mut r: Vec<u8> = Vec::new();
    let mut i: usize = 0;
    while i < n
        invariant
            i <= n,
            port.modeled() == old(port).modeled(),
            port.selected() == old(port).selected(),
            old(port).modeled() ==> port.pos() == old(port).pos() + i,
            forall|s: u16| #[trigger] port.item(s) == old(port).item(s),
            r@.len() == i,
            old(port).modeled() ==> r@ == item_bytes(old(port).item(old(port).selected()), old(port).pos() as int, i as nat),
        decreases n - i,
    {
        let b = port.read_byte();
        r.push(b);
        i = i + 1;
        assert(old(port).modeled() ==> r@ =~= item_bytes(
            old(port).item(old(port).selected()),
            old(port).pos() as int,
            i as nat,
        ));
    }
    r
}

/// Whether the signature item reads `QEMU`.
pub open spec fn present<P: FwCfgPort>(port: P) -> bool {
    item_bytes(port.item(FW_CFG_SIGNATURE), 0, 4) == "QEMU".spec_bytes()
}

/// Checks the signature.
pub fn is_present<P: FwCfgPort>(port: &mut P) -> (r: bool)
    ensures
        final(port).modeled() == old(port).modeled(),
        old(port).modeled() ==> r == present(*old(port)),
        forall|s: u16| #[trigger] final(port).item(s) == old(port).item(s),
{
    port.select(FW_CFG_SIGNATURE);
    let sig = read_bytes(port, 4);
    bytes_eq(sig.as_slice(), "QEMU".as_bytes())
}

/// The big-endian 32-bit value of `s[i..i + 4]`.
pub open spec fn be32(s: Seq<u8>, i: int) -> int {
    16777216 * s[i] + 65536 * s[i + 1] + 256 * s[i + 2] + s[i + 3]
}

/// The big-endian 16-bit value of `s[i..i + 2]`.
pub open spec fn be16(s: Seq<u8>, i: int) -> int {
    256 * s[i] + s[i + 1]
}

/// The index of the first NUL in `s` at or after `k`, or the length of
/// `s` where there is none.
pub open spec fn nul_from(s: Seq<u8>, k: int) -> int
    decreases s.len() - k,
{
    if k >= s.len() {
        s.len() as int
    } else if s[k] == 0 {
        k
    } else {
        nul_from(s, k + 1)
    }
}

/// The name that a 56-byte name field holds, read as a NUL-terminated
/// string: the bytes before the first NUL (the whole field where it has
/// none).
pub open spec fn field_name(field: Seq<u8>) -> Seq<u8> {
    field.take(nul_from(field, 0))
}

/// Directory entry `k` of a directory item.
pub open spec fn dir_entry(dir: Seq<u8>, k: int) -> Seq<u8> {
    item_bytes(dir, 4 + 64 * k, 64)
}

/// The first directory entry, among entries `k` to `count`, that names
/// `name`.
pub open spec fn first_named(dir: Seq<u8>, name: Seq<u8>, k: int, count: int) -> Option<int>
    decreases count - k,
{
    if k >= count {
        None
    } else if field_name(dir_entry(dir, k).subrange(8, 64)) == name {
        Some(k)
    } else {
        first_named(dir, name, k + 1, count)
    }
}

/// The selector and size of the file `name`, where the directory lists it.
pub open spec fn file_lookup(dir: Seq<u8>, name: Seq<u8>) -> Option<(u16, u32)> {
    let count = be32(item_bytes(dir, 0, 4), 0);
    match first_named(dir, name, 0, count) {
        Some(k) => {
            let e = dir_entry(dir, k);
            Some((be16(e, 4) as u16, be32(e, 0) as u32))
        },
        None => None,
    }
}

fn nul_index(s: &[u8]) -> (n: usize)
    ensures
        n <= s@.len(),
        n == nul_from(s@, 0),
{
    let mut n: usize = 0;
    while n < s.len() && s[n] != 0
        invariant
            n <= s@.len(),
            nul_from(s@, 0) == nul_from(s@, n as int),
        decreases s@.len() - n,
    {
        n = n + 1;
    }
    n
}

/// Whether a name field holds `name`, compared as a NUL-terminated string.
pub fn name_matches(field: &[u8], name: &str) -> (r: bool)
    ensures
        r == (field_name(field@) == name.spec_bytes()),
{
    let n = nul_index(field);
    let head = vstd::slice::slice_subrange(field, 0, n);
    assert(head@ =~= field@.take(n as int));
    bytes_eq(head, name.as_bytes())
}

/// Looks `name` up in the file directory: its selector and size.
pub fn find_file<P: FwCfgPort>(port: &mut P, name: &str) -> (r: Option<(u16, u32)>)
    ensures
        final(port).modeled() == old(port).modeled(),
        old(port).modeled() ==> r == file_lookup(old(port).item(FW_CFG_FILE_DIR), name.spec_bytes()),
        forall|s: u16| #[trigger] final(port).item(s) == old(port).item(s),
{
    let ghost dir = port.item(FW_CFG_FILE_DIR);
    port.select(FW_CFG_FILE_DIR);
    let c = read_bytes(port, 4);
    assert(old(port).modeled() ==> c@ =~= item_bytes(dir, 0, 4));
    let count: u32 = ((c[0] as u32) * 16777216 + (c[1] as u32) * 65536 + (c[2] as u32) * 256
        + (c[3] as u32)) as u32;
    assert(old(port).modeled() ==> count == be32(item_bytes(dir, 0, 4), 0));
    let mut k: u32 = 0;
    while k < count
        invariant
            k <= count,
            port.modeled() == old(port).modeled(),
            old(port).modeled() ==> count == be32(item_bytes(dir, 0, 4), 0),
            old(port).modeled() ==> port.selected() == FW_CFG_FILE_DIR,
            old(port).modeled() ==> port.pos() == 4 + 64 * k,
            forall|s: u16| #[trigger] port.item(s) == old(port).item(s),
            dir == old(port).item(FW_CFG_FILE_DIR),
            old(port).modeled() ==> first_named(dir, name.spec_bytes(), 0, count as int) == first_named(
                dir,
                name.spec_bytes(),
                k as int,
                count as int,
            ),
        decreases count - k,
    {
        let e = read_bytes(port, 64);
        assert(old(port).modeled() ==> e@ =~= dir_entry(dir, k as int));
        let field = vstd::slice::slice_subrange(e.as_slice(), 8, 64);
        assert(old(port).modeled() ==> field@ =~= dir_entry(dir, k as int).subrange(8, 64));
        if name_matches(field, name) {
            let size: u32 = ((e[0] as u32) * 16777216 + (e[1] as u32) * 65536 + (e[2] as u32)
                * 256 + (e[3] as u32)) as u32;
            let sel: u16 = ((e[4] as u16) * 256 + (e[5] as u16)) as u16;
            return Some((sel, size));
        }
        k = k + 1;
    }
    None
}

/// Reads item `selector` into `buf`, as many bytes as `buf` holds.
pub fn read<P: FwCfgPort>(port: &mut P, selector: u16, buf: &mut [u8])
    ensures
        final(port).modeled() == old(port).modeled(),
        final(buf)@.len() == old(buf)@.len(),
        old(port).modeled() ==> final(buf)@ == item_bytes(old(port).item(selector), 0, old(buf)@.len()),
        forall|s: u16| #[trigger] final(port).item(s) == old(port).item(s),
{
    port.select(selector);
    let n = buf.len();
    let mut i: usize = 0;
    while i < n
        invariant
            i <= n,
            n == buf@.len(),
            n == old(buf)@.len(),
            port.modeled() == old(port).modeled(),
            old(port).modeled() ==> port.selected() == selector,
            old(port).modeled() ==> port.pos() == i,
            forall|s: u16| #[trigger] port.item(s) == old(port).item(s),
            old(port).modeled() ==> forall|j: int| 0 <= j < i ==> buf@[j] == byte_at(old(port).item(selector), j),
        decreases n - i,
    {
        buf[i] = port.read_byte();
        i = i + 1;
    }
    assert(old(port).modeled() ==> buf@ =~= item_bytes(old(port).item(selector), 0, n as nat));
}

} // verus!
