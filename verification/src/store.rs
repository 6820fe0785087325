//! A flat key/value store on a block device.
//!
//! Disk layout (all integers little-endian, 512-byte sectors):
//! - sector 0, the superblock: magic `"UNIK"` at 0..4, version 1 at 4..8,
//!   number of live entries at 8..12;
//! - sectors 1 to 4, the directory: 64 entries of 32 bytes, each a
//!   NUL-terminated name in 0..20, the first data sector (counted from
//!   sector 5) in 20..24, the size in bytes in 24..28 and flags in 28..32
//!   (0 live, 1 deleted);
//! - sector 5 on, the data, allocated sequentially.

use vstd::prelude::*;
use vstd::utf8::valid_utf8;
use vstd::string::StringSliceAdditionalSpecFns;
use vstd::utf8::encode_utf8;
use vstd::slice::slice_subrange;
use crate::bytes::{le32, le32_bytes, splice, read_le32, write_le32};
use crate::text::{utf8_str, bytes_eq, append_bytes, zeros};

verus! {

pub const SECTOR_SIZE: usize = 512;
pub const MAGIC: u32 = 0x4B494E55;
pub const VERSION: u32 = 1;
pub const DIR_ENTRIES: usize = 64;
pub const ENTRY_SIZE: usize = 32;
pub const DIR_SECTORS: u64 = 4;
pub const DATA_START: u64 = 5;
pub const NAME_MAX: usize = 20;
pub const FLAG_VALID: u32 = 0;
pub const FLAG_DELETED: u32 = 1;

// ─── The block device ───────────────────────────────────────────────

/// Whether `len` bytes starting at sector `lba` lie on a disk whose
/// contents are `image`.
pub open spec fn on_disk(image: Seq<u8>, lba: int, len: int) -> bool {
    0 <= lba && lba * 512 + len <= image.len()
}

/// A disk addressed in 512-byte sectors.
///
/// A device is `reliable()` when `image()` is the disk's contents and it
/// serves every request that lies on the disk; a request that fails
/// leaves the buffer's contents, or the sectors written, unknown. Of a
/// device that is not reliable the contracts promise nothing about what a
/// request reads or writes.
pub trait BlockDevice {
    /// The disk's contents, where the device is reliable. The default
    /// bodies stand for a device of which no model is kept (the
    /// hardware's): it counts as not reliable, and its contracts then hold
    /// of it whatever it does.
    closed spec fn image(&self) -> Seq<u8> {
        Seq::empty()
    }

    /// Whether `image()` is the disk's contents and the device serves every
    /// request that lies on the disk.
    closed spec fn reliable(&self) -> bool {
        false
    }

    /// Reads `buf.len()` bytes (a whole number of sectors) from sector `lba` on.
    fn read_sectors(&mut self, lba: u64, buf: &mut [u8]) -> (ok: bool)
        requires
            old(buf)@.len() % 512 == 0,
        ensures
            final(self).image() == old(self).image(),
            final(self).reliable() == old(self).reliable(),
            final(buf)@.len() == old(buf)@.len(),
            old(self).reliable() && ok ==> on_disk(old(self).image(), lba as int, old(buf)@.len() as int),
            old(self).reliable() && ok ==> final(buf)@ == old(self).image().subrange(
                lba * 512,
                lba * 512 + old(buf)@.len(),
            ),
            old(self).reliable() && on_disk(old(self).image(), lba as int, old(buf)@.len() as int)
                ==> ok,
    ;

    /// Writes `data` (a whole number of sectors) from sector `lba` on.
    fn write_sectors(&mut self, lba: u64, data: &[u8]) -> (ok: bool)
        requires
            data@.len() % 512 == 0,
        ensures
            final(self).reliable() == old(self).reliable(),
            final(self).image().len() == old(self).image().len(),
            old(self).reliable() && ok ==> on_disk(old(self).image(), lba as int, data@.len() as int),
            old(self).reliable() && ok ==> final(self).image() == splice(old(self).image(), lba * 512, data@),
            old(self).reliable() && !ok ==> forall|k: int|
                0 <= k < old(self).image().len() && !(lba * 512 <= k < lba * 512 + data@.len())
                    ==> #[trigger] final(self).image()[k] == old(self).image()[k],
            old(self).reliable() && on_disk(old(self).image(), lba as int, data@.len() as int)
                ==> ok,
    ;
}

/// A disk held in memory; it serves every request that lies on it.
pub struct MemDisk {
    data: Vec<u8>,
}

impl MemDisk {
    /// A zeroed disk of `sectors` sectors.
    pub fn new(sectors: usize) -> (d: MemDisk)
        requires
            sectors * 512 <= usize::MAX,
        ensures
            d.image() == Seq::new((sectors * 512) as nat, |k: int| 0u8),
    {
        let n: usize = sectors * 512;
        let mut data: Vec<u8> = Vec::new();
        let mut i: usize = 0;
        while i < n
            invariant
                i <= n,
                data@ == Seq::new(i as nat, |k: int| 0u8),
            decreases n - i,
        {
            data.push(0u8);
            i = i + 1;
        }
        MemDisk { data }
    }

    /// A disk whose contents are `bytes`.
    pub fn from_bytes(bytes: Vec<u8>) -> (d: MemDisk)
        ensures
            d.image() == bytes@,
    {
        MemDisk { data: bytes }
    }

    /// The disk's contents.
    pub fn contents(&self) -> (r: &Vec<u8>)
        ensures
            r@ == self.image(),
    {
        &self.data
    }
}

impl BlockDevice for MemDisk {
    closed spec fn image(&self) -> Seq<u8> {
        self.data@
    }

    open spec fn reliable(&self) -> bool {
        true
    }

    fn read_sectors(&mut self, lba: u64, buf: &mut [u8]) -> (ok: bool) {
        let len = buf.len();
        let n = self.data.len();
        if lba > (n / 512) as u64 {
            return false;
        }
        let start: usize = (lba as usize) * 512;
        if len > n - start {
            return false;
        }
        let mut i: usize = 0;
        while i < len
            invariant
                i <= len,
                len == buf@.len(),
                start + len <= n,
                n == self.data@.len(),
                start == lba * 512,
                self.data@ == old(self).data@,
                buf@.len() == old(buf)@.len(),
                forall|k: int| 0 <= k < i ==> buf@[k] == self.data@[start + k],
            decreases len - i,
        {
            buf[i] = self.data[start + i];
            i = i + 1;
        }
        assert(buf@ =~= self.data@.subrange(lba * 512, lba * 512 + len));
        true
    }

    fn write_sectors(&mut self, lba: u64, data: &[u8]) -> (ok: bool) {
        let len = data.len();
        let n = self.data.len();
        if lba > (n / 512) as u64 {
            return false;
        }
        let start: usize = (lba as usize) * 512;
        if len > n - start {
            return false;
        }
        let mut i: usize = 0;
        while i < len
            invariant
                i <= len,
                len == data@.len(),
                start + len <= n,
                n == self.data@.len(),
                start == lba * 512,
                self.data@ == splice(old(self).data@, start as int, data@.take(i as int)),
            decreases len - i,
        {
            self.data.set(start + i, data[i]);
            i = i + 1;
            assert(self.data@ =~= splice(old(self).data@, start as int, data@.take(i as int)));
        }
        assert(data@.take(len as int) =~= data@);
        true
    }
}

// ─── The directory as the store reads it ────────────────────────────

/// Whether the store can rely on `image`'s superblock and directory: the
/// device serves every request on the disk, and the disk holds sectors 0 to 4.
pub open spec fn ready(reliable: bool, image: Seq<u8>) -> bool {
    reliable && image.len() >= 5 * 512
}

/// The directory's 2048 bytes.
pub open spec fn dir_of(image: Seq<u8>) -> Seq<u8> {
    image.subrange(512, 2560)
}

pub open spec fn entry_flags(dir: Seq<u8>, i: int) -> int {
    le32(dir, 32 * i + 28)
}

pub open spec fn entry_offset(dir: Seq<u8>, i: int) -> int {
    le32(dir, 32 * i + 20)
}

pub open spec fn entry_size(dir: Seq<u8>, i: int) -> int {
    le32(dir, 32 * i + 24)
}

/// The number of sectors that `size` bytes take.
pub open spec fn sectors_for(size: int) -> int {
    (size + 511) / 512
}

/// The first data sector after entry `i`'s data.
pub open spec fn entry_end(dir: Seq<u8>, i: int) -> int {
    entry_offset(dir, i) + sectors_for(entry_size(dir, i))
}

/// The index of the first zero byte of `f` at or after `k`, or `f.len()`.
pub open spec fn zero_from(f: Seq<u8>, k: int) -> int
    decreases f.len() - k,
{
    if k >= f.len() {
        f.len() as int
    } else if f[k] == 0 {
        k
    } else {
        zero_from(f, k + 1)
    }
}

/// The name that a 20-byte name field holds: the bytes before the first
/// NUL, or nothing where they are not UTF-8.
pub open spec fn stored_name(field: Seq<u8>) -> Seq<u8> {
    let p = field.take(zero_from(field, 0));
    if valid_utf8(p) {
        p
    } else {
        Seq::empty()
    }
}

pub open spec fn entry_name(dir: Seq<u8>, i: int) -> Seq<u8> {
    stored_name(dir.subrange(32 * i, 32 * i + 20))
}

/// Entry `i` is live, its name field is not empty, and it carries `name`.
/// An entry whose name field starts with a NUL is a free slot, whatever
/// its flags say.
pub open spec fn entry_matches(dir: Seq<u8>, i: int, name: Seq<u8>) -> bool {
    entry_flags(dir, i) == FLAG_VALID && dir[32 * i] != 0 && entry_name(dir, i) == name
}

/// The last of the first `n` entries that is live and carries `name`.
pub open spec fn last_match(dir: Seq<u8>, name: Seq<u8>, n: int) -> Option<int>
    decreases n,
{
    if n <= 0 {
        None
    } else if entry_matches(dir, n - 1, name) {
        Some(n - 1)
    } else {
        last_match(dir, name, n - 1)
    }
}

/// The entry that a read of `name` uses: the last live one with that name.
pub open spec fn lookup(dir: Seq<u8>, name: Seq<u8>) -> Option<int> {
    last_match(dir, name, 64)
}

/// The byte position on disk of data sector `offset`.
pub open spec fn data_pos(offset: int) -> int {
    (5 + offset) * 512
}

/// The bytes that entry `i` describes.
pub open spec fn entry_data(image: Seq<u8>, dir: Seq<u8>, i: int) -> Seq<u8> {
    image.subrange(
        data_pos(entry_offset(dir, i)),
        data_pos(entry_offset(dir, i)) + entry_size(dir, i),
    )
}

/// Every sector of entry `i`'s data lies on the disk.
pub open spec fn entry_on_disk(image: Seq<u8>, dir: Seq<u8>, i: int) -> bool {
    data_pos(entry_offset(dir, i)) + sectors_for(entry_size(dir, i)) * 512 <= image.len()
}

/// What the store holds under `name`.
pub open spec fn spec_read(image: Seq<u8>, name: Seq<u8>) -> Option<Seq<u8>> {
    match lookup(dir_of(image), name) {
        Some(i) => Some(entry_data(image, dir_of(image), i)),
        None => None,
    }
}

/// The name that a directory entry holds, as `entry_name` states it.
fn entry_name_str<'a>(e: &'a [u8]) -> (s: &'a str)
    requires
        e@.len() >= 20,
    ensures
        s.spec_bytes() == stored_name(e@.subrange(0, 20)),
{
    let ghost f = e@.subrange(0, 20);
    let mut k: usize = 0;
    while k < 20 && e[k] != 0
        invariant
            k <= 20,
            f == e@.subrange(0, 20),
            e@.len() >= 20,
            zero_from(f, 0) == zero_from(f, k as int),
        decreases 20 - k,
    {
        k = k + 1;
    }
    let p = slice_subrange(e, 0, k);
    assert(p@ == f.take(zero_from(f, 0)));
    match utf8_str(p) {
        Some(s) => s,
        None => {
            let empty = "";
            proof {
                reveal_strlit("");
                assert(empty@ =~= Seq::<char>::empty());
                assert(empty.spec_bytes() =~= Seq::<u8>::empty()) by {
                    reveal_with_fuel(encode_utf8, 2);
                }
            }
            empty
        },
    }
}

/// Whether entry `i` of `dir` is live and carries `name`.
fn entry_matches_exec(dir: &[u8], i: usize, name: &[u8]) -> (r: bool)
    requires
        dir@.len() == 2048,
        i < 64,
    ensures
        r == entry_matches(dir@, i as int, name@),
{
    let flags = read_le32(dir, i * 32 + 28);
    if flags != FLAG_VALID || dir[i * 32] == 0 {
        return false;
    }
    let e = slice_subrange(dir, i * 32, i * 32 + 32);
    assert(e@.subrange(0, 20) =~= dir@.subrange(32 * i, 32 * i + 20));
    bytes_eq(entry_name_str(e).as_bytes(), name)
}


// ─── What a write and a delete do to the directory ──────────────────

/// `dir` with its first `n` live entries named `name` marked deleted.
pub open spec fn marked_upto(dir: Seq<u8>, name: Seq<u8>, n: int) -> Seq<u8> {
    Seq::new(
        dir.len(),
        |k: int|
            if k / 32 < n && k % 32 >= 28 && entry_matches(dir, k / 32, name) {
                le32_bytes(FLAG_DELETED)[k % 32 - 28]
            } else {
                dir[k]
            },
    )
}

/// `dir` with every live entry named `name` marked deleted.
pub open spec fn marked_dir(dir: Seq<u8>, name: Seq<u8>) -> Seq<u8> {
    marked_upto(dir, name, 64)
}

/// Entry `i` may take a new name: it is deleted, or its name field is empty.
pub open spec fn slot_free(dir: Seq<u8>, i: int) -> bool {
    entry_flags(dir, i) == FLAG_DELETED || dir[32 * i] == 0
}

/// The first entry from `i` on that may take a new name.
pub open spec fn free_from(dir: Seq<u8>, i: int) -> Option<int>
    decreases 64 - i,
{
    if i >= 64 {
        None
    } else if slot_free(dir, i) {
        Some(i)
    } else {
        free_from(dir, i + 1)
    }
}

/// The first data sector after the data of every live entry among the first `n`.
pub open spec fn next_free(dir: Seq<u8>, n: int) -> int
    decreases n,
{
    if n <= 0 {
        0
    } else {
        let m = next_free(dir, n - 1);
        if entry_flags(dir, n - 1) == FLAG_VALID && entry_end(dir, n - 1) > m {
            entry_end(dir, n - 1)
        } else {
            m
        }
    }
}

/// The extents of the live entries can be summed in 32 bits.
pub open spec fn extents_fit(dir: Seq<u8>) -> bool {
    forall|i: int|
        0 <= i < 64 && #[trigger] entry_flags(dir, i) == FLAG_VALID ==> entry_size(dir, i) + 512
            <= u32::MAX && entry_end(dir, i) <= u32::MAX
}

/// The number of live entries with a non-empty name field among the first `n`.
pub open spec fn live_count(dir: Seq<u8>, n: int) -> int
    decreases n,
{
    if n <= 0 {
        0
    } else {
        live_count(dir, n - 1) + if entry_flags(dir, n - 1) == FLAG_VALID && dir[32 * (n - 1)]
            != 0 {
            1int
        } else {
            0int
        }
    }
}

/// The name field that a write of `name` stores: at most 19 bytes, then NULs.
pub open spec fn name_field_for(name: Seq<u8>) -> Seq<u8> {
    let n = if name.len() < 19 {
        name.len() as int
    } else {
        19
    };
    Seq::new(20, |k: int| if k < n { name[k] } else { 0u8 })
}

/// The live entry that a write stores.
pub open spec fn new_entry(name: Seq<u8>, offset: u32, size: u32) -> Seq<u8> {
    name_field_for(name) + le32_bytes(offset) + le32_bytes(size) + le32_bytes(FLAG_VALID)
}

/// `data` padded with zeros to whole sectors.
pub open spec fn padded(data: Seq<u8>) -> Seq<u8> {
    Seq::new(
        (sectors_for(data.len() as int) * 512) as nat,
        |k: int| if k < data.len() { data[k] } else { 0u8 },
    )
}

/// The entry that a write of `name` takes.
pub open spec fn write_slot(image: Seq<u8>, name: Seq<u8>) -> Option<int> {
    free_from(marked_dir(dir_of(image), name), 0)
}

/// The data sector at which a write of `name` puts its data.
pub open spec fn write_next(image: Seq<u8>, name: Seq<u8>) -> int {
    next_free(marked_dir(dir_of(image), name), 64)
}

/// Every sector of `len` bytes of data put at data sector `next` lies on the disk.
pub open spec fn data_fits(image: Seq<u8>, next: int, len: int) -> bool {
    sectors_for(len) == 0 || data_pos(next) + sectors_for(len) * 512 <= image.len()
}

/// The directory after a write of `data` under `name` into entry `slot`.
pub open spec fn dir_after_write(dir: Seq<u8>, name: Seq<u8>, slot: int, next: int, len: nat) -> Seq<u8> {
    splice(marked_dir(dir, name), 32 * slot, new_entry(name, next as u32, len as u32))
}

/// `image` with the directory `dir` and a superblock that counts its live entries.
pub open spec fn with_dir(image: Seq<u8>, dir: Seq<u8>) -> Seq<u8> {
    splice(splice(image, 512, dir), 8, le32_bytes(live_count(dir, 64) as u32))
}

/// The disk after a write of `data` under `name` that succeeds.
pub open spec fn written_image(image: Seq<u8>, name: Seq<u8>, data: Seq<u8>) -> Seq<u8> {
    let slot = write_slot(image, name).unwrap();
    let next = write_next(image, name);
    with_dir(
        splice(image, data_pos(next), padded(data)),
        dir_after_write(dir_of(image), name, slot, next, data.len()),
    )
}

/// The disk after a write of `data` under `name`, or `None` where the write
/// fails: the directory has no free entry or the data does not fit on the disk.
pub open spec fn spec_write(image: Seq<u8>, name: Seq<u8>, data: Seq<u8>) -> Option<Seq<u8>> {
    match write_slot(image, name) {
        None => None,
        Some(slot) => if data_fits(image, write_next(image, name), data.len() as int) {
            Some(written_image(image, name, data))
        } else {
            None
        },
    }
}

/// The disk after a delete of `name` that finds it.
pub open spec fn deleted_image(image: Seq<u8>, name: Seq<u8>) -> Seq<u8> {
    with_dir(image, marked_dir(dir_of(image), name))
}

/// The names of the live entries with a non-empty name field among the first `n`.
pub open spec fn listed(dir: Seq<u8>, n: int) -> Seq<Seq<u8>>
    decreases n,
{
    if n <= 0 {
        Seq::empty()
    } else if entry_flags(dir, n - 1) == FLAG_VALID && dir[32 * (n - 1)] != 0 {
        listed(dir, n - 1).push(entry_name(dir, n - 1))
    } else {
        listed(dir, n - 1)
    }
}

/// The superblock that formatting writes.
pub open spec fn formatted_superblock() -> Seq<u8> {
    le32_bytes(MAGIC) + le32_bytes(VERSION) + le32_bytes(0) + Seq::new(500, |k: int| 0u8)
}

/// The disk after formatting.
pub open spec fn formatted_image(image: Seq<u8>) -> Seq<u8> {
    splice(splice(image, 0, formatted_superblock()), 512, Seq::new(2048, |k: int| 0u8))
}

/// Entry `i` of `d1` and `d2` hold the same bytes.
pub open spec fn same_entry(d1: Seq<u8>, d2: Seq<u8>, i: int) -> bool {
    d1.subrange(32 * i, 32 * i + 32) == d2.subrange(32 * i, 32 * i + 32)
}

pub(crate) proof fn lemma_same_entry(d1: Seq<u8>, d2: Seq<u8>, i: int)
    requires
        0 <= i < 64,
        d1.len() == 2048,
        d2.len() == 2048,
        forall|k: int| 32 * i <= k < 32 * i + 32 ==> d1[k] == d2[k],
    ensures
        entry_flags(d1, i) == entry_flags(d2, i),
        entry_offset(d1, i) == entry_offset(d2, i),
        entry_size(d1, i) == entry_size(d2, i),
        entry_name(d1, i) == entry_name(d2, i),
        d1[32 * i] == d2[32 * i],
{
    assert(d1.subrange(32 * i, 32 * i + 20) =~= d2.subrange(32 * i, 32 * i + 20));
}

/// Marks every live entry of `dir` named `name` deleted; tells whether there was one.
fn mark_deleted(dir: &mut Vec<u8>, name: &[u8]) -> (found: bool)
    requires
        old(dir)@.len() == 2048,
    ensures
        final(dir)@ == marked_dir(old(dir)@, name@),
        found == (lookup(old(dir)@, name@) is Some),
{
    let ghost d0 = dir@;
    let mut found = false;
    let mut i: usize = 0;
    while i < DIR_ENTRIES
        invariant
            i <= 64,
            d0.len() == 2048,
            dir@ == marked_upto(d0, name@, i as int),
            found == (last_match(d0, name@, i as int) is Some),
        decreases 64 - i,
    {
        proof {
            lemma_same_entry(dir@, d0, i as int);
        }
        if entry_matches_exec(dir.as_slice(), i, name) {
            write_le32(dir, i * 32 + 28, FLAG_DELETED);
            found = true;
        }
        assert(dir@ =~= marked_upto(d0, name@, i + 1));
        i = i + 1;
    }
    found
}

/// The first entry that may take a new name.
fn find_free_slot(dir: &[u8]) -> (r: Option<usize>)
    requires
        dir@.len() == 2048,
    ensures
        r matches Some(s) ==> s < 64,
        (match r {
            Some(s) => Some(s as int),
            None => None,
        }) == free_from(dir@, 0),
{
    let mut i: usize = 0;
    while i < DIR_ENTRIES
        invariant
            i <= 64,
            dir@.len() == 2048,
            free_from(dir@, 0) == free_from(dir@, i as int),
        decreases 64 - i,
    {
        let flags = read_le32(dir, i * 32 + 28);
        if flags == FLAG_DELETED || dir[i * 32] == 0 {
            return Some(i);
        }
        i = i + 1;
    }
    None
}

/// Whether the extents of `dir`'s live entries can be summed in 32 bits.
fn extents_fit_exec(dir: &[u8]) -> (r: bool)
    requires
        dir@.len() == 2048,
    ensures
        r == extents_fit(dir@),
{
    let mut i: usize = 0;
    while i < DIR_ENTRIES
        invariant
            i <= 64,
            dir@.len() == 2048,
            forall|j: int|
                0 <= j < i && #[trigger] entry_flags(dir@, j) == FLAG_VALID ==> entry_size(dir@, j)
                    + 512 <= u32::MAX && entry_end(dir@, j) <= u32::MAX,
        decreases 64 - i,
    {
        let flags = read_le32(dir, i * 32 + 28);
        let offset = read_le32(dir, i * 32 + 20);
        let size = read_le32(dir, i * 32 + 24);
        if flags == FLAG_VALID {
            if size > u32::MAX - 512 {
                assert(entry_flags(dir@, i as int) == FLAG_VALID);
                return false;
            }
            if offset > u32::MAX - (size + 511) / 512 {
                assert(entry_flags(dir@, i as int) == FLAG_VALID);
                return false;
            }
        }
        i = i + 1;
    }
    assert(extents_fit(dir@));
    true
}

/// The number of live entries with a non-empty name field.
fn count_live(dir: &[u8]) -> (r: u32)
    requires
        dir@.len() == 2048,
    ensures
        r == live_count(dir@, 64),
{
    let mut count: u32 = 0;
    let mut i: usize = 0;
    while i < DIR_ENTRIES
        invariant
            i <= 64,
            dir@.len() == 2048,
            count == live_count(dir@, i as int),
            count <= i,
        decreases 64 - i,
    {
        let flags = read_le32(dir, i * 32 + 28);
        if flags == FLAG_VALID && dir[i * 32] != 0 {
            count = count + 1;
        }
        i = i + 1;
    }
    count
}

/// Stores the live entry for `name` in entry `slot`.
fn set_entry(dir: &mut Vec<u8>, slot: usize, name: &[u8], offset: u32, size: u32)
    requires
        old(dir)@.len() == 2048,
        slot < 64,
    ensures
        final(dir)@ == splice(old(dir)@, 32 * slot, new_entry(name@, offset, size)),
{
    let ghost d0 = dir@;
    let base = slot * ENTRY_SIZE;
    let name_len = if name.len() < NAME_MAX - 1 {
        name.len()
    } else {
        NAME_MAX - 1
    };
    let mut k: usize = 0;
    while k < NAME_MAX
        invariant
            k <= 20,
            base == 32 * slot,
            slot < 64,
            name_len <= 19,
            name_len == (if name@.len() < 19 { name@.len() as int } else { 19 }),
            dir@ == splice(d0, base as int, name_field_for(name@).take(k as int)),
            d0.len() == 2048,
        decreases 20 - k,
    {
        let b = if k < name_len {
            name[k]
        } else {
            0u8
        };
        dir.set(base + k, b);
        k = k + 1;
        assert(dir@ =~= splice(d0, base as int, name_field_for(name@).take(k as int)));
    }
    write_le32(dir, base + 20, offset);
    write_le32(dir, base + 24, size);
    write_le32(dir, base + 28, FLAG_VALID);
    assert(dir@ =~= splice(d0, 32 * slot, new_entry(name@, offset, size)));
}

/// A store on the block device `D`.
pub struct KvStore<D> {
    blk: D,
}

impl<D: BlockDevice> KvStore<D> {
    /// The device that holds the store.
    pub closed spec fn dev(&self) -> D {
        self.blk
    }

    /// The device that holds the store.
    pub fn device(&self) -> (r: &D)
        ensures
            *r == self.dev(),
    {
        &self.blk
    }

    /// Reads sector `lba` into a fresh 512-byte buffer.
    fn read_sector(&mut self, lba: u64) -> (buf: Vec<u8>)
        ensures
            buf@.len() == 512,
            final(self).dev().image() == old(self).dev().image(),
            final(self).dev().reliable() == old(self).dev().reliable(),
            old(self).dev().reliable() && on_disk(old(self).dev().image(), lba as int, 512)
                ==> buf@ == old(self).dev().image().subrange(lba * 512, lba * 512 + 512),
    {
        let mut buf = zeros(SECTOR_SIZE);
        let _ok = self.blk.read_sectors(lba, buf.as_mut_slice());
        buf
    }

    /// Writes the 512 bytes `buf` to sector `lba`.
    fn write_sector(&mut self, lba: u64, buf: &[u8]) -> (ok: bool)
        requires
            buf@.len() == 512,
        ensures
            final(self).dev().reliable() == old(self).dev().reliable(),
            final(self).dev().image().len() == old(self).dev().image().len(),
            old(self).dev().reliable() && ok ==> final(self).dev().image() == splice(
                old(self).dev().image(),
                lba * 512,
                buf@,
            ),
            old(self).dev().reliable() && ok ==> on_disk(old(self).dev().image(), lba as int, 512),
            old(self).dev().reliable() && !ok ==> forall|k: int|
                0 <= k < old(self).dev().image().len() && !(lba * 512 <= k < lba * 512 + 512)
                    ==> #[trigger] final(self).dev().image()[k] == old(self).dev().image()[k],
            old(self).dev().reliable() && on_disk(old(self).dev().image(), lba as int, 512) ==> ok,
    {
        self.blk.write_sectors(lba, buf)
    }

    /// Writes the directory back to sectors 1 to 4.
    fn write_dir(&mut self, dir: &[u8])
        requires
            dir@.len() == 2048,
        ensures
            final(self).dev().reliable() == old(self).dev().reliable(),
            final(self).dev().image().len() == old(self).dev().image().len(),
            ready(old(self).dev().reliable(), old(self).dev().image()) ==> final(self).dev().image()
                == splice(old(self).dev().image(), 512, dir@),
    {
        let ghost img = self.dev().image();
        let mut i: u64 = 0;
        while i < DIR_SECTORS
            invariant
                i <= 4,
                dir@.len() == 2048,
                img == old(self).dev().image(),
                self.dev().reliable() == old(self).dev().reliable(),
                self.dev().image().len() == img.len(),
                ready(self.dev().reliable(), img) ==> self.dev().image() == splice(
                    img,
                    512,
                    dir@.take(i * 512),
                ),
            decreases 4 - i,
        {
            let off: usize = (i as usize) * SECTOR_SIZE;
            let chunk = slice_subrange(dir, off, off + SECTOR_SIZE);
            let ghost before = self.dev().image();
            self.write_sector(1 + i, chunk);
            proof {
                if ready(self.dev().reliable(), img) {
                    assert(self.dev().image() =~= splice(img, 512, dir@.take((i + 1) * 512)));
                }
            }
            i = i + 1;
        }
        assert(dir@.take(2048) =~= dir@);
    }

    /// Stores in the superblock the number of live entries of `dir`.
    fn update_superblock(&mut self, dir: &[u8])
        requires
            dir@.len() == 2048,
        ensures
            final(self).dev().reliable() == old(self).dev().reliable(),
            final(self).dev().image().len() == old(self).dev().image().len(),
            ready(old(self).dev().reliable(), old(self).dev().image()) ==> final(self).dev().image()
                == splice(old(self).dev().image(), 8, le32_bytes(live_count(dir@, 64) as u32)),
    {
        let ghost img = self.dev().image();
        let count = count_live(dir);
        let mut sb = self.read_sector(0);
        write_le32(&mut sb, 8, count);
        self.write_sector(0, sb.as_slice());
        proof {
            if ready(self.dev().reliable(), img) {
                assert(self.dev().image() =~= splice(img, 8, le32_bytes(count)));
            }
        }
    }

    /// The first data sector after the data of every live entry of `dir`.
    fn find_next_free_sector(&self, dir: &[u8]) -> (r: u32)
        requires
            dir@.len() == 2048,
            extents_fit(dir@),
        ensures
            r == next_free(dir@, 64),
    {
        let mut max: u32 = 0;
        let mut i: usize = 0;
        while i < DIR_ENTRIES
            invariant
                i <= 64,
                dir@.len() == 2048,
                extents_fit(dir@),
                max == next_free(dir@, i as int),
            decreases 64 - i,
        {
            let flags = read_le32(dir, i * 32 + 28);
            if flags == FLAG_VALID {
                assert(entry_flags(dir@, i as int) == FLAG_VALID);
                let offset = read_le32(dir, i * 32 + 20);
                let size = read_le32(dir, i * 32 + 24);
                let end = offset + ((size + SECTOR_SIZE as u32 - 1) / SECTOR_SIZE as u32);
                if end > max {
                    max = end;
                }
            }
            i = i + 1;
        }
        max
    }

    /// Reads the directory (sectors 1 to 4).
    fn read_dir(&mut self) -> (dir: Vec<u8>)
        ensures
            dir@.len() == 2048,
            final(self).dev().image() == old(self).dev().image(),
            final(self).dev().reliable() == old(self).dev().reliable(),
            ready(old(self).dev().reliable(), old(self).dev().image())
                ==> dir@ == dir_of(old(self).dev().image()),
    {
        let ghost img = self.dev().image();
        let mut dir: Vec<u8> = Vec::new();
        let mut i: u64 = 0;
        while i < DIR_SECTORS
            invariant
                i <= 4,
                dir@.len() == i * 512,
                self.dev().image() == img,
                self.dev().reliable() == old(self).dev().reliable(),
                img == old(self).dev().image(),
                ready(self.dev().reliable(), img) ==> dir@ == img.subrange(512, 512 + i * 512),
            decreases 4 - i,
        {
            let sec = self.read_sector(1 + i);
            append_bytes(&mut dir, sec.as_slice());
            proof {
                if ready(self.dev().reliable(), img) {
                    assert(dir@ =~= img.subrange(512, 512 + (i + 1) * 512));
                }
            }
            i = i + 1;
        }
        dir
    }

    /// Opens the store on `blk`, formatting the disk where its superblock
    /// does not carry the magic number.
    pub fn open(blk: D) -> (store: Self)
        ensures
            store.dev().reliable() == blk.reliable(),
            store.dev().image().len() == blk.image().len(),
            ready(blk.reliable(), blk.image()) ==> store.dev().image() == if le32(blk.image(), 0)
                == MAGIC {
                blk.image()
            } else {
                formatted_image(blk.image())
            },
            ready(blk.reliable(), blk.image()) && le32(blk.image(), 0) == MAGIC ==> {
                &&& forall|k: Seq<u8>| #[trigger]
                    spec_read(store.dev().image(), k) == spec_read(blk.image(), k)
                &&& listed(dir_of(store.dev().image()), 64) == listed(dir_of(blk.image()), 64)
            },
    {
        let ghost img = blk.image();
        let mut store = KvStore { blk };
        let sb = store.read_sector(0);
        let magic = read_le32(sb.as_slice(), 0);
        if magic != MAGIC {
            let mut sb2 = zeros(SECTOR_SIZE);
            write_le32(&mut sb2, 0, MAGIC);
            write_le32(&mut sb2, 4, VERSION);
            write_le32(&mut sb2, 8, 0);
            assert(sb2@ =~= formatted_superblock());
            store.write_sector(0, sb2.as_slice());
            let zero_sector = zeros(SECTOR_SIZE);
            let ghost img1 = store.dev().image();
            let mut i: u64 = 0;
            while i < DIR_SECTORS
                invariant
                    i <= 4,
                    zero_sector@ == Seq::new(512, |k: int| 0u8),
                    store.dev().reliable() == blk.reliable(),
                    store.dev().image().len() == img.len(),
                    ready(blk.reliable(), img) ==> img1 == splice(img, 0, formatted_superblock()),
                    ready(blk.reliable(), img) ==> store.dev().image() == splice(
                        img1,
                        512,
                        Seq::new((i * 512) as nat, |k: int| 0u8),
                    ),
                decreases 4 - i,
            {
                store.write_sector(1 + i, zero_sector.as_slice());
                proof {
                    if ready(blk.reliable(), img) {
                        assert(store.dev().image() =~= splice(
                            img1,
                            512,
                            Seq::new(((i + 1) * 512) as nat, |k: int| 0u8),
                        ));
                    }
                }
                i = i + 1;
            }
        }
        store
    }

    /// Whether `write` may be called for `name`: the directory, with the
    /// entries of that name marked deleted, keeps the extents of its live
    /// entries within 32 bits.
    pub fn write_defined(&mut self, name: &str) -> (r: bool)
        ensures
            final(self).dev().image() == old(self).dev().image(),
            final(self).dev().reliable() == old(self).dev().reliable(),
            ready(old(self).dev().reliable(), old(self).dev().image()) ==> r == extents_fit(
                marked_dir(dir_of(old(self).dev().image()), name.spec_bytes()),
            ),
    {
        let mut dir = self.read_dir();
        let _found = mark_deleted(&mut dir, name.as_bytes());
        extents_fit_exec(dir.as_slice())
    }

    /// Stores `data` under `name`; an older entry of that name is deleted.
    /// Fails where the directory has no free entry or the disk has no room.
    pub fn write(&mut self, name: &str, data: &[u8]) -> (ok: bool)
        requires
            ready(old(self).dev().reliable(), old(self).dev().image()) ==> extents_fit(
                marked_dir(dir_of(old(self).dev().image()), name.spec_bytes()),
            ),
            data@.len() + 512 <= usize::MAX,
        ensures
            final(self).dev().reliable() == old(self).dev().reliable(),
            final(self).dev().image().len() == old(self).dev().image().len(),
            ready(old(self).dev().reliable(), old(self).dev().image()) ==> ({
                let img = old(self).dev().image();
                let nb = name.spec_bytes();
                match spec_write(img, nb, data@) {
                    Some(after) => ok && final(self).dev().image() == after,
                    None => {
                        &&& !ok
                        &&& write_slot(img, nb) is None ==> final(self).dev().image() == img
                        &&& forall|k: int|
                            0 <= k < img.len() && k < data_pos(write_next(img, nb))
                                ==> #[trigger] final(self).dev().image()[k] == img[k]
                    },
                }
            }),
    {
        let ghost img = self.dev().image();
        let ghost rel = self.dev().reliable();
        let name_bytes = name.as_bytes();
        let mut dir = self.read_dir();
        let _found = mark_deleted(&mut dir, name_bytes);
        let slot = match find_free_slot(dir.as_slice()) {
            Some(s) => s,
            None => return false,
        };
        if !extents_fit_exec(dir.as_slice()) {
            return false;
        }
        let next_sector = self.find_next_free_sector(dir.as_slice());
        let ghost nb = name_bytes@;
        let ghost next = next_sector as int;
        let sectors: usize = ((data.len() as u64 + 511) / 512) as usize;
        let mut buf: Vec<u8> = Vec::new();
        append_bytes(&mut buf, data);
        while buf.len() < sectors * SECTOR_SIZE
            invariant
                sectors == sectors_for(data@.len() as int),
                data@.len() <= buf@.len() <= sectors * 512,
                sectors * 512 <= usize::MAX,
                forall|k: int| 0 <= k < buf@.len() ==> #[trigger] buf@[k] == padded(data@)[k],
            decreases sectors * 512 - buf@.len(),
        {
            buf.push(0u8);
        }
        assert(buf@ =~= padded(data@));
        let mut i: usize = 0;
        while i < sectors
            invariant
                i <= sectors,
                sectors == sectors_for(data@.len() as int),
                buf@ == padded(data@),
                buf@.len() == sectors * 512,
                sectors * 512 <= usize::MAX,
                img == old(self).dev().image(),
                rel == old(self).dev().reliable(),
                self.dev().reliable() == rel,
                self.dev().image().len() == img.len(),
                ready(rel, img) ==> self.dev().image() == splice(
                    img,
                    data_pos(next),
                    buf@.take(i * 512),
                ),
                ready(rel, img) && i > 0 ==> data_pos(next) + i * 512 <= img.len(),
                ready(rel, img) ==> forall|k: int|
                    0 <= k < img.len() && k < data_pos(next) ==> #[trigger] self.dev().image()[k]
                        == img[k],
                next == next_sector,
                next_sector == next_free(dir@, 64),
                dir@.len() == 2048,
                nb == name.spec_bytes(),
                ready(rel, img) ==> dir@ == marked_dir(dir_of(img), nb),
                free_from(dir@, 0) == Some(slot as int),
            decreases sectors - i,
        {
            assert(i * 512 + 512 <= sectors * 512);
            assert(i <= 0x80_0000_0000_0000);
            let lba: u64 = DATA_START + next_sector as u64 + i as u64;
            let chunk = slice_subrange(buf.as_slice(), i * SECTOR_SIZE, i * SECTOR_SIZE + SECTOR_SIZE);
            let ghost before = self.dev().image();
            if !self.write_sector(lba, chunk) {
                return false;
            }
            proof {
                if ready(rel, img) {
                    assert(self.dev().image() =~= splice(img, data_pos(next), buf@.take((i + 1) * 512)));
                }
            }
            i = i + 1;
        }
        assert(buf@.take(sectors * 512) =~= buf@);
        set_entry(&mut dir, slot, name_bytes, next_sector, data.len() as u32);
        self.write_dir(dir.as_slice());
        self.update_superblock(dir.as_slice());
        true
    }

    /// Marks every live entry named `name` deleted; tells whether there was one.
    pub fn delete(&mut self, name: &str) -> (found: bool)
        ensures
            final(self).dev().reliable() == old(self).dev().reliable(),
            final(self).dev().image().len() == old(self).dev().image().len(),
            ready(old(self).dev().reliable(), old(self).dev().image()) ==> {
                let img = old(self).dev().image();
                let nb = name.spec_bytes();
                &&& found == (lookup(dir_of(img), nb) is Some)
                &&& found == (spec_read(img, nb) is Some)
                &&& final(self).dev().image() == if found {
                    deleted_image(img, nb)
                } else {
                    img
                }
            },
    {
        let mut dir = self.read_dir();
        let found = mark_deleted(&mut dir, name.as_bytes());
        if found {
            self.write_dir(dir.as_slice());
            self.update_superblock(dir.as_slice());
        }
        found
    }

    /// The names of the live entries whose name field is not empty, in
    /// directory order.
    pub fn list(&mut self) -> (names: Vec<String>)
        ensures
            final(self).dev().image() == old(self).dev().image(),
            final(self).dev().reliable() == old(self).dev().reliable(),
            ready(old(self).dev().reliable(), old(self).dev().image()) ==> {
                let l = listed(dir_of(old(self).dev().image()), 64);
                &&& names@.len() == l.len()
                &&& forall|k: int| 0 <= k < l.len() ==> encode_utf8(#[trigger] names@[k]@) == l[k]
            },
    {
        let ghost img = self.dev().image();
        let dir = self.read_dir();
        let mut names: Vec<String> = Vec::new();
        let mut i: usize = 0;
        while i < DIR_ENTRIES
            invariant
                i <= 64,
                dir@.len() == 2048,
                names@.len() == listed(dir@, i as int).len(),
                forall|k: int|
                    0 <= k < names@.len() ==> encode_utf8(#[trigger] names@[k]@) == listed(
                        dir@,
                        i as int,
                    )[k],
            decreases 64 - i,
        {
            let flags = read_le32(dir.as_slice(), i * 32 + 28);
            if flags == FLAG_VALID && dir[i * 32] != 0 {
                let e = slice_subrange(dir.as_slice(), i * 32, i * 32 + 32);
                assert(e@.subrange(0, 20) =~= dir@.subrange(32 * i, 32 * i + 20));
                let s = entry_name_str(e);
                names.push(s.to_owned());
            }
            i = i + 1;
        }
        names
    }

    /// The data stored under `name`, or `None` where no live entry has it.
    pub fn read(&mut self, name: &str) -> (r: Option<Vec<u8>>)
        ensures
            final(self).dev().image() == old(self).dev().image(),
            final(self).dev().reliable() == old(self).dev().reliable(),
            ready(old(self).dev().reliable(), old(self).dev().image()) ==> ({
                let img = old(self).dev().image();
                let dir = dir_of(img);
                match lookup(dir, name.spec_bytes()) {
                    None => r is None,
                    Some(i) => {
                        &&& r is Some
                        &&& r.unwrap()@.len() == entry_size(dir, i)
                        &&& entry_on_disk(img, dir, i) ==> r.unwrap()@ == entry_data(img, dir, i)
                    },
                }
            }),
    {
        let ghost img = self.dev().image();
        let name_bytes = name.as_bytes();
        let dir = self.read_dir();
        let mut best: Option<(u32, u32)> = None;
        let mut i: usize = 0;
        while i < DIR_ENTRIES
            invariant
                i <= 64,
                dir@.len() == 2048,
                best == match last_match(dir@, name_bytes@, i as int) {
                    Some(j) => Some((entry_offset(dir@, j) as u32, entry_size(dir@, j) as u32)),
                    None => None::<(u32, u32)>,
                },
            decreases 64 - i,
        {
            if entry_matches_exec(dir.as_slice(), i, name_bytes) {
                let offset = read_le32(dir.as_slice(), i * 32 + 20);
                let size = read_le32(dir.as_slice(), i * 32 + 24);
                best = Some((offset, size));
            }
            i = i + 1;
        }
        let (offset, size) = match best {
            Some(b) => b,
            None => return None,
        };
        let ghost j = lookup(dir@, name_bytes@).unwrap();
        let sectors: usize = ((size as u64 + 511) / 512) as usize;
        let mut buf: Vec<u8> = Vec::new();
        let mut k: usize = 0;
        while k < sectors
            invariant
                k <= sectors,
                sectors == (size + 511) / 512,
                buf@.len() == k * 512,
                self.dev().image() == img,
                self.dev().reliable() == old(self).dev().reliable(),
                img == old(self).dev().image(),
                (ready(self.dev().reliable(), img) && data_pos(offset as int) + sectors * 512
                    <= img.len()) ==> buf@ == img.subrange(
                    data_pos(offset as int),
                    data_pos(offset as int) + k * 512,
                ),
            decreases sectors - k,
        {
            let lba: u64 = DATA_START + offset as u64 + k as u64;
            let sec = self.read_sector(lba);
            append_bytes(&mut buf, sec.as_slice());
            proof {
                if ready(self.dev().reliable(), img) && data_pos(offset as int) + sectors * 512
                    <= img.len() {
                    assert(buf@ =~= img.subrange(
                        data_pos(offset as int),
                        data_pos(offset as int) + (k + 1) * 512,
                    ));
                }
            }
            k = k + 1;
        }
        buf.truncate(size as usize);
        proof {
            if ready(self.dev().reliable(), img) && data_pos(offset as int) + sectors * 512
                <= img.len() {
                assert(buf@ =~= img.subrange(
                    data_pos(offset as int),
                    data_pos(offset as int) + size,
                ));
            }
        }
        Some(buf)
    }
}

} // verus!
