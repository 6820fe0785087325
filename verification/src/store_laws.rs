//! What the store's operations promise together: a read gives back what
//! the last write of that name stored, writes and deletes leave the other
//! names alone, a listing shows each written name once and no deleted
//! one, a write is refused for want of an entry only where the directory
//! is full, a failed write leaves the directory, the superblock keeps
//! counting the live entries, and a freshly formatted store holds nothing.
//! `store_wf` is what a disk that the store formatted keeps through every
//! write and delete; on such a disk the laws above need nothing more.

use vstd::prelude::*;
use vstd::utf8::valid_utf8;
use crate::bytes::{le32, le32_bytes, splice};
use crate::store::{
    dir_of, entry_flags, entry_offset, entry_size, entry_name, entry_matches, entry_end,
    entry_data, entry_on_disk, last_match, lookup, spec_read, marked_dir, marked_upto, free_from,
    slot_free, next_free, extents_fit, name_field_for, new_entry, padded, write_slot, write_next,
    data_fits, dir_after_write, with_dir, written_image, spec_write, deleted_image,
    formatted_image, formatted_superblock, zero_from, stored_name, data_pos, sectors_for,
    lemma_same_entry, live_count, listed, FLAG_VALID, FLAG_DELETED, MAGIC,
};

verus! {

proof fn lemma_zero_from(f: Seq<u8>, k: int, z: int)
    requires
        0 <= k <= z < f.len(),
        f[z] == 0,
        forall|m: int| k <= m < z ==> f[m] != 0,
    ensures
        zero_from(f, k) == z,
    decreases z - k,
{
    if k < z {
        lemma_zero_from(f, k + 1, z);
    }
}

/// A name of at most 19 bytes, none of them NUL, is stored as itself.
proof fn lemma_stored_name_for(name: Seq<u8>)
    requires
        name.len() <= 19,
        valid_utf8(name),
        forall|k: int| 0 <= k < name.len() ==> name[k] != 0,
    ensures
        stored_name(name_field_for(name)) == name,
{
    let f = name_field_for(name);
    lemma_zero_from(f, 0, name.len() as int);
    assert(f.take(name.len() as int) =~= name);
}

proof fn lemma_new_entry_fields(m: Seq<u8>, slot: int, name: Seq<u8>, off: u32, size: u32)
    requires
        m.len() == 2048,
        0 <= slot < 64,
    ensures
        ({
            let d = splice(m, 32 * slot, new_entry(name, off, size));
            &&& d.len() == 2048
            &&& entry_flags(d, slot) == FLAG_VALID
            &&& entry_offset(d, slot) == off
            &&& entry_size(d, slot) == size
            &&& d.subrange(32 * slot, 32 * slot + 20) == name_field_for(name)
            &&& entry_name(d, slot) == stored_name(name_field_for(name))
            &&& forall|k: int|
                0 <= k < 2048 && !(32 * slot <= k < 32 * slot + 32) ==> #[trigger] d[k] == m[k]
        }),
{
    let e = new_entry(name, off, size);
    let d = splice(m, 32 * slot, e);
    assert(d.subrange(32 * slot, 32 * slot + 20) =~= name_field_for(name));
    assert(le32(d, 32 * slot + 20) == le32(le32_bytes(off), 0));
    assert(le32(d, 32 * slot + 24) == le32(le32_bytes(size), 0));
    assert(le32(d, 32 * slot + 28) == le32(le32_bytes(FLAG_VALID), 0));
}

/// What marking does to entry `i`: a match loses its liveness, anything
/// else stays as it was.
proof fn lemma_marked_entry(dir: Seq<u8>, name: Seq<u8>, i: int)
    requires
        dir.len() == 2048,
        0 <= i < 64,
    ensures
        ({
            let m = marked_dir(dir, name);
            &&& m.len() == 2048
            &&& entry_name(m, i) == entry_name(dir, i)
            &&& m[32 * i] == dir[32 * i]
            &&& entry_offset(m, i) == entry_offset(dir, i)
            &&& entry_size(m, i) == entry_size(dir, i)
            &&& entry_matches(dir, i, name) ==> entry_flags(m, i) == FLAG_DELETED
            &&& !entry_matches(dir, i, name) ==> forall|k: int|
                32 * i <= k < 32 * i + 32 ==> #[trigger] m[k] == dir[k]
        }),
{
    let m = marked_dir(dir, name);
    assert forall|k: int| 32 * i <= k < 32 * i + 28 implies #[trigger] m[k] == dir[k] by {
        assert(k / 32 == i);
        assert(k % 32 < 28);
    }
    assert(m.subrange(32 * i, 32 * i + 20) =~= dir.subrange(32 * i, 32 * i + 20));
    if entry_matches(dir, i, name) {
        assert forall|k: int| 32 * i + 28 <= k < 32 * i + 32 implies #[trigger] m[k]
            == le32_bytes(FLAG_DELETED)[k - 32 * i - 28] by {
            assert(k / 32 == i);
            assert(k % 32 == k - 32 * i);
        }
        assert(le32(m, 32 * i + 28) == le32(le32_bytes(FLAG_DELETED), 0));
    } else {
        assert forall|k: int| 32 * i <= k < 32 * i + 32 implies #[trigger] m[k] == dir[k] by {
            assert(k / 32 == i);
        }
    }
}

/// No live entry of a marked directory carries the marked name.
proof fn lemma_marked_no_match(dir: Seq<u8>, name: Seq<u8>, i: int)
    requires
        dir.len() == 2048,
        0 <= i < 64,
    ensures
        !entry_matches(marked_dir(dir, name), i, name),
{
    lemma_marked_entry(dir, name, i);
    if !entry_matches(dir, i, name) {
        lemma_same_entry(marked_dir(dir, name), dir, i);
    }
}

/// Directories whose first `n` entries match alike have the same last match.
proof fn lemma_last_match_eq(d1: Seq<u8>, n1: Seq<u8>, d2: Seq<u8>, n2: Seq<u8>, n: int)
    requires
        forall|i: int| 0 <= i < n ==> entry_matches(d1, i, n1) == entry_matches(d2, i, n2),
    ensures
        last_match(d1, n1, n) == last_match(d2, n2, n),
    decreases n,
{
    if n > 0 {
        lemma_last_match_eq(d1, n1, d2, n2, n - 1);
    }
}

/// The last match lies among the first `n` entries and matches.
proof fn lemma_last_match_range(d: Seq<u8>, name: Seq<u8>, n: int)
    ensures
        last_match(d, name, n) matches Some(j) ==> 0 <= j < n && entry_matches(d, j, name),
    decreases n,
{
    if n > 0 {
        lemma_last_match_range(d, name, n - 1);
    }
}

/// The last match is `slot` where `slot` matches and no later entry does.
proof fn lemma_last_match_is(d: Seq<u8>, name: Seq<u8>, slot: int, n: int)
    requires
        0 <= slot < n,
        entry_matches(d, slot, name),
        forall|i: int| slot < i < n ==> !entry_matches(d, i, name),
    ensures
        last_match(d, name, n) == Some(slot),
    decreases n,
{
    if n - 1 > slot {
        lemma_last_match_is(d, name, slot, n - 1);
    }
}

/// The next free sector lies after every live entry and fits in 32 bits.
proof fn lemma_next_free_bound(d: Seq<u8>, n: int)
    requires
        extents_fit(d),
        0 <= n <= 64,
    ensures
        0 <= next_free(d, n) <= u32::MAX,
        forall|j: int|
            0 <= j < n && entry_flags(d, j) == FLAG_VALID ==> entry_end(d, j) <= next_free(d, n),
    decreases n,
{
    if n > 0 {
        lemma_next_free_bound(d, n - 1);
        assert(entry_flags(d, n - 1) == FLAG_VALID ==> entry_end(d, n - 1) <= u32::MAX);
    }
}

proof fn lemma_sectors_cover(size: int)
    requires
        0 <= size,
    ensures
        size <= sectors_for(size) * 512,
        0 <= sectors_for(size),
{
    assert(size <= ((size + 511) / 512) * 512) by (nonlinear_arith)
        requires
            0 <= size,
    ;
}

/// The first free entry is free.
proof fn lemma_free_from(d: Seq<u8>, i: int)
    requires
        0 <= i <= 64,
        free_from(d, i) is Some,
    ensures
        i <= free_from(d, i).unwrap() < 64,
        slot_free(d, free_from(d, i).unwrap()),
    decreases 64 - i,
{
    if i < 64 && !slot_free(d, i) {
        lemma_free_from(d, i + 1);
    }
}

/// Two disks that agree on the bytes of entry `i`'s data give the same data.
proof fn lemma_same_data(a: Seq<u8>, b: Seq<u8>, dir: Seq<u8>, i: int)
    requires
        a.len() == b.len(),
        entry_on_disk(a, dir, i),
        0 <= entry_offset(dir, i),
        0 <= entry_size(dir, i),
        forall|k: int|
            data_pos(entry_offset(dir, i)) <= k < data_pos(entry_offset(dir, i)) + entry_size(dir, i)
                ==> #[trigger] a[k] == b[k],
    ensures
        entry_data(a, dir, i) == entry_data(b, dir, i),
{
    lemma_sectors_cover(entry_size(dir, i));
    assert(entry_data(a, dir, i) =~= entry_data(b, dir, i));
}

/// A read of `name` after a write of `data` under `name` gives `data`
/// back, when the name is 1 to 19 bytes without NUL, the size fits in
/// 32 bits and the write succeeds.
pub proof fn lemma_read_after_write(image: Seq<u8>, name: Seq<u8>, data: Seq<u8>)
    requires
        image.len() >= 2560,
        valid_utf8(name),
        0 < name.len() <= 19,
        forall|k: int| 0 <= k < name.len() ==> name[k] != 0,
        data.len() <= u32::MAX,
        extents_fit(marked_dir(dir_of(image), name)),
        spec_write(image, name, data) is Some,
        data_pos(write_next(image, name)) + padded(data).len() <= image.len(),
    ensures
        spec_read(spec_write(image, name, data).unwrap(), name) == Some(data),
{
    let d = dir_of(image);
    let m = marked_dir(d, name);
    let slot = write_slot(image, name).unwrap();
    let next = write_next(image, name);
    let d2 = dir_after_write(d, name, slot, next, data.len());
    let img1 = splice(image, data_pos(next), padded(data));
    let w = written_image(image, name, data);
    lemma_free_from(m, 0);
    lemma_next_free_bound(m, 64);
    lemma_new_entry_fields(m, slot, name, next as u32, data.len() as u32);
    lemma_stored_name_for(name);
    assert(dir_of(w) =~= d2);
    assert(d2[32 * slot] == name_field_for(name)[0]);
    assert forall|i: int| slot < i < 64 implies !entry_matches(d2, i, name) by {
        lemma_marked_no_match(d, name, i);
        lemma_same_entry(d2, m, i);
    }
    lemma_last_match_is(d2, name, slot, 64);
    lemma_sectors_cover(data.len() as int);
    assert(entry_data(w, d2, slot) =~= data);
}

/// After a write, the entries that carry a name other than the written
/// one are the same as before.
proof fn lemma_write_matches_other(d: Seq<u8>, name: Seq<u8>, slot: int, next: int, len: nat, other: Seq<u8>)
    requires
        d.len() == 2048,
        0 <= slot < 64,
        slot_free(marked_dir(d, name), slot),
        valid_utf8(name),
        name.len() <= 19,
        forall|k: int| 0 <= k < name.len() ==> name[k] != 0,
        other != name,
    ensures
        forall|i: int|
            0 <= i < 64 ==> #[trigger] entry_matches(dir_after_write(d, name, slot, next, len), i, other)
                == entry_matches(d, i, other),
{
    let m = marked_dir(d, name);
    let d2 = dir_after_write(d, name, slot, next, len);
    lemma_new_entry_fields(m, slot, name, next as u32, len as u32);
    lemma_stored_name_for(name);
    assert forall|i: int| 0 <= i < 64 implies #[trigger] entry_matches(d2, i, other)
        == entry_matches(d, i, other) by {
        lemma_marked_entry(d, name, i);
        if i != slot {
            lemma_same_entry(d2, m, i);
            if !entry_matches(d, i, name) {
                lemma_same_entry(m, d, i);
            }
        }
    }
}

/// A write under `name` leaves what the store holds under any other
/// name `other`, when the new name is stored whole (at most 19
/// bytes, no NUL) and the disk holds `other`'s data.
pub proof fn lemma_write_keeps_others(image: Seq<u8>, name: Seq<u8>, data: Seq<u8>, other: Seq<u8>)
    requires
        image.len() >= 2560,
        valid_utf8(name),
        name.len() <= 19,
        forall|k: int| 0 <= k < name.len() ==> name[k] != 0,
        other != name,
        extents_fit(marked_dir(dir_of(image), name)),
        spec_write(image, name, data) is Some,
        lookup(dir_of(image), other) matches Some(j) ==> entry_on_disk(image, dir_of(image), j),
    ensures
        spec_read(spec_write(image, name, data).unwrap(), other) == spec_read(image, other),
{
    let d = dir_of(image);
    let m = marked_dir(d, name);
    let slot = write_slot(image, name).unwrap();
    let next = write_next(image, name);
    let d2 = dir_after_write(d, name, slot, next, data.len());
    let w = written_image(image, name, data);
    lemma_free_from(m, 0);
    assert(dir_of(w) =~= d2);
    lemma_write_matches_other(d, name, slot, next, data.len(), other);
    lemma_last_match_eq(d2, other, d, other, 64);
    lemma_last_match_range(d, other, 64);
    if let Some(j) = lookup(d, other) {
        lemma_write_keeps_data(image, name, data, j);
    }
}

/// The data of a live entry not named `name` lies below the sector at
/// which a write of `name` puts its data, so the write leaves it.
proof fn lemma_write_keeps_data(image: Seq<u8>, name: Seq<u8>, data: Seq<u8>, j: int)
    requires
        image.len() >= 2560,
        0 <= j < 64,
        entry_flags(dir_of(image), j) == FLAG_VALID,
        !entry_matches(dir_of(image), j, name),
        extents_fit(marked_dir(dir_of(image), name)),
        write_slot(image, name) matches Some(slot) && slot != j,
        entry_on_disk(image, dir_of(image), j),
    ensures
        ({
            let d = dir_of(image);
            let slot = write_slot(image, name).unwrap();
            let d2 = dir_after_write(d, name, slot, write_next(image, name), data.len());
            entry_data(written_image(image, name, data), d2, j) == entry_data(image, d, j)
        }),
{
    let d = dir_of(image);
    let m = marked_dir(d, name);
    let slot = write_slot(image, name).unwrap();
    let next = write_next(image, name);
    let d2 = dir_after_write(d, name, slot, next, data.len());
    let img1 = splice(image, data_pos(next), padded(data));
    let w = written_image(image, name, data);
    lemma_free_from(m, 0);
    lemma_next_free_bound(m, 64);
    lemma_new_entry_fields(m, slot, name, next as u32, data.len() as u32);
    lemma_marked_entry(d, name, j);
    lemma_same_entry(m, d, j);
    lemma_same_entry(d2, m, j);
    assert(entry_end(m, j) <= next);
    let lo = data_pos(entry_offset(d, j));
    let hi = lo + entry_size(d, j);
    lemma_sectors_cover(entry_size(d, j));
    assert(hi <= data_pos(next));
    assert forall|k: int| lo <= k < hi implies #[trigger] w[k] == image[k] by {
        assert(w[k] == img1[k]);
    }
    lemma_same_data(image, w, d, j);
}

/// After a delete of `name`, the store holds nothing under `name`.
pub proof fn lemma_read_after_delete(image: Seq<u8>, name: Seq<u8>)
    requires
        image.len() >= 2560,
    ensures
        spec_read(deleted_image(image, name), name) is None,
{
    let d = dir_of(image);
    let m = marked_dir(d, name);
    assert(dir_of(deleted_image(image, name)) =~= m);
    assert forall|i: int| 0 <= i < 64 implies !entry_matches(m, i, name) by {
        lemma_marked_no_match(d, name, i);
    }
    lemma_no_match_none(m, name, 64);
}

proof fn lemma_no_match_none(d: Seq<u8>, name: Seq<u8>, n: int)
    requires
        forall|i: int| 0 <= i < n ==> !entry_matches(d, i, name),
    ensures
        last_match(d, name, n) is None,
    decreases n,
{
    if n > 0 {
        lemma_no_match_none(d, name, n - 1);
    }
}

/// A delete of `name` leaves what the store holds under every other name,
/// when the disk holds that name's data.
pub proof fn lemma_delete_keeps_others(image: Seq<u8>, name: Seq<u8>, other: Seq<u8>)
    requires
        image.len() >= 2560,
        other != name,
        lookup(dir_of(image), other) matches Some(j) ==> entry_on_disk(image, dir_of(image), j),
    ensures
        spec_read(deleted_image(image, name), other) == spec_read(image, other),
{
    let d = dir_of(image);
    let m = marked_dir(d, name);
    let w = deleted_image(image, name);
    assert(dir_of(w) =~= m);
    assert forall|i: int| 0 <= i < 64 implies entry_matches(m, i, other) == entry_matches(
        d,
        i,
        other,
    ) by {
        lemma_marked_entry(d, name, i);
        if !entry_matches(d, i, name) {
            lemma_same_entry(m, d, i);
        }
    }
    lemma_last_match_eq(m, other, d, other, 64);
    lemma_last_match_range(d, other, 64);
    if let Some(j) = lookup(d, other) {
        lemma_marked_entry(d, name, j);
        lemma_same_entry(m, d, j);
        lemma_sectors_cover(entry_size(d, j));
        lemma_same_data(image, w, d, j);
        assert(entry_data(w, m, j) =~= entry_data(w, d, j));
    }
}

/// A freshly formatted store holds nothing, under any name.
pub proof fn lemma_formatted_is_empty(image: Seq<u8>, name: Seq<u8>)
    requires
        image.len() >= 2560,
    ensures
        spec_read(formatted_image(image), name) is None,
{
    let d = dir_of(formatted_image(image));
    assert(d =~= Seq::<u8>::new(2048, |k: int| 0u8));
    assert forall|i: int| 0 <= i < 64 implies !entry_matches(d, i, name) by {
        assert(d[32 * i] == 0);
    }
    lemma_no_match_none(d, name, 64);
}

/// Formatting writes the magic number, so opening a formatted disk
/// formats it no more.
pub proof fn lemma_formatted_has_magic(image: Seq<u8>)
    requires
        image.len() >= 2560,
    ensures
        le32(formatted_image(image), 0) == MAGIC,
{
    let f = formatted_image(image);
    assert(f.subrange(0, 4) =~= le32_bytes(MAGIC));
    assert(le32(f, 0) == le32(le32_bytes(MAGIC), 0));
}

proof fn lemma_live_count_bound(dir: Seq<u8>, n: int)
    requires
        0 <= n,
    ensures
        0 <= live_count(dir, n) <= n,
    decreases n,
{
    if n > 0 {
        lemma_live_count_bound(dir, n - 1);
    }
}

/// A disk given directory `dir` holds that directory, and its superblock
/// counts the directory's live named entries.
proof fn lemma_with_dir(image: Seq<u8>, dir: Seq<u8>)
    requires
        image.len() >= 2560,
        dir.len() == 2048,
    ensures
        with_dir(image, dir).len() == image.len(),
        dir_of(with_dir(image, dir)) == dir,
        le32(with_dir(image, dir), 8) == live_count(dir, 64),
{
    let w = with_dir(image, dir);
    lemma_live_count_bound(dir, 64);
    let c = live_count(dir, 64) as u32;
    assert(dir_of(w) =~= dir);
    assert(w.subrange(8, 12) =~= le32_bytes(c));
    assert(le32(w, 8) == le32(le32_bytes(c), 0));
}

/// After a write that succeeds, the superblock counts the live named
/// entries of the directory on the disk.
pub proof fn lemma_write_keeps_count(image: Seq<u8>, name: Seq<u8>, data: Seq<u8>)
    requires
        image.len() >= 2560,
        spec_write(image, name, data) is Some,
    ensures
        ({
            let after = spec_write(image, name, data).unwrap();
            le32(after, 8) == live_count(dir_of(after), 64)
        }),
{
    let slot = write_slot(image, name).unwrap();
    let next = write_next(image, name);
    let img2 = splice(image, data_pos(next), padded(data));
    let d = dir_after_write(dir_of(image), name, slot, next, data.len());
    assert(marked_dir(dir_of(image), name).len() == 2048);
    lemma_with_dir(img2, d);
}

/// After a delete, the superblock counts the live named entries of the
/// directory on the disk.
pub proof fn lemma_delete_keeps_count(image: Seq<u8>, name: Seq<u8>)
    requires
        image.len() >= 2560,
    ensures
        ({
            let after = deleted_image(image, name);
            le32(after, 8) == live_count(dir_of(after), 64)
        }),
{
    lemma_with_dir(image, marked_dir(dir_of(image), name));
}

// ─── What a listing shows ───────────────────────────────────────────

/// How many times `x` occurs in `l`.
pub open spec fn occurrences(l: Seq<Seq<u8>>, x: Seq<u8>) -> nat
    decreases l.len(),
{
    if l.len() == 0 {
        0
    } else {
        occurrences(l.drop_last(), x) + if l.last() == x {
            1nat
        } else {
            0nat
        }
    }
}

/// How many of the first `n` entries are live and carry `name`.
pub open spec fn match_count(dir: Seq<u8>, name: Seq<u8>, n: int) -> nat
    decreases n,
{
    if n <= 0 {
        0
    } else {
        match_count(dir, name, n - 1) + if entry_matches(dir, n - 1, name) {
            1nat
        } else {
            0nat
        }
    }
}

/// Every entry is marked live or deleted, as the store's own writes leave it.
pub open spec fn flags_sound(dir: Seq<u8>) -> bool {
    forall|i: int|
        0 <= i < 64 ==> #[trigger] entry_flags(dir, i) == FLAG_VALID || entry_flags(dir, i)
            == FLAG_DELETED
}

/// A listing shows a name as often as live entries carry it.
proof fn lemma_listed_count(dir: Seq<u8>, k: Seq<u8>, n: int)
    requires
        0 <= n,
    ensures
        occurrences(listed(dir, n), k) == match_count(dir, k, n),
        listed(dir, n).len() == live_count(dir, n),
    decreases n,
{
    if n > 0 {
        lemma_listed_count(dir, k, n - 1);
        let l = listed(dir, n - 1);
        if entry_flags(dir, n - 1) == FLAG_VALID && dir[32 * (n - 1)] != 0 {
            let y = entry_name(dir, n - 1);
            assert(l.push(y).drop_last() =~= l);
            assert(l.push(y).last() == y);
        }
    }
}

proof fn lemma_match_count_eq(d1: Seq<u8>, k1: Seq<u8>, d2: Seq<u8>, k2: Seq<u8>, n: int)
    requires
        forall|i: int| 0 <= i < n ==> entry_matches(d1, i, k1) == entry_matches(d2, i, k2),
    ensures
        match_count(d1, k1, n) == match_count(d2, k2, n),
    decreases n,
{
    if n > 0 {
        lemma_match_count_eq(d1, k1, d2, k2, n - 1);
    }
}

/// Where only `slot` matches, the count is one once `slot` is counted.
proof fn lemma_match_count_only(d: Seq<u8>, k: Seq<u8>, slot: int, n: int)
    requires
        0 <= slot,
        slot < n ==> entry_matches(d, slot, k),
        forall|i: int| 0 <= i < n && i != slot ==> !entry_matches(d, i, k),
    ensures
        match_count(d, k, n) == if slot < n {
            1nat
        } else {
            0nat
        },
    decreases n,
{
    if n > 0 {
        lemma_match_count_only(d, k, slot, n - 1);
    }
}

/// No entry among the first `n` matches exactly where none is counted.
proof fn lemma_match_count_zero(d: Seq<u8>, k: Seq<u8>, n: int)
    ensures
        (match_count(d, k, n) == 0) == (forall|i: int| 0 <= i < n ==> !entry_matches(d, i, k)),
    decreases n,
{
    if n > 0 {
        lemma_match_count_zero(d, k, n - 1);
    }
}

/// Entry `i` is live and its name field is not empty.
pub open spec fn live_named(d: Seq<u8>, i: int) -> bool {
    entry_flags(d, i) == FLAG_VALID && d[32 * i] != 0
}

/// All of the first `n` entries are live and named exactly where all are counted.
proof fn lemma_live_count_full(d: Seq<u8>, n: int)
    requires
        0 <= n,
    ensures
        (live_count(d, n) == n) == (forall|i: int| 0 <= i < n ==> #[trigger] live_named(d, i)),
    decreases n,
{
    if n > 0 {
        lemma_live_count_full(d, n - 1);
        lemma_live_count_bound(d, n - 1);
        if live_count(d, n) == n {
            assert(live_named(d, n - 1));
            assert forall|i: int| 0 <= i < n implies #[trigger] live_named(d, i) by {
                if i < n - 1 {
                    assert(live_named(d, i));
                }
            }
        } else if forall|i: int| 0 <= i < n ==> #[trigger] live_named(d, i) {
            assert(live_named(d, n - 1));
            assert forall|i: int| 0 <= i < n - 1 implies #[trigger] live_named(d, i) by {}
            assert(live_count(d, n - 1) == n - 1);
        }
    }
}

/// A write that succeeds lists the written name exactly once, and every
/// other name as often as before: as a set, the listing gains the name.
/// The name is 1 to 19 bytes without NUL, so that it is stored whole.
pub proof fn lemma_write_lists_name_once(image: Seq<u8>, name: Seq<u8>, data: Seq<u8>, k: Seq<u8>)
    requires
        image.len() >= 2560,
        valid_utf8(name),
        0 < name.len() <= 19,
        forall|j: int| 0 <= j < name.len() ==> name[j] != 0,
        spec_write(image, name, data) is Some,
    ensures
        occurrences(listed(dir_of(spec_write(image, name, data).unwrap()), 64), k) == if k
            == name {
            1nat
        } else {
            occurrences(listed(dir_of(image), 64), k)
        },
{
    let d = dir_of(image);
    let m = marked_dir(d, name);
    let slot = write_slot(image, name).unwrap();
    let next = write_next(image, name);
    let d2 = dir_after_write(d, name, slot, next, data.len());
    let w = written_image(image, name, data);
    lemma_free_from(m, 0);
    lemma_new_entry_fields(m, slot, name, next as u32, data.len() as u32);
    lemma_stored_name_for(name);
    lemma_with_dir(splice(image, data_pos(next), padded(data)), d2);
    assert(dir_of(w) == d2);
    lemma_listed_count(d2, k, 64);
    lemma_listed_count(d, k, 64);
    if k == name {
        assert(d2[32 * slot] == name_field_for(name)[0]);
        assert forall|i: int| 0 <= i < 64 && i != slot implies !entry_matches(d2, i, name) by {
            lemma_marked_no_match(d, name, i);
            lemma_same_entry(d2, m, i);
        }
        lemma_match_count_only(d2, name, slot, 64);
    } else {
        lemma_write_matches_other(d, name, slot, next, data.len(), k);
        lemma_match_count_eq(d2, k, d, k, 64);
    }
}

/// A delete lists the deleted name no more, and every other name as often
/// as before.
pub proof fn lemma_delete_unlists_name(image: Seq<u8>, name: Seq<u8>, k: Seq<u8>)
    requires
        image.len() >= 2560,
    ensures
        occurrences(listed(dir_of(deleted_image(image, name)), 64), k) == if k == name {
            0nat
        } else {
            occurrences(listed(dir_of(image), 64), k)
        },
{
    let d = dir_of(image);
    let m = marked_dir(d, name);
    lemma_with_dir(image, m);
    lemma_listed_count(m, k, 64);
    lemma_listed_count(d, k, 64);
    if k == name {
        assert forall|i: int| 0 <= i < 64 implies !entry_matches(m, i, name) by {
            lemma_marked_no_match(d, name, i);
        }
        lemma_match_count_zero(m, name, 64);
    } else {
        assert forall|i: int| 0 <= i < 64 implies entry_matches(m, i, k) == entry_matches(
            d,
            i,
            k,
        ) by {
            lemma_marked_entry(d, name, i);
            if !entry_matches(d, i, name) {
                lemma_same_entry(m, d, i);
            }
        }
        lemma_match_count_eq(m, k, d, k, 64);
    }
}

proof fn lemma_free_from_none(d: Seq<u8>, i: int)
    requires
        0 <= i <= 64,
    ensures
        (free_from(d, i) is None) == (forall|j: int| i <= j < 64 ==> !#[trigger] slot_free(d, j)),
    decreases 64 - i,
{
    if i < 64 {
        lemma_free_from_none(d, i + 1);
    }
}

/// A write finds no entry to take exactly where the directory is full:
/// all 64 entries are listed and none of them is the written name. The
/// entries are each marked live or deleted, as the store's writes leave them.
pub proof fn lemma_write_full_iff(image: Seq<u8>, name: Seq<u8>)
    requires
        image.len() >= 2560,
        flags_sound(dir_of(image)),
    ensures
        (write_slot(image, name) is None) == (listed(dir_of(image), 64).len() == 64 && occurrences(
            listed(dir_of(image), 64),
            name,
        ) == 0),
{
    let d = dir_of(image);
    let m = marked_dir(d, name);
    lemma_free_from_none(m, 0);
    lemma_listed_count(d, name, 64);
    lemma_match_count_zero(d, name, 64);
    lemma_live_count_full(d, 64);
    assert forall|i: int| 0 <= i < 64 implies #[trigger] slot_free(m, i) == (entry_matches(d, i, name)
        || entry_flags(d, i) == FLAG_DELETED || d[32 * i] == 0) by {
        lemma_marked_entry(d, name, i);
        if !entry_matches(d, i, name) {
            lemma_same_entry(m, d, i);
        }
    }
    if write_slot(image, name) is None {
        assert forall|i: int| 0 <= i < 64 implies #[trigger] live_named(d, i) by {
            assert(!slot_free(m, i));
            assert(entry_flags(d, i) == FLAG_VALID || entry_flags(d, i) == FLAG_DELETED);
        }
        assert forall|i: int| 0 <= i < 64 implies !entry_matches(d, i, name) by {
            assert(!slot_free(m, i));
        }
        assert(live_count(d, 64) == 64);
        assert(match_count(d, name, 64) == 0);
    } else {
        let s = free_from(m, 0).unwrap();
        lemma_free_from(m, 0);
        assert(slot_free(m, s));
        if entry_matches(d, s, name) {
            assert(match_count(d, name, 64) != 0);
        } else {
            assert(!live_named(d, s));
            assert(live_count(d, 64) != 64);
        }
    }
}

/// A write that fails leaves the directory and the superblock as they
/// were, so the listing, and the entry that a read of any name uses, stay
/// the same: a failed write changes at most data sectors from the one at
/// which it puts its data on.
pub proof fn lemma_failed_write_keeps_directory(image: Seq<u8>, after: Seq<u8>, name: Seq<u8>)
    requires
        image.len() >= 2560,
        after.len() == image.len(),
        extents_fit(marked_dir(dir_of(image), name)),
        forall|k: int|
            0 <= k < image.len() && k < data_pos(write_next(image, name)) ==> #[trigger] after[k]
                == image[k],
    ensures
        dir_of(after) == dir_of(image),
        after.subrange(0, 512) == image.subrange(0, 512),
        listed(dir_of(after), 64) == listed(dir_of(image), 64),
        forall|k: Seq<u8>| #[trigger] lookup(dir_of(after), k) == lookup(dir_of(image), k),
{
    lemma_next_free_bound(marked_dir(dir_of(image), name), 64);
    assert(dir_of(after) =~= dir_of(image));
    assert(after.subrange(0, 512) =~= image.subrange(0, 512));
}

// ─── The store's invariant ──────────────────────────────────────────

/// What a disk that the store formatted and then changed only by its own
/// writes and deletes keeps: it holds the superblock and the directory and
/// is no larger than 32-bit sector offsets reach; every entry is marked
/// live or deleted; the extents of the live entries fit in 32 bits and
/// their data lies on the disk; no name is carried by two live entries;
/// and the superblock counts the live named entries.
pub open spec fn store_wf(image: Seq<u8>) -> bool {
    let d = dir_of(image);
    &&& 2560 <= image.len() <= data_pos(u32::MAX as int)
    &&& flags_sound(d)
    &&& extents_fit(d)
    &&& forall|i: int|
        0 <= i < 64 && #[trigger] entry_flags(d, i) == FLAG_VALID ==> entry_on_disk(image, d, i)
    &&& forall|k: Seq<u8>| #[trigger] match_count(d, k, 64) <= 1
    &&& le32(image, 8) == live_count(d, 64)
}

/// A name that a write stores whole: 1 to 19 bytes, UTF-8, no NUL.
pub open spec fn storable_name(name: Seq<u8>) -> bool {
    &&& valid_utf8(name)
    &&& 0 < name.len() <= 19
    &&& forall|j: int| 0 <= j < name.len() ==> name[j] != 0
}

/// The data sector at which the next data goes lies on the disk.
proof fn lemma_next_free_on_disk(image: Seq<u8>, d: Seq<u8>, n: int)
    requires
        0 <= n <= 64,
        image.len() >= 2560,
        forall|i: int|
            0 <= i < 64 && #[trigger] entry_flags(d, i) == FLAG_VALID ==> entry_on_disk(image, d, i),
    ensures
        data_pos(next_free(d, n)) <= image.len(),
    decreases n,
{
    if n > 0 {
        lemma_next_free_on_disk(image, d, n - 1);
        if entry_flags(d, n - 1) == FLAG_VALID {
            assert(entry_on_disk(image, d, n - 1));
        }
    }
}

/// Marking keeps what the invariant asks of the directory: the live
/// entries of the marked directory are live entries of the old one, with
/// the same bytes, and no name gains a live entry.
proof fn lemma_marked_keeps(image: Seq<u8>, name: Seq<u8>)
    requires
        store_wf(image),
    ensures
        ({
            let d = dir_of(image);
            let m = marked_dir(d, name);
            &&& m.len() == 2048
            &&& flags_sound(m)
            &&& extents_fit(m)
            &&& forall|i: int|
                0 <= i < 64 && #[trigger] entry_flags(m, i) == FLAG_VALID ==> entry_on_disk(image, m, i)
            &&& forall|k: Seq<u8>| #[trigger] match_count(m, k, 64) <= 1
        }),
{
    let d = dir_of(image);
    let m = marked_dir(d, name);
    assert forall|i: int| 0 <= i < 64 implies (entry_flags(m, i) == FLAG_VALID || entry_flags(m, i)
        == FLAG_DELETED) && (#[trigger] entry_flags(m, i) == FLAG_VALID ==> entry_flags(d, i) == FLAG_VALID
        && entry_offset(m, i) == entry_offset(d, i) && entry_size(m, i) == entry_size(d, i)) by {
        lemma_marked_entry(d, name, i);
        assert(entry_flags(d, i) == FLAG_VALID || entry_flags(d, i) == FLAG_DELETED);
        if !entry_matches(d, i, name) {
            lemma_same_entry(m, d, i);
        }
    }
    assert forall|k: Seq<u8>| #[trigger] match_count(m, k, 64) <= 1 by {
        lemma_delete_unlists_name(image, name, k);
        lemma_with_dir(image, m);
        lemma_listed_count(m, k, 64);
        lemma_listed_count(d, k, 64);
        assert(match_count(d, k, 64) <= 1);
    }
}

/// A freshly formatted disk meets the invariant.
pub proof fn lemma_formatted_wf(image: Seq<u8>)
    requires
        2560 <= image.len() <= data_pos(u32::MAX as int),
    ensures
        store_wf(formatted_image(image)),
{
    let f = formatted_image(image);
    let d = dir_of(f);
    assert(d =~= Seq::<u8>::new(2048, |k: int| 0u8));
    assert forall|i: int| 0 <= i < 64 implies #[trigger] entry_flags(d, i) == FLAG_VALID
        && entry_offset(d, i) == 0 && entry_size(d, i) == 0 && d[32 * i] == 0 && !live_named(d, i) by {}
    assert forall|k: Seq<u8>| #[trigger] match_count(d, k, 64) <= 1 by {
        assert forall|i: int| 0 <= i < 64 implies !entry_matches(d, i, k) by {
            assert(d[32 * i] == 0);
        }
        lemma_match_count_zero(d, k, 64);
    }
    lemma_live_count_zero(d, 64);
    assert(f.subrange(8, 12) =~= le32_bytes(0));
    assert(le32(f, 8) == le32(le32_bytes(0), 0));
}

proof fn lemma_live_count_zero(d: Seq<u8>, n: int)
    requires
        0 <= n <= 64,
        forall|i: int| 0 <= i < 64 ==> !#[trigger] live_named(d, i),
    ensures
        live_count(d, n) == 0,
    decreases n,
{
    if n > 0 {
        lemma_live_count_zero(d, n - 1);
        assert(!live_named(d, n - 1));
    }
}

/// A write that succeeds keeps the invariant, for a name that it stores
/// whole and data whose size and padding fit in 32 bits.
pub proof fn lemma_write_keeps_wf(image: Seq<u8>, name: Seq<u8>, data: Seq<u8>)
    requires
        store_wf(image),
        storable_name(name),
        data.len() + 512 <= u32::MAX,
        spec_write(image, name, data) is Some,
    ensures
        store_wf(spec_write(image, name, data).unwrap()),
{
    let d = dir_of(image);
    let m = marked_dir(d, name);
    let slot = write_slot(image, name).unwrap();
    let next = write_next(image, name);
    let d2 = dir_after_write(d, name, slot, next, data.len());
    let img1 = splice(image, data_pos(next), padded(data));
    let w = written_image(image, name, data);
    lemma_marked_keeps(image, name);
    lemma_free_from(m, 0);
    lemma_next_free_bound(m, 64);
    lemma_next_free_on_disk(image, m, 64);
    lemma_sectors_cover(data.len() as int);
    assert(img1.len() == image.len());
    lemma_with_dir(img1, d2);
    lemma_new_entry_fields(m, slot, name, next as u32, data.len() as u32);
    assert(dir_of(w) == d2);
    assert(w.len() == image.len());
    let sec = sectors_for(data.len() as int);
    assert(next + sec <= u32::MAX) by {
        if sec > 0 {
            assert(data_pos(next) + sec * 512 <= image.len());
        }
    }
    assert forall|i: int| 0 <= i < 64 implies (entry_flags(d2, i) == FLAG_VALID || entry_flags(d2, i)
        == FLAG_DELETED) && (#[trigger] entry_flags(d2, i) == FLAG_VALID ==> entry_size(d2, i) + 512
        <= u32::MAX && entry_end(d2, i) <= u32::MAX && entry_on_disk(w, d2, i)) by {
        if i != slot {
            lemma_same_entry(d2, m, i);
        }
    }
    assert forall|k: Seq<u8>| #[trigger] match_count(d2, k, 64) <= 1 by {
        lemma_write_lists_name_once(image, name, data, k);
        lemma_listed_count(d2, k, 64);
        lemma_listed_count(d, k, 64);
        assert(match_count(d, k, 64) <= 1);
    }
    lemma_write_keeps_count(image, name, data);
}

/// A delete keeps the invariant.
pub proof fn lemma_delete_keeps_wf(image: Seq<u8>, name: Seq<u8>)
    requires
        store_wf(image),
    ensures
        store_wf(deleted_image(image, name)),
{
    let d = dir_of(image);
    let m = marked_dir(d, name);
    let w = deleted_image(image, name);
    lemma_marked_keeps(image, name);
    lemma_with_dir(image, m);
    assert(dir_of(w) == m);
    lemma_delete_keeps_count(image, name);
}

/// A write that fails keeps the invariant: it changes no byte below the
/// data sector at which it puts its data.
pub proof fn lemma_failed_write_keeps_wf(image: Seq<u8>, after: Seq<u8>, name: Seq<u8>)
    requires
        store_wf(image),
        after.len() == image.len(),
        forall|k: int|
            0 <= k < image.len() && k < data_pos(write_next(image, name)) ==> #[trigger] after[k]
                == image[k],
    ensures
        store_wf(after),
{
    lemma_marked_keeps(image, name);
    lemma_next_free_bound(marked_dir(dir_of(image), name), 64);
    lemma_failed_write_keeps_directory(image, after, name);
    assert(le32(after, 8) == le32(image, 8)) by {
        assert(after[8] == image[8] && after[9] == image[9] && after[10] == image[10]
            && after[11] == image[11]);
    }
}

proof fn lemma_last_match_count(d: Seq<u8>, k: Seq<u8>, n: int)
    ensures
        (last_match(d, k, n) is Some) == (match_count(d, k, n) > 0),
    decreases n,
{
    if n > 0 {
        lemma_last_match_count(d, k, n - 1);
    }
}

/// On a disk that keeps the invariant, the listing shows each name at most
/// once, shows exactly the names that a read finds, and is as long as the
/// superblock's count says.
pub proof fn lemma_wf_listing(image: Seq<u8>, k: Seq<u8>)
    requires
        store_wf(image),
    ensures
        occurrences(listed(dir_of(image), 64), k) <= 1,
        (occurrences(listed(dir_of(image), 64), k) > 0) == (spec_read(image, k) is Some),
        listed(dir_of(image), 64).len() == le32(image, 8),
{
    let d = dir_of(image);
    lemma_listed_count(d, k, 64);
    lemma_last_match_count(d, k, 64);
    assert(match_count(d, k, 64) <= 1);
}

/// On a disk that keeps the invariant, a write that succeeds, of a name
/// that it stores whole and data whose size and padding fit in 32 bits,
/// keeps the invariant; a read of the name then gives the data, and a
/// read of any other name gives what it gave before.
pub proof fn lemma_wf_write(image: Seq<u8>, name: Seq<u8>, data: Seq<u8>, other: Seq<u8>)
    requires
        store_wf(image),
        storable_name(name),
        data.len() + 512 <= u32::MAX,
        spec_write(image, name, data) is Some,
    ensures
        store_wf(spec_write(image, name, data).unwrap()),
        spec_read(spec_write(image, name, data).unwrap(), name) == Some(data),
        other != name ==> spec_read(spec_write(image, name, data).unwrap(), other) == spec_read(
            image,
            other,
        ),
{
    let d = dir_of(image);
    let m = marked_dir(d, name);
    lemma_write_keeps_wf(image, name, data);
    lemma_marked_keeps(image, name);
    lemma_next_free_on_disk(image, m, 64);
    lemma_read_after_write(image, name, data);
    lemma_last_match_range(d, other, 64);
    if other != name {
        lemma_write_keeps_others(image, name, data, other);
    }
}

/// On a disk that keeps the invariant, a delete keeps it; a read of the
/// name then finds nothing, and a read of any other name gives what it
/// gave before.
pub proof fn lemma_wf_delete(image: Seq<u8>, name: Seq<u8>, other: Seq<u8>)
    requires
        store_wf(image),
    ensures
        store_wf(deleted_image(image, name)),
        spec_read(deleted_image(image, name), name) is None,
        other != name ==> spec_read(deleted_image(image, name), other) == spec_read(image, other),
{
    lemma_delete_keeps_wf(image, name);
    lemma_read_after_delete(image, name);
    lemma_last_match_range(dir_of(image), other, 64);
    if other != name {
        lemma_delete_keeps_others(image, name, other);
    }
}

/// A write that succeeds changes only the superblock's count, the
/// directory, and the sectors that take its data; these start past the
/// data of every live entry that keeps its name.
pub proof fn lemma_write_touches(image: Seq<u8>, name: Seq<u8>, data: Seq<u8>)
    requires
        store_wf(image),
        spec_write(image, name, data) is Some,
    ensures
        ({
            let after = spec_write(image, name, data).unwrap();
            let next = write_next(image, name);
            let m = marked_dir(dir_of(image), name);
            &&& after.len() == image.len()
            &&& forall|k: int|
                0 <= k < image.len() && !(8 <= k < 12) && !(512 <= k < 2560) && !(data_pos(next) <= k
                    < data_pos(next) + padded(data).len()) ==> #[trigger] after[k] == image[k]
            &&& forall|j: int|
                0 <= j < 64 && #[trigger] entry_flags(m, j) == FLAG_VALID ==> entry_end(m, j) <= next
        }),
{
    let m = marked_dir(dir_of(image), name);
    lemma_marked_keeps(image, name);
    lemma_next_free_bound(m, 64);
}

} // verus!
