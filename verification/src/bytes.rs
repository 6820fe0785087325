//! Little-endian integer fields inside byte buffers.

use vstd::prelude::*;

verus! {

/// The unsigned 32-bit little-endian value stored at `s[i..i + 4]`.
pub open spec fn le32(s: Seq<u8>, i: int) -> int {
    s[i] + 256 * s[i + 1] + 65536 * s[i + 2] + 16777216 * s[i + 3]
}

/// The unsigned 16-bit little-endian value stored at `s[i..i + 2]`.
pub open spec fn le16(s: Seq<u8>, i: int) -> int {
    s[i] + 256 * s[i + 1]
}

/// The four little-endian bytes of `x`.
pub open spec fn le32_bytes(x: u32) -> Seq<u8> {
    seq![(x % 256) as u8, ((x / 256) % 256) as u8, ((x / 65536) % 256) as u8, (x / 16777216) as u8]
}

/// `s` with `b` written over it starting at position `pos`.
pub open spec fn splice(s: Seq<u8>, pos: int, b: Seq<u8>) -> Seq<u8> {
    Seq::new(s.len(), |k: int| if pos <= k < pos + b.len() { b[k - pos] } else { s[k] })
}

/// Reads the little-endian `u32` at `s[off..off + 4]`.
pub fn read_le32(s: &[u8], off: usize) -> (r: u32)
    requires
        off + 4 <= s@.len(),
    ensures
        r == le32(s@, off as int),
{
    let b0 = s[off] as u32;
    let b1 = s[off + 1] as u32;
    let b2 = s[off + 2] as u32;
    let b3 = s[off + 3] as u32;
    b0 + 256 * b1 + 65536 * b2 + 16777216 * b3
}

/// Writes `x` little-endian into `s[off..off + 4]`.
pub fn write_le32(s: &mut Vec<u8>, off: usize, x: u32)
    requires
        off + 4 <= old(s)@.len(),
    ensures
        final(s)@ == splice(old(s)@, off as int, le32_bytes(x)),
{
    let _n = s.len();
    let (o1, o2, o3) = (off + 1, off + 2, off + 3);
    s.set(off, (x % 256) as u8);
    s.set(o1, ((x / 256) % 256) as u8);
    s.set(o2, ((x / 65536) % 256) as u8);
    s.set(o3, (x / 16777216) as u8);
    assert(s@ =~= splice(old(s)@, off as int, le32_bytes(x)));
}

/// The two little-endian bytes of `x`.
pub open spec fn le16_bytes(x: u16) -> Seq<u8> {
    seq![(x % 256) as u8, (x / 256) as u8]
}

/// The eight little-endian bytes of `x`.
pub open spec fn le64_bytes(x: u64) -> Seq<u8> {
    seq![
        (x % 0x100) as u8,
        ((x / 0x100) % 0x100) as u8,
        ((x / 0x1_0000) % 0x100) as u8,
        ((x / 0x100_0000) % 0x100) as u8,
        ((x / 0x1_0000_0000) % 0x100) as u8,
        ((x / 0x100_0000_0000) % 0x100) as u8,
        ((x / 0x1_0000_0000_0000) % 0x100) as u8,
        (x / 0x100_0000_0000_0000) as u8,
    ]
}

/// Appends `x` little-endian.
pub fn push_le16(v: &mut Vec<u8>, x: u16)
    ensures
        final(v)@ == old(v)@ + le16_bytes(x),
{
    v.push((x % 256) as u8);
    v.push((x / 256) as u8);
    assert(v@ =~= old(v)@ + le16_bytes(x));
}

/// Appends `x` little-endian.
pub fn push_le32(v: &mut Vec<u8>, x: u32)
    ensures
        final(v)@ == old(v)@ + le32_bytes(x),
{
    v.push((x % 256) as u8);
    v.push(((x / 256) % 256) as u8);
    v.push(((x / 65536) % 256) as u8);
    v.push((x / 16777216) as u8);
    assert(v@ =~= old(v)@ + le32_bytes(x));
}

/// Appends `x` little-endian.
pub fn push_le64(v: &mut Vec<u8>, x: u64)
    ensures
        final(v)@ == old(v)@ + le64_bytes(x),
{
    v.push((x % 0x100) as u8);
    v.push(((x / 0x100) % 0x100) as u8);
    v.push(((x / 0x1_0000) % 0x100) as u8);
    v.push(((x / 0x100_0000) % 0x100) as u8);
    v.push(((x / 0x1_0000_0000) % 0x100) as u8);
    v.push(((x / 0x100_0000_0000) % 0x100) as u8);
    v.push(((x / 0x1_0000_0000_0000) % 0x100) as u8);
    v.push((x / 0x100_0000_0000_0000) as u8);
    assert(v@ =~= old(v)@ + le64_bytes(x));
}

/// Reads the little-endian `u16` at `s[off..off + 2]`.
pub fn read_le16(s: &[u8], off: usize) -> (r: u16)
    requires
        off + 2 <= s@.len(),
    ensures
        r == le16(s@, off as int),
{
    let b0 = s[off] as u16;
    let b1 = s[off + 1] as u16;
    b0 + 256 * b1
}

/// Copies `data` into `dst` starting at position `pos`.
pub fn copy_into(dst: &mut [u8], pos: usize, data: &[u8])
    requires
        pos + data@.len() <= old(dst)@.len(),
    ensures
        final(dst)@ == splice(old(dst)@, pos as int, data@),
{
    let n = data.len();
    let m = dst.len();
    let mut i: usize = 0;
    while i < n
        invariant
            i <= n,
            n == data@.len(),
            m == dst@.len(),
            pos + n <= m,
            dst@ == splice(old(dst)@, pos as int, data@.take(i as int)),
        decreases n - i,
    {
        dst[pos + i] = data[i];
        i = i + 1;
        assert(dst@ =~= splice(old(dst)@, pos as int, data@.take(i as int)));
    }
    assert(data@.take(n as int) =~= data@);
}

} // verus!
