//! Big-endian integers and byte runs, the primitives under every wire format
//! in this crate.

use vstd::prelude::*;

verus! {

/// The 16-bit big-endian integer stored at `pos`.
pub open spec fn spec_u16_at(data: Seq<u8>, pos: int) -> int {
    data[pos] as int * 256 + data[pos + 1] as int
}

/// The 32-bit big-endian integer stored at `pos`.
pub open spec fn spec_u32_at(data: Seq<u8>, pos: int) -> int {
    ((data[pos] as int * 256 + data[pos + 1] as int) * 256 + data[pos + 2] as int) * 256
        + data[pos + 3] as int
}

/// The 64-bit big-endian integer stored at `pos`.
pub open spec fn spec_u64_at(data: Seq<u8>, pos: int) -> int {
    spec_u32_at(data, pos) * 4294967296 + spec_u32_at(data, pos + 4)
}

/// The two bytes that store `v` in big-endian order.
pub open spec fn spec_u16_bytes(v: int) -> Seq<u8> {
    seq![(v / 256) as u8, (v % 256) as u8]
}

/// The four bytes that store `v` in big-endian order.
pub open spec fn spec_u32_bytes(v: int) -> Seq<u8> {
    seq![
        (v / 16777216) as u8,
        ((v / 65536) % 256) as u8,
        ((v / 256) % 256) as u8,
        (v % 256) as u8,
    ]
}

/// Reads the 16-bit big-endian integer at `pos`.
pub fn read_u16(data: &[u8], pos: usize) -> (v: u16)
    requires
        pos + 2 <= data@.len(),
    ensures
        v as int == spec_u16_at(data@, pos as int),
{
    let hi: u16 = data[pos] as u16;
    let lo: u16 = data[pos + 1] as u16;
    hi * 256 + lo
}

/// Reads the 32-bit big-endian integer at `pos`.
pub fn read_u32(data: &[u8], pos: usize) -> (v: u32)
    requires
        pos + 4 <= data@.len(),
    ensures
        v as int == spec_u32_at(data@, pos as int),
{
    let b0: u32 = data[pos] as u32;
    let b1: u32 = data[pos + 1] as u32;
    let b2: u32 = data[pos + 2] as u32;
    let b3: u32 = data[pos + 3] as u32;
    ((b0 * 256 + b1) * 256 + b2) * 256 + b3
}

/// Reads the 64-bit big-endian integer at `pos`.
pub fn read_u64(data: &[u8], pos: usize) -> (v: u64)
    requires
        pos + 8 <= data@.len(),
    ensures
        v as int == spec_u64_at(data@, pos as int),
{
    let len: usize = data.len();
    assert(pos + 8 <= len);
    let hi: u64 = read_u32(data, pos) as u64;
    let lo: u64 = read_u32(data, pos + 4) as u64;
    hi * 4294967296 + lo
}

/// Appends `v` in big-endian order.
pub fn push_u16(out: &mut Vec<u8>, v: u16)
    ensures
        final(out)@ == old(out)@ + spec_u16_bytes(v as int),
{
    out.push((v / 256) as u8);
    out.push((v % 256) as u8);
    assert(out@ =~= old(out)@ + spec_u16_bytes(v as int));
}

/// Appends `v` in big-endian order.
pub fn push_u32(out: &mut Vec<u8>, v: u32)
    ensures
        final(out)@ == old(out)@ + spec_u32_bytes(v as int),
{
    out.push((v / 16777216) as u8);
    out.push(((v / 65536) % 256) as u8);
    out.push(((v / 256) % 256) as u8);
    out.push((v % 256) as u8);
    assert(out@ =~= old(out)@ + spec_u32_bytes(v as int));
}

/// The eight bytes that store `v` in big-endian order.
pub open spec fn spec_u64_bytes(v: int) -> Seq<u8> {
    spec_u32_bytes(v / 4294967296) + spec_u32_bytes(v % 4294967296)
}

/// Appends `v` in big-endian order.
pub fn push_u64(out: &mut Vec<u8>, v: u64)
    ensures
        final(out)@ == old(out)@ + spec_u64_bytes(v as int),
{
    push_u32(out, (v / 4294967296) as u32);
    push_u32(out, (v % 4294967296) as u32);
    assert(out@ =~= old(out)@ + spec_u64_bytes(v as int));
}

/// Reading back what `push_u64` wrote gives the value again.
pub proof fn lemma_u64_round_trip(v: int)
    requires
        0 <= v < 18446744073709551616,
    ensures
        spec_u64_at(spec_u64_bytes(v), 0) == v,
        spec_u64_bytes(v).len() == 8,
{
    let hi = v / 4294967296;
    let lo = v % 4294967296;
    let w = spec_u64_bytes(v);
    lemma_u32_round_trip(hi);
    lemma_u32_round_trip(lo);
    assert(spec_u32_at(w, 0) == spec_u32_at(spec_u32_bytes(hi), 0));
    assert(spec_u32_at(w, 4) == spec_u32_at(spec_u32_bytes(lo), 0));
}

/// Appends the bytes `data[from..to]`.
pub fn push_range(out: &mut Vec<u8>, data: &[u8], from: usize, to: usize)
    requires
        from <= to <= data@.len(),
    ensures
        final(out)@ == old(out)@ + data@.subrange(from as int, to as int),
{
    let mut i: usize = from;
    while i < to
        invariant
            from <= i <= to <= data@.len(),
            out@ == old(out)@ + data@.subrange(from as int, i as int),
        decreases to - i,
    {
        out.push(data[i]);
        i = i + 1;
        assert(out@ =~= old(out)@ + data@.subrange(from as int, i as int));
    }
}

/// A fresh vector holding the bytes `data[from..to]`.
pub fn copy_range(data: &[u8], from: usize, to: usize) -> (out: Vec<u8>)
    requires
        from <= to <= data@.len(),
    ensures
        out@ == data@.subrange(from as int, to as int),
{
    let mut out: Vec<u8> = Vec::new();
    push_range(&mut out, data, from, to);
    assert(out@ =~= data@.subrange(from as int, to as int));
    out
}

/// Reading back what `push_u16` wrote gives the value again.
pub proof fn lemma_u16_round_trip(v: int)
    requires
        0 <= v < 65536,
    ensures
        spec_u16_at(spec_u16_bytes(v), 0) == v,
        spec_u16_bytes(v).len() == 2,
{
}

/// Reading back what `push_u32` wrote gives the value again.
pub proof fn lemma_u32_round_trip(v: int)
    requires
        0 <= v < 4294967296,
    ensures
        spec_u32_at(spec_u32_bytes(v), 0) == v,
        spec_u32_bytes(v).len() == 4,
{
}

} // verus!
