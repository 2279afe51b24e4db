//! Fixed-width integers on the wire, and sequences of them.

use vstd::prelude::*;
use byteorder::{BigEndian, ByteOrder, LittleEndian};

verus! {

/// The `u32` whose little-endian bytes start `b`.
pub open spec fn le_u32(b: Seq<u8>) -> u32 {
    (b[0] as u32) | ((b[1] as u32) << 8u32) | ((b[2] as u32) << 16u32) | ((b[3] as u32) << 24u32)
}

/// The `u32` whose big-endian bytes start `b`.
pub open spec fn be_u32(b: Seq<u8>) -> u32 {
    (b[3] as u32) | ((b[2] as u32) << 8u32) | ((b[1] as u32) << 16u32) | ((b[0] as u32) << 24u32)
}

/// The `u64` whose little-endian bytes start `b`.
pub open spec fn le_u64(b: Seq<u8>) -> u64 {
    (b[0] as u64) | ((b[1] as u64) << 8u64) | ((b[2] as u64) << 16u64) | ((b[3] as u64) << 24u64)
        | ((b[4] as u64) << 32u64) | ((b[5] as u64) << 40u64) | ((b[6] as u64) << 48u64) | ((b[7]
        as u64) << 56u64)
}

/// The little-endian `u64` at offset `off` of `s`.
pub open spec fn word_at(s: Seq<u8>, off: int) -> u64 {
    le_u64(s.subrange(off, off + 8))
}

pub open spec fn le_u32_bytes(v: u32) -> Seq<u8> {
    seq![v as u8, (v >> 8u32) as u8, (v >> 16u32) as u8, (v >> 24u32) as u8]
}

pub open spec fn be_u32_bytes(v: u32) -> Seq<u8> {
    seq![(v >> 24u32) as u8, (v >> 16u32) as u8, (v >> 8u32) as u8, v as u8]
}

pub open spec fn le_u64_bytes(v: u64) -> Seq<u8> {
    seq![
        v as u8,
        (v >> 8u64) as u8,
        (v >> 16u64) as u8,
        (v >> 24u64) as u8,
        (v >> 32u64) as u8,
        (v >> 40u64) as u8,
        (v >> 48u64) as u8,
        (v >> 56u64) as u8,
    ]
}

pub proof fn lemma_le_u32_round_trip(v: u32)
    ensures
        le_u32(le_u32_bytes(v)) == v,
{
    let b = le_u32_bytes(v);
    assert(b[0] == v as u8 && b[1] == (v >> 8u32) as u8 && b[2] == (v >> 16u32) as u8 && b[3] == (v
        >> 24u32) as u8);
    assert(((v as u8) as u32) | ((((v >> 8u32) as u8) as u32) << 8u32) | ((((v >> 16u32) as u8)
        as u32) << 16u32) | ((((v >> 24u32) as u8) as u32) << 24u32) == v) by (bit_vector);
}

pub proof fn lemma_be_u32_round_trip(v: u32)
    ensures
        be_u32(be_u32_bytes(v)) == v,
{
    let b = be_u32_bytes(v);
    assert(b[3] == v as u8 && b[2] == (v >> 8u32) as u8 && b[1] == (v >> 16u32) as u8 && b[0] == (v
        >> 24u32) as u8);
    assert(((v as u8) as u32) | ((((v >> 8u32) as u8) as u32) << 8u32) | ((((v >> 16u32) as u8)
        as u32) << 16u32) | ((((v >> 24u32) as u8) as u32) << 24u32) == v) by (bit_vector);
}

pub proof fn lemma_le_u64_round_trip(v: u64)
    ensures
        le_u64(le_u64_bytes(v)) == v,
{
    let b = le_u64_bytes(v);
    assert(b[0] == v as u8 && b[1] == (v >> 8u64) as u8 && b[2] == (v >> 16u64) as u8 && b[3] == (v
        >> 24u64) as u8);
    assert(b[4] == (v >> 32u64) as u8 && b[5] == (v >> 40u64) as u8 && b[6] == (v >> 48u64) as u8
        && b[7] == (v >> 56u64) as u8);
    assert(((v as u8) as u64) | ((((v >> 8u64) as u8) as u64) << 8u64) | ((((v >> 16u64) as u8)
        as u64) << 16u64) | ((((v >> 24u64) as u8) as u64) << 24u64) | ((((v >> 32u64) as u8)
        as u64) << 32u64) | ((((v >> 40u64) as u8) as u64) << 40u64) | ((((v >> 48u64) as u8)
        as u64) << 48u64) | ((((v >> 56u64) as u8) as u64) << 56u64) == v) by (bit_vector);
}


/// The little-endian bytes of each word of `vs`, one after the other.
pub open spec fn le_u32s_bytes(vs: Seq<u32>) -> Seq<u8>
    decreases vs.len(),
{
    if vs.len() == 0 {
        Seq::empty()
    } else {
        le_u32s_bytes(vs.drop_last()) + le_u32_bytes(vs.last())
    }
}

/// The little-endian bytes of each word of `vs`, one after the other.
pub open spec fn le_u64s_bytes(vs: Seq<u64>) -> Seq<u8>
    decreases vs.len(),
{
    if vs.len() == 0 {
        Seq::empty()
    } else {
        le_u64s_bytes(vs.drop_last()) + le_u64_bytes(vs.last())
    }
}

/// The `n` little-endian `u32`s stored in `s` from offset `off` on.
pub open spec fn le_u32s_at(s: Seq<u8>, off: int, n: nat) -> Seq<u32> {
    Seq::new(n, |i: int| le_u32(s.subrange(off + 4 * i, off + 4 * i + 4)))
}

/// The `n` little-endian `u64`s stored in `s` from offset `off` on.
pub open spec fn le_u64s_at(s: Seq<u8>, off: int, n: nat) -> Seq<u64> {
    Seq::new(n, |i: int| le_u64(s.subrange(off + 8 * i, off + 8 * i + 8)))
}

pub proof fn lemma_le_u32s_len(vs: Seq<u32>)
    ensures
        le_u32s_bytes(vs).len() == 4 * vs.len(),
    decreases vs.len(),
{
    if vs.len() > 0 {
        lemma_le_u32s_len(vs.drop_last());
    }
}

pub proof fn lemma_le_u64s_len(vs: Seq<u64>)
    ensures
        le_u64s_bytes(vs).len() == 8 * vs.len(),
    decreases vs.len(),
{
    if vs.len() > 0 {
        lemma_le_u64s_len(vs.drop_last());
    }
}

proof fn lemma_le_u32s_chunk(vs: Seq<u32>, i: int)
    requires
        0 <= i < vs.len(),
    ensures
        le_u32s_bytes(vs).subrange(4 * i, 4 * i + 4) == le_u32_bytes(vs[i]),
    decreases vs.len(),
{
    let init = vs.drop_last();
    lemma_le_u32s_len(init);
    if i < vs.len() - 1 {
        lemma_le_u32s_chunk(init, i);
        assert(le_u32s_bytes(vs).subrange(4 * i, 4 * i + 4) =~= le_u32s_bytes(init).subrange(
            4 * i,
            4 * i + 4,
        ));
    } else {
        assert(le_u32s_bytes(vs).subrange(4 * i, 4 * i + 4) =~= le_u32_bytes(vs[i]));
    }
}

proof fn lemma_le_u64s_chunk(vs: Seq<u64>, i: int)
    requires
        0 <= i < vs.len(),
    ensures
        le_u64s_bytes(vs).subrange(8 * i, 8 * i + 8) == le_u64_bytes(vs[i]),
    decreases vs.len(),
{
    let init = vs.drop_last();
    lemma_le_u64s_len(init);
    if i < vs.len() - 1 {
        lemma_le_u64s_chunk(init, i);
        assert(le_u64s_bytes(vs).subrange(8 * i, 8 * i + 8) =~= le_u64s_bytes(init).subrange(
            8 * i,
            8 * i + 8,
        ));
    } else {
        assert(le_u64s_bytes(vs).subrange(8 * i, 8 * i + 8) =~= le_u64_bytes(vs[i]));
    }
}

pub proof fn lemma_i32_u32_round_trip(x: i32)
    ensures
        (x as u32) as i32 == x,
{
    assert((x as u32) as i32 == x) by (bit_vector);
}

/// Words written with `le_u32s_bytes` read back unchanged.
pub proof fn lemma_le_u32s_read_back(s: Seq<u8>, off: int, vs: Seq<u32>)
    requires
        0 <= off,
        off + 4 * vs.len() <= s.len(),
        s.subrange(off, off + 4 * vs.len()) == le_u32s_bytes(vs),
    ensures
        le_u32s_at(s, off, vs.len()) == vs,
{
    assert forall|i: int| 0 <= i < vs.len() implies #[trigger] le_u32s_at(s, off, vs.len())[i]
        == vs[i] by {
        lemma_le_u32s_chunk(vs, i);
        assert(s.subrange(off + 4 * i, off + 4 * i + 4) =~= s.subrange(
            off,
            off + 4 * vs.len(),
        ).subrange(4 * i, 4 * i + 4));
        lemma_le_u32_round_trip(vs[i]);
    }
    assert(le_u32s_at(s, off, vs.len()) =~= vs);
}

/// Words written with `le_u64s_bytes` read back unchanged.
pub proof fn lemma_le_u64s_read_back(s: Seq<u8>, off: int, vs: Seq<u64>)
    requires
        0 <= off,
        off + 8 * vs.len() <= s.len(),
        s.subrange(off, off + 8 * vs.len()) == le_u64s_bytes(vs),
    ensures
        le_u64s_at(s, off, vs.len()) == vs,
{
    assert forall|i: int| 0 <= i < vs.len() implies #[trigger] le_u64s_at(s, off, vs.len())[i]
        == vs[i] by {
        lemma_le_u64s_chunk(vs, i);
        assert(s.subrange(off + 8 * i, off + 8 * i + 8) =~= s.subrange(
            off,
            off + 8 * vs.len(),
        ).subrange(8 * i, 8 * i + 8));
        lemma_le_u64_round_trip(vs[i]);
    }
    assert(le_u64s_at(s, off, vs.len()) =~= vs);
}

/// Relies on byteorder's `LittleEndian::read_u32`: the four bytes at `off`,
/// least significant first.
#[verifier::external_body]
fn le_u32_at(src: &[u8], off: usize) -> (r: u32)
    requires
        off + 4 <= src@.len(),
    ensures
        r == le_u32(src@.subrange(off as int, off + 4)),
{
    LittleEndian::read_u32(&src[off..])
}

/// Relies on byteorder's `BigEndian::read_u32`: the four bytes at `off`,
/// most significant first.
#[verifier::external_body]
fn be_u32_at(src: &[u8], off: usize) -> (r: u32)
    requires
        off + 4 <= src@.len(),
    ensures
        r == be_u32(src@.subrange(off as int, off + 4)),
{
    BigEndian::read_u32(&src[off..])
}

/// Relies on byteorder's `LittleEndian::read_u64`: the eight bytes at `off`,
/// least significant first.
#[verifier::external_body]
fn le_u64_at(src: &[u8], off: usize) -> (r: u64)
    requires
        off + 8 <= src@.len(),
    ensures
        r == le_u64(src@.subrange(off as int, off + 8)),
{
    LittleEndian::read_u64(&src[off..])
}

/// Relies on byteorder's `LittleEndian::write_u32`: `v` least significant byte first.
#[verifier::external_body]
fn le_u32_array(v: u32) -> (r: [u8; 4])
    ensures
        r@ == le_u32_bytes(v),
{
    let mut b = [0u8; 4];
    LittleEndian::write_u32(&mut b, v);
    b
}

/// Relies on byteorder's `BigEndian::write_u32`: `v` most significant byte first.
#[verifier::external_body]
fn be_u32_array(v: u32) -> (r: [u8; 4])
    ensures
        r@ == be_u32_bytes(v),
{
    let mut b = [0u8; 4];
    BigEndian::write_u32(&mut b, v);
    b
}

/// Relies on byteorder's `LittleEndian::write_u64`: `v` least significant byte first.
#[verifier::external_body]
fn le_u64_array(v: u64) -> (r: [u8; 8])
    ensures
        r@ == le_u64_bytes(v),
{
    let mut b = [0u8; 8];
    LittleEndian::write_u64(&mut b, v);
    b
}

/// Appends every byte of `b` to `out`.
pub fn push_bytes(out: &mut Vec<u8>, b: &[u8])
    ensures
        final(out)@ == old(out)@ + b@,
{
    let mut i: usize = 0;
    while i < b.len()
        invariant
            i <= b@.len(),
            out@ == old(out)@ + b@.take(i as int),
        decreases b@.len() - i,
    {
        out.push(b[i]);
        i = i + 1;
        assert(out@ =~= old(out)@ + b@.take(i as int));
    }
    assert(b@.take(b@.len() as int) =~= b@);
}

/// Reads the little-endian `u32` at `off`.
pub fn read_le_u32(src: &[u8], off: usize) -> (r: u32)
    requires
        off + 4 <= src@.len(),
    ensures
        r == le_u32(src@.subrange(off as int, off + 4)),
{
    le_u32_at(src, off)
}

/// Reads the big-endian `u32` at `off`.
pub fn read_be_u32(src: &[u8], off: usize) -> (r: u32)
    requires
        off + 4 <= src@.len(),
    ensures
        r == be_u32(src@.subrange(off as int, off + 4)),
{
    be_u32_at(src, off)
}

/// Reads the little-endian `u64` at `off`.
pub fn read_le_u64(src: &[u8], off: usize) -> (r: u64)
    requires
        off + 8 <= src@.len(),
    ensures
        r == le_u64(src@.subrange(off as int, off + 8)),
{
    le_u64_at(src, off)
}

pub fn write_le_u32(out: &mut Vec<u8>, v: u32)
    ensures
        final(out)@ == old(out)@ + le_u32_bytes(v),
{
    let b = le_u32_array(v);
    push_bytes(out, &b);
}

pub fn write_be_u32(out: &mut Vec<u8>, v: u32)
    ensures
        final(out)@ == old(out)@ + be_u32_bytes(v),
{
    let b = be_u32_array(v);
    push_bytes(out, &b);
}

pub fn write_le_u64(out: &mut Vec<u8>, v: u64)
    ensures
        final(out)@ == old(out)@ + le_u64_bytes(v),
{
    let b = le_u64_array(v);
    push_bytes(out, &b);
}

/// Reads `n` little-endian `u32`s stored from `off` on.
pub fn read_le_u32s(src: &[u8], off: usize, n: usize) -> (r: Vec<u32>)
    requires
        off + 4 * n <= src@.len(),
    ensures
        r@ == le_u32s_at(src@, off as int, n as nat),
{
    let len = src.len();
    let mut r: Vec<u32> = Vec::new();
    let mut i: usize = 0;
    while i < n
        invariant
            i <= n,
            len == src@.len(),
            off + 4 * n <= len,
            r@ == le_u32s_at(src@, off as int, i as nat),
        decreases n - i,
    {
        let v = le_u32_at(src, off + 4 * i);
        r.push(v);
        i = i + 1;
        assert(r@ =~= le_u32s_at(src@, off as int, i as nat));
    }
    r
}

/// Reads `n` little-endian `u64`s stored from `off` on.
pub fn read_le_u64s(src: &[u8], off: usize, n: usize) -> (r: Vec<u64>)
    requires
        off + 8 * n <= src@.len(),
    ensures
        r@ == le_u64s_at(src@, off as int, n as nat),
{
    let len = src.len();
    let mut r: Vec<u64> = Vec::new();
    let mut i: usize = 0;
    while i < n
        invariant
            i <= n,
            len == src@.len(),
            off + 8 * n <= len,
            r@ == le_u64s_at(src@, off as int, i as nat),
        decreases n - i,
    {
        let v = le_u64_at(src, off + 8 * i);
        r.push(v);
        i = i + 1;
        assert(r@ =~= le_u64s_at(src@, off as int, i as nat));
    }
    r
}

/// Appends each word of `vs`, little-endian.
pub fn write_le_u32s(out: &mut Vec<u8>, vs: &[u32])
    ensures
        final(out)@ == old(out)@ + le_u32s_bytes(vs@),
{
    let mut i: usize = 0;
    while i < vs.len()
        invariant
            i <= vs@.len(),
            out@ == old(out)@ + le_u32s_bytes(vs@.take(i as int)),
        decreases vs@.len() - i,
    {
        write_le_u32(out, vs[i]);
        assert(vs@.take(i + 1).drop_last() =~= vs@.take(i as int));
        i = i + 1;
        assert(out@ =~= old(out)@ + le_u32s_bytes(vs@.take(i as int)));
    }
    assert(vs@.take(vs@.len() as int) =~= vs@);
}

/// Appends each word of `vs`, little-endian.
pub fn write_le_u64s(out: &mut Vec<u8>, vs: &[u64])
    ensures
        final(out)@ == old(out)@ + le_u64s_bytes(vs@),
{
    let mut i: usize = 0;
    while i < vs.len()
        invariant
            i <= vs@.len(),
            out@ == old(out)@ + le_u64s_bytes(vs@.take(i as int)),
        decreases vs@.len() - i,
    {
        write_le_u64(out, vs[i]);
        assert(vs@.take(i + 1).drop_last() =~= vs@.take(i as int));
        i = i + 1;
        assert(out@ =~= old(out)@ + le_u64s_bytes(vs@.take(i as int)));
    }
    assert(vs@.take(vs@.len() as int) =~= vs@);
}

} // verus!
