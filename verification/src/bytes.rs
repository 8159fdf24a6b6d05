//! Little-endian integers inside byte sequences.

use vstd::prelude::*;

verus! {

/// The unsigned 16-bit number stored at `off`, least significant byte first.
pub open spec fn u16_at(s: Seq<u8>, off: int) -> u16 {
    (s[off] + 256 * s[off + 1]) as u16
}

/// The unsigned 32-bit number stored at `off`, least significant byte first.
pub open spec fn u32_at(s: Seq<u8>, off: int) -> u32 {
    (s[off] + 256 * s[off + 1] + 65536 * s[off + 2] + 16777216 * s[off + 3]) as u32
}

/// The unsigned 64-bit number stored at `off`, least significant byte first.
pub open spec fn u64_at(s: Seq<u8>, off: int) -> u64 {
    (u32_at(s, off) + 4294967296 * u32_at(s, off + 4)) as u64
}

/// The two's complement reading of a 64-bit pattern.
pub open spec fn signed64(x: u64) -> i64 {
    if x < 0x8000_0000_0000_0000 {
        x as i64
    } else {
        (x - 0x1_0000_0000_0000_0000) as i64
    }
}

/// The 64-bit pattern of a two's complement number.
pub open spec fn unsigned64(x: i64) -> u64 {
    if x >= 0 {
        x as u64
    } else {
        (x + 0x1_0000_0000_0000_0000) as u64
    }
}

/// The signed 64-bit number stored at `off`, least significant byte first.
pub open spec fn i64_at(s: Seq<u8>, off: int) -> i64 {
    signed64(u64_at(s, off))
}

/// The two bytes of `x`, least significant first.
#[verifier::opaque]
pub open spec fn le16(x: u16) -> Seq<u8> {
    seq![(x % 256) as u8, (x / 256) as u8]
}

/// The four bytes of `x`, least significant first.
#[verifier::opaque]
pub open spec fn le32(x: u32) -> Seq<u8> {
    seq![(x % 256) as u8, (x / 256 % 256) as u8, (x / 65536 % 256) as u8, (x / 16777216) as u8]
}

/// The eight bytes of `x`, least significant first.
#[verifier::opaque]
pub open spec fn le64(x: u64) -> Seq<u8> {
    le32((x % 4294967296) as u32) + le32((x / 4294967296) as u32)
}

/// How many bytes a number takes.
pub broadcast proof fn lemma_le16_len(x: u16)
    ensures
        #[trigger] le16(x).len() == 2,
{
    reveal(le16);
}

/// How many bytes a number takes.
pub broadcast proof fn lemma_le32_len(x: u32)
    ensures
        #[trigger] le32(x).len() == 4,
{
    reveal(le32);
}

/// How many bytes a number takes.
pub broadcast proof fn lemma_le64_len(x: u64)
    ensures
        #[trigger] le64(x).len() == 8,
{
    reveal(le64);
    reveal(le32);
}

pub broadcast group group_le_len {
    lemma_le16_len,
    lemma_le32_len,
    lemma_le64_len,
}

/// `s` with the bytes from `off` on replaced by `b`.
pub open spec fn overlay(s: Seq<u8>, off: int, b: Seq<u8>) -> Seq<u8> {
    Seq::new(s.len(), |i: int| if off <= i < off + b.len() { b[i - off] } else { s[i] })
}

/// `n` zero bytes.
pub open spec fn zeros(n: nat) -> Seq<u8> {
    Seq::new(n, |i: int| 0u8)
}

/// `b` holds the bytes `part` at `off`.
pub open spec fn holds(b: Seq<u8>, off: int, part: Seq<u8>) -> bool {
    0 <= off && off + part.len() <= b.len() && b.subrange(off, off + part.len()) == part
}

/// What holds two parts in a row holds each of them.
pub proof fn lemma_holds_split(b: Seq<u8>, off: int, x: Seq<u8>, y: Seq<u8>)
    requires
        holds(b, off, x + y),
    ensures
        holds(b, off, x),
        holds(b, off + x.len(), y),
{
    let all = b.subrange(off, off + x.len() + y.len());
    assert(b.subrange(off, off + x.len()) =~= x) by {
        assert forall|i: int| 0 <= i < x.len() implies b[off + i] == x[i] by {
            assert(all[i] == (x + y)[i]);
        }
    }
    assert(b.subrange(off + x.len(), off + x.len() + y.len()) =~= y) by {
        assert forall|i: int| 0 <= i < y.len() implies b[off + x.len() + i] == y[i] by {
            assert(all[x.len() + i] == (x + y)[x.len() + i]);
        }
    }
}

/// Writing a 16-bit number and reading it back gives the number.
pub proof fn lemma_le16_reads_back(s: Seq<u8>, off: int, x: u16)
    requires
        0 <= off,
        off + 2 <= s.len(),
        s.subrange(off, off + 2) == le16(x),
    ensures
        u16_at(s, off) == x,
{
    reveal(le16);
    let b = s.subrange(off, off + 2);
    assert(b[0] == s[off] && b[1] == s[off + 1]);
}

/// Writing a 32-bit number and reading it back gives the number.
pub proof fn lemma_le32_reads_back(s: Seq<u8>, off: int, x: u32)
    requires
        0 <= off,
        off + 4 <= s.len(),
        s.subrange(off, off + 4) == le32(x),
    ensures
        u32_at(s, off) == x,
{
    reveal(le32);
    let b = s.subrange(off, off + 4);
    assert(b[0] == s[off] && b[1] == s[off + 1] && b[2] == s[off + 2] && b[3] == s[off + 3]);
}

/// Writing a 64-bit number and reading it back gives the number.
pub proof fn lemma_le64_reads_back(s: Seq<u8>, off: int, x: u64)
    requires
        0 <= off,
        off + 8 <= s.len(),
        s.subrange(off, off + 8) == le64(x),
    ensures
        u64_at(s, off) == x,
{
    reveal(le64);
    broadcast use group_le_len;

    let b = s.subrange(off, off + 8);
    let lo = (x % 4294967296) as u32;
    let hi = (x / 4294967296) as u32;
    assert(s.subrange(off, off + 4) =~= le32(lo)) by {
        assert forall|i: int| 0 <= i < 4 implies s[off + i] == le32(lo)[i] by {
            assert(b[i] == s[off + i]);
        }
    }
    assert(s.subrange(off + 4, off + 8) =~= le32(hi)) by {
        assert forall|i: int| 0 <= i < 4 implies s[off + 4 + i] == le32(hi)[i] by {
            assert(b[4 + i] == s[off + 4 + i]);
        }
    }
    lemma_le32_reads_back(s, off, lo);
    lemma_le32_reads_back(s, off + 4, hi);
}

/// Reads the 16-bit number at `off`.
pub fn read_u16(s: &[u8], off: usize) -> (r: u16)
    requires
        off + 2 <= s@.len(),
    ensures
        r == u16_at(s@, off as int),
{
    s[off] as u16 + 256 * (s[off + 1] as u16)
}

/// Reads the 32-bit number at `off`.
pub fn read_u32(s: &[u8], off: usize) -> (r: u32)
    requires
        off + 4 <= s@.len(),
    ensures
        r == u32_at(s@, off as int),
{
    s[off] as u32 + 256 * (s[off + 1] as u32) + 65536 * (s[off + 2] as u32) + 16777216 * (s[off
        + 3] as u32)
}

/// Reads the 64-bit number at `off`.
pub fn read_u64(s: &[u8], off: usize) -> (r: u64)
    requires
        off + 8 <= s@.len(),
    ensures
        r == u64_at(s@, off as int),
{
    assert(off + 8 <= s.len());
    let lo: u32 = read_u32(s, off);
    let hi: u32 = read_u32(s, off + 4);
    lo as u64 + 4294967296 * (hi as u64)
}

/// Reinterprets a 64-bit pattern as a two's complement number.
pub fn to_signed64(x: u64) -> (r: i64)
    ensures
        r == signed64(x),
{
    if x < 0x8000_0000_0000_0000 {
        x as i64
    } else {
        ((x - 0x8000_0000_0000_0000) as i64) + i64::MIN
    }
}

/// Reinterprets a two's complement number as a 64-bit pattern.
pub fn to_unsigned64(x: i64) -> (r: u64)
    ensures
        r == unsigned64(x),
{
    if x >= 0 {
        x as u64
    } else {
        ((x - i64::MIN) as u64) + 0x8000_0000_0000_0000
    }
}

/// Reads the signed 64-bit number at `off`.
pub fn read_i64(s: &[u8], off: usize) -> (r: i64)
    requires
        off + 8 <= s@.len(),
    ensures
        r == i64_at(s@, off as int),
{
    let bits: u64 = read_u64(s, off);
    to_signed64(bits)
}

/// Writes one byte at `off`.
pub fn put_u8<const N: usize>(buf: &mut [u8; N], off: usize, x: u8)
    requires
        off < N,
    ensures
        final(buf)@ == overlay(old(buf)@, off as int, seq![x]),
{
    buf[off] = x;
    assert(buf@ =~= overlay(old(buf)@, off as int, seq![x]));
}

/// Writes a 16-bit number at `off`.
pub fn put_u16<const N: usize>(buf: &mut [u8; N], off: usize, x: u16)
    requires
        off + 2 <= N,
    ensures
        final(buf)@ == overlay(old(buf)@, off as int, le16(x)),
{
    buf[off] = (x % 256) as u8;
    buf[off + 1] = (x / 256) as u8;
    reveal(le16);
    assert(buf@ =~= overlay(old(buf)@, off as int, le16(x)));
}

/// Writes a 32-bit number at `off`.
pub fn put_u32<const N: usize>(buf: &mut [u8; N], off: usize, x: u32)
    requires
        off + 4 <= N,
    ensures
        final(buf)@ == overlay(old(buf)@, off as int, le32(x)),
{
    buf[off] = (x % 256) as u8;
    buf[off + 1] = (x / 256 % 256) as u8;
    buf[off + 2] = (x / 65536 % 256) as u8;
    buf[off + 3] = (x / 16777216) as u8;
    reveal(le32);
    assert(buf@ =~= overlay(old(buf)@, off as int, le32(x)));
}

/// Writes a 64-bit number at `off`.
pub fn put_u64<const N: usize>(buf: &mut [u8; N], off: usize, x: u64)
    requires
        off + 8 <= N,
    ensures
        final(buf)@ == overlay(old(buf)@, off as int, le64(x)),
{
    put_u32(buf, off, (x % 4294967296) as u32);
    put_u32(buf, off + 4, (x / 4294967296) as u32);
    reveal(le64);
    broadcast use group_le_len;

    assert(buf@ =~= overlay(old(buf)@, off as int, le64(x)));
}

/// Writes `src` at `off`.
pub fn put_bytes<const N: usize>(buf: &mut [u8; N], off: usize, src: &[u8])
    requires
        off + src@.len() <= N,
    ensures
        final(buf)@ == overlay(old(buf)@, off as int, src@),
{
    let n: usize = src.len();
    let mut i: usize = 0;
    while i < n
        invariant
            n == src@.len(),
            i <= n,
            off + n <= N,
            buf@.len() == N,
            buf@ == overlay(old(buf)@, off as int, src@.take(i as int)),
        decreases n - i,
    {
        buf[off + i] = src[i];
        i += 1;
        assert(buf@ =~= overlay(old(buf)@, off as int, src@.take(i as int)));
    }
    assert(src@.take(n as int) =~= src@);
}

/// Whether `s` holds exactly the bytes of `pat` from `off` on.
pub open spec fn bytes_at(s: Seq<u8>, off: int, pat: Seq<u8>) -> bool {
    0 <= off && off + pat.len() <= s.len() && s.subrange(off, off + pat.len()) == pat
}

/// Tests whether `s` holds exactly the bytes of `pat` from `off` on.
pub fn matches_at(s: &[u8], off: usize, pat: &[u8]) -> (r: bool)
    ensures
        r == bytes_at(s@, off as int, pat@),
{
    if off > s.len() || pat.len() > s.len() - off {
        return false;
    }
    let n: usize = pat.len();
    let mut i: usize = 0;
    while i < n
        invariant
            n == pat@.len(),
            i <= n,
            off + n <= s.len(),
            forall|k: int| 0 <= k < i ==> s@[off + k] == pat@[k],
        decreases n - i,
    {
        if s[off + i] != pat[i] {
            assert(s@.subrange(off as int, off + n)[i as int] != pat@[i as int]);
            return false;
        }
        i += 1;
    }
    assert(s@.subrange(off as int, off + n) =~= pat@);
    true
}

/// Copies the bytes from `from` up to `to` into a vector.
pub fn copy_range(s: &[u8], from: usize, to: usize) -> (r: Vec<u8>)
    requires
        from <= to <= s@.len(),
    ensures
        r@ == s@.subrange(from as int, to as int),
{
    let mut out: Vec<u8> = Vec::with_capacity(to - from);
    out.extend_from_slice(&s[from..to]);
    assert(out@ =~= s@.subrange(from as int, to as int));
    out
}

/// The first byte of a number counts least and the last one most.
pub proof fn law_least_significant_first(s: Seq<u8>, off: int)
    ensures
        u16_at(s, off) % 256 == s[off],
        u16_at(s, off) / 256 == s[off + 1],
        u32_at(s, off) % 65536 == u16_at(s, off),
        u32_at(s, off) / 65536 == u16_at(s, off + 2),
        u64_at(s, off) % 4294967296 == u32_at(s, off),
        u64_at(s, off) / 4294967296 == u32_at(s, off + 4),
{
}

/// Writing over a part of some bytes changes that part alone.
pub proof fn law_overlay_keeps_the_rest(s: Seq<u8>, off: int, b: Seq<u8>)
    requires
        0 <= off,
        off + b.len() <= s.len(),
    ensures
        overlay(s, off, b).len() == s.len(),
        overlay(s, off, b).subrange(off, off + b.len()) == b,
        overlay(s, off, b).subrange(0, off) == s.subrange(0, off),
        overlay(s, off, b).skip(off + b.len()) == s.skip(off + b.len()),
{
    assert(overlay(s, off, b).subrange(off, off + b.len()) =~= b);
    assert(overlay(s, off, b).subrange(0, off) =~= s.subrange(0, off));
    assert(overlay(s, off, b).skip(off + b.len()) =~= s.skip(off + b.len()));
}

/// Bytes stand at a place if and only if each of them does.
pub proof fn law_bytes_stand_there(s: Seq<u8>, off: int, b: Seq<u8>)
    requires
        0 <= off,
    ensures
        bytes_at(s, off, b) <==> off + b.len() <= s.len() && forall|i: int|
            0 <= i < b.len() ==> s[off + i] == #[trigger] b[i],
{
    if bytes_at(s, off, b) {
        let part = s.subrange(off, off + b.len());
        assert forall|i: int| 0 <= i < b.len() implies s[off + i] == #[trigger] b[i] by {
            assert(part[i] == s[off + i]);
        }
    }
    if off + b.len() <= s.len() && forall|i: int|
        0 <= i < b.len() ==> s[off + i] == #[trigger] b[i] {
        assert(s.subrange(off, off + b.len()) =~= b);
    }
}

} // verus!
