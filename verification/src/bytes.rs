//! Big-endian integers, and writing into a region of a buffer.

use vstd::prelude::*;

verus! {

/// The four bytes of `v`, most significant first.
pub open spec fn be_bytes(v: u32) -> Seq<u8> {
    seq![
        (v / 0x100_0000) as u8,
        (v / 0x1_0000 % 0x100) as u8,
        (v / 0x100 % 0x100) as u8,
        (v % 0x100) as u8,
    ]
}

/// The number that four bytes spell, most significant first.
pub open spec fn be_value(b: Seq<u8>) -> u32
    recommends
        b.len() == 4,
{
    (b[0] * 0x100_0000 + b[1] * 0x1_0000 + b[2] * 0x100 + b[3]) as u32
}

/// The eight bytes of `v`, most significant first.
pub open spec fn be_bytes64(v: u64) -> Seq<u8> {
    be_bytes((v / 0x1_0000_0000) as u32) + be_bytes((v % 0x1_0000_0000) as u32)
}

/// The two's-complement bit pattern of `v`.
pub open spec fn to_unsigned(v: i32) -> u32 {
    if v < 0 {
        (v + 0x1_0000_0000) as u32
    } else {
        v as u32
    }
}

/// The signed number whose two's-complement bit pattern is `v`.
pub open spec fn to_signed(v: u32) -> i32 {
    if v >= 0x8000_0000 {
        (v - 0x1_0000_0000) as i32
    } else {
        v as i32
    }
}

/// `buf` with `bytes` written over it from index `at` on.
pub open spec fn overwrite(buf: Seq<u8>, at: int, bytes: Seq<u8>) -> Seq<u8>
    recommends
        0 <= at,
        at + bytes.len() <= buf.len(),
{
    buf.subrange(0, at) + bytes + buf.subrange(at + bytes.len(), buf.len() as int)
}

/// `n` zero bytes.
pub open spec fn zeros(n: int) -> Seq<u8> {
    Seq::new(n as nat, |i: int| 0u8)
}

/// Reading back what was written gives the number written.
pub proof fn lemma_be_value_of_bytes(v: u32)
    ensures
        be_bytes(v).len() == 4,
        be_value(be_bytes(v)) == v,
{
    let b0 = v / 0x100_0000;
    let b1 = v / 0x1_0000 % 0x100;
    let b2 = v / 0x100 % 0x100;
    let b3 = v % 0x100;
    assert(b0 < 0x100 && b1 < 0x100 && b2 < 0x100 && b3 < 0x100 && b0 * 0x100_0000 + b1 * 0x1_0000
        + b2 * 0x100 + b3 == v) by (bit_vector)
        requires
            b0 == v / 0x100_0000,
            b1 == v / 0x1_0000 % 0x100,
            b2 == v / 0x100 % 0x100,
            b3 == v % 0x100,
    ;
    let b = be_bytes(v);
    assert(b[0] == b0 && b[1] == b1 && b[2] == b2 && b[3] == b3);
}

/// The signed and the unsigned reading of 32 bits determine each other.
pub proof fn lemma_signed_unsigned(v: i32, u: u32)
    ensures
        to_signed(to_unsigned(v)) == v,
        to_unsigned(to_signed(u)) == u,
{
}

/// Overwriting keeps the length, puts `bytes` at `at`, and leaves the rest.
pub proof fn lemma_overwrite(buf: Seq<u8>, at: int, bytes: Seq<u8>)
    requires
        0 <= at,
        at + bytes.len() <= buf.len(),
    ensures
        overwrite(buf, at, bytes).len() == buf.len(),
        overwrite(buf, at, bytes).subrange(at, at + bytes.len()) == bytes,
        forall|i: int| 0 <= i < at ==> overwrite(buf, at, bytes)[i] == buf[i],
        forall|i: int|
            at + bytes.len() <= i < buf.len() ==> overwrite(buf, at, bytes)[i] == buf[i],
{
    assert(overwrite(buf, at, bytes).subrange(at, at + bytes.len()) =~= bytes);
}

/// Writing `second` directly behind `first` writes the two as one.
pub proof fn lemma_overwrite_append(buf: Seq<u8>, at: int, first: Seq<u8>, second: Seq<u8>)
    requires
        0 <= at,
        at + first.len() + second.len() <= buf.len(),
    ensures
        overwrite(overwrite(buf, at, first), at + first.len(), second) == overwrite(
            buf,
            at,
            first + second,
        ),
{
    assert(overwrite(overwrite(buf, at, first), at + first.len(), second) =~= overwrite(
        buf,
        at,
        first + second,
    ));
}

/// The bit pattern of a signed number.
pub fn i32_to_bits(v: i32) -> (u: u32)
    ensures
        u == to_unsigned(v),
{
    if v >= 0 {
        v as u32
    } else {
        let low: i32 = v + 0x7fff_ffff + 1;
        low as u32 + 0x8000_0000
    }
}

/// The signed number with the given bit pattern.
pub fn i32_from_bits(u: u32) -> (v: i32)
    ensures
        v == to_signed(u),
{
    if u < 0x8000_0000 {
        u as i32
    } else {
        let low: u32 = u - 0x8000_0000;
        low as i32 - 0x7fff_ffff - 1
    }
}

/// Reads the big-endian number at `at`, or nothing where four bytes are not
/// there.
pub fn read_be_u32(buf: &[u8], at: usize) -> (r: Option<u32>)
    ensures
        r == if at + 4 <= buf@.len() {
            Some(be_value(buf@.subrange(at as int, at + 4)))
        } else {
            None
        },
{
    if buf.len() < 4 || at > buf.len() - 4 {
        return None;
    }
    let b0: u32 = buf[at] as u32;
    let b1: u32 = buf[at + 1] as u32;
    let b2: u32 = buf[at + 2] as u32;
    let b3: u32 = buf[at + 3] as u32;
    Some(b0 * 0x100_0000 + b1 * 0x1_0000 + b2 * 0x100 + b3)
}

/// Writes `v` as four big-endian bytes at `at`.
pub(crate) fn put_be_u32(buf: &mut [u8], at: usize, v: u32)
    requires
        at + 4 <= old(buf)@.len(),
    ensures
        final(buf)@ == overwrite(old(buf)@, at as int, be_bytes(v)),
{
    buf[at] = (v / 0x100_0000) as u8;
    buf[at + 1] = (v / 0x1_0000 % 0x100) as u8;
    buf[at + 2] = (v / 0x100 % 0x100) as u8;
    buf[at + 3] = (v % 0x100) as u8;
    assert(buf@ =~= overwrite(old(buf)@, at as int, be_bytes(v)));
}

/// Writes `n` zero bytes at `at`.
pub(crate) fn put_zeros(buf: &mut [u8], at: usize, n: usize)
    requires
        at + n <= old(buf)@.len(),
    ensures
        final(buf)@ == overwrite(old(buf)@, at as int, zeros(n as int)),
{
    assert(at + n <= buf.len());
    let mut i: usize = 0;
    while i < n
        invariant
            i <= n,
            at + n <= buf@.len() == old(buf)@.len(),
            at + n <= usize::MAX,
            buf@ == overwrite(old(buf)@, at as int, zeros(i as int)),
        decreases n - i,
    {
        buf[at + i] = 0;
        i += 1;
        assert(buf@ =~= overwrite(old(buf)@, at as int, zeros(i as int)));
    }
}

/// Copies `bytes` to `at`.
pub(crate) fn put_bytes(buf: &mut [u8], at: usize, bytes: &[u8])
    requires
        at + bytes@.len() <= old(buf)@.len(),
    ensures
        final(buf)@ == overwrite(old(buf)@, at as int, bytes@),
{
    let n: usize = bytes.len();
    assert(at + n <= buf.len());
    let mut i: usize = 0;
    while i < n
        invariant
            i <= n,
            n == bytes@.len(),
            at + n <= buf@.len() == old(buf)@.len(),
            at + n <= usize::MAX,
            buf@ == overwrite(old(buf)@, at as int, bytes@.subrange(0, i as int)),
        decreases n - i,
    {
        buf[at + i] = bytes[i];
        i += 1;
        assert(buf@ =~= overwrite(old(buf)@, at as int, bytes@.subrange(0, i as int)));
    }
    assert(bytes@.subrange(0, n as int) =~= bytes@);
}

} // verus!
