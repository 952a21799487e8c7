//! Little-endian integers and in-place byte writes.
use vstd::prelude::*;
use byteorder::{ByteOrder, LittleEndian};

verus! {

/// The value of the little-endian `u16` stored at `b[at]`, `b[at + 1]`.
pub open spec fn le_u16(b: Seq<u8>, at: int) -> int {
    b[at] as int + 256 * b[at + 1] as int
}

/// The value of the little-endian `u32` stored at `b[at]` .. `b[at + 3]`.
pub open spec fn le_u32(b: Seq<u8>, at: int) -> int {
    b[at] as int + 256 * (b[at + 1] as int + 256 * (b[at + 2] as int + 256 * b[at + 3] as int))
}

/// The two bytes of `n`, least significant first.
pub open spec fn u16_bytes(n: u16) -> Seq<u8> {
    seq![(n % 256) as u8, (n / 256) as u8]
}

/// The four bytes of `n`, least significant first.
pub open spec fn u32_bytes(n: u32) -> Seq<u8> {
    seq![
        (n % 256) as u8,
        ((n / 256) % 256) as u8,
        ((n / 256 / 256) % 256) as u8,
        (n / 256 / 256 / 256) as u8,
    ]
}

/// `old` after writing `data` at position `at`, as a seekable in-memory
/// writer does it: a gap before `at` is filled with zeros, bytes past the
/// written range are kept.
pub open spec fn place(old: Seq<u8>, at: int, data: Seq<u8>) -> Seq<u8> {
    let end = at + data.len();
    let len = if old.len() > end { old.len() as int } else { end };
    Seq::new(
        len as nat,
        |i: int|
            if at <= i < end {
                data[i - at]
            } else if i < old.len() {
                old[i]
            } else {
                0u8
            },
    )
}

pub proof fn lemma_u16_round_trip(n: u16)
    ensures
        le_u16(u16_bytes(n), 0) == n,
{
    let b = u16_bytes(n);
    assert(b[0] as int == n % 256);
    assert(b[1] as int == n / 256);
}

pub proof fn lemma_u32_round_trip(n: u32)
    ensures
        le_u32(u32_bytes(n), 0) == n,
{
    let b = u32_bytes(n);
    let q1 = n / 256;
    let q2 = q1 / 256;
    let q3 = q2 / 256;
    assert(q3 < 256) by (nonlinear_arith)
        requires
            q1 == n / 256,
            q2 == q1 / 256,
            q3 == q2 / 256,
            n < 0x1_0000_0000,
    ;
    assert(b[0] as int == n % 256);
    assert(b[1] as int == q1 % 256);
    assert(b[2] as int == q2 % 256);
    assert(b[3] as int == q3);
}

/// Relies on byteorder's `LittleEndian::read_u16`, which reads `buf[..2]`
/// with `u16::from_le_bytes`.
#[verifier::external_body]
pub(crate) fn read_u16_at(b: &[u8], at: usize) -> (r: u16)
    requires
        at + 2 <= b@.len(),
    ensures
        r as int == le_u16(b@, at as int),
{
    LittleEndian::read_u16(&b[at..])
}

/// Relies on byteorder's `LittleEndian::read_u32`, which reads `buf[..4]`
/// with `u32::from_le_bytes`.
#[verifier::external_body]
pub(crate) fn read_u32_at(b: &[u8], at: usize) -> (r: u32)
    requires
        at + 4 <= b@.len(),
    ensures
        r as int == le_u32(b@, at as int),
{
    LittleEndian::read_u32(&b[at..])
}

/// Relies on byteorder's `LittleEndian::write_u16`, which stores
/// `n.to_le_bytes()` into `buf[..2]`.
#[verifier::external_body]
pub(crate) fn u16_to_le(n: u16) -> (r: Vec<u8>)
    ensures
        r@ == u16_bytes(n),
{
    let mut buf = vec![0u8; 2];
    LittleEndian::write_u16(&mut buf, n);
    buf
}

/// Relies on byteorder's `LittleEndian::write_u32`, which stores
/// `n.to_le_bytes()` into `buf[..4]`.
#[verifier::external_body]
pub(crate) fn u32_to_le(n: u32) -> (r: Vec<u8>)
    ensures
        r@ == u32_bytes(n),
{
    let mut buf = vec![0u8; 4];
    LittleEndian::write_u32(&mut buf, n);
    buf
}

/// Appends every byte of `data` to `out`.
pub fn push_all(out: &mut Vec<u8>, data: &Vec<u8>)
    ensures
        final(out)@ == old(out)@ + data@,
{
    let mut k: usize = 0;
    while k < data.len()
        invariant
            k <= data@.len(),
            out@ == old(out)@ + data@.subrange(0, k as int),
        decreases data@.len() - k,
    {
        out.push(data[k]);
        k = k + 1;
        assert(out@ =~= old(out)@ + data@.subrange(0, k as int));
    }
    assert(data@.subrange(0, data@.len() as int) =~= data@);
}

/// Writes `data` into `out` starting at position `at`, zero-filling any gap
/// before `at` and growing `out` where the write runs past its end.
pub fn put_bytes(out: &mut Vec<u8>, at: usize, data: &Vec<u8>)
    requires
        at + data@.len() <= usize::MAX,
    ensures
        final(out)@ == place(old(out)@, at as int, data@),
{
    let ghost start = out@;
    while out.len() < at
        invariant
            start.len() <= out@.len() <= at || out@.len() == start.len(),
            forall|i: int| 0 <= i < out@.len() ==> out@[i] == (if i < start.len() { start[i] } else { 0u8 }),
            out@.len() >= start.len(),
        decreases at - out@.len(),
    {
        out.push(0u8);
    }
    let ghost base = out@;
    let mut k: usize = 0;
    while k < data.len()
        invariant
            k <= data@.len(),
            at + data@.len() <= usize::MAX,
            base.len() >= at,
            base.len() >= start.len(),
            forall|i: int| 0 <= i < base.len() ==> base[i] == (if i < start.len() { start[i] } else { 0u8 }),
            out@.len() == if base.len() > at + k { base.len() as int } else { at + k },
            forall|i: int|
                0 <= i < out@.len() ==> out@[i] == (if at <= i < at + k { data@[i - at] } else { base[i] }),
        decreases data@.len() - k,
    {
        if at + k < out.len() {
            out.set(at + k, data[k]);
        } else {
            out.push(data[k]);
        }
        k = k + 1;
    }
    assert(out@ =~= place(start, at as int, data@));
}

} // verus!
