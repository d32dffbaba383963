//! Fixed-width integer encodings used by the particle store and the encoder.
use byteorder::{BigEndian, ByteOrder, LittleEndian};
use vstd::prelude::*;

verus! {

/// The four bytes of `n`, most significant first.
pub open spec fn be_u32(n: u32) -> Seq<u8> {
    seq![
        (n / 0x100_0000) as u8,
        ((n / 0x1_0000) % 0x100) as u8,
        ((n / 0x100) % 0x100) as u8,
        (n % 0x100) as u8,
    ]
}

/// The two bytes of `n`, most significant first.
pub open spec fn be_u16(n: u16) -> Seq<u8> {
    seq![(n / 0x100) as u8, (n % 0x100) as u8]
}

/// The four bytes of `n`, least significant first.
pub open spec fn le_u32(n: u32) -> Seq<u8> {
    seq![
        (n % 0x100) as u8,
        ((n / 0x100) % 0x100) as u8,
        ((n / 0x1_0000) % 0x100) as u8,
        (n / 0x100_0000) as u8,
    ]
}

/// The integer whose little-endian bytes are the first four of `b`.
pub open spec fn le_u32_value(b: Seq<u8>) -> u32 {
    (b[0] as int + 0x100 * b[1] as int + 0x1_0000 * b[2] as int + 0x100_0000 * b[3] as int) as u32
}

/// `n` zero bytes.
pub open spec fn zeros(n: nat) -> Seq<u8> {
    Seq::new(n, |i: int| 0u8)
}

/// Reading back the little-endian bytes of `n` gives `n`.
pub proof fn lemma_le_u32_round_trip(n: u32)
    ensures
        le_u32_value(le_u32(n)) == n,
{
    let b = le_u32(n);
    let b0 = n % 0x100;
    let b1 = (n / 0x100) % 0x100;
    let b2 = (n / 0x1_0000) % 0x100;
    let b3 = n / 0x100_0000;
    assert(b[0] == b0 && b[1] == b1 && b[2] == b2 && b[3] == b3);
    assert(b0 + 0x100 * b1 + 0x1_0000 * b2 + 0x100_0000 * b3 == n) by (nonlinear_arith)
        requires
            b0 == n % 0x100,
            b1 == (n / 0x100) % 0x100,
            b2 == (n / 0x1_0000) % 0x100,
            b3 == n / 0x100_0000,
            n <= 0xffff_ffff,
    ;
}

/// Relies on byteorder's `BigEndian::write_u32`: stores `n` most significant byte first.
#[verifier::external_body]
fn be_u32_bytes(n: u32) -> (r: [u8; 4])
    ensures
        r@ == be_u32(n),
{
    let mut buf = [0u8; 4];
    BigEndian::write_u32(&mut buf, n);
    buf
}

/// Relies on byteorder's `BigEndian::write_u16`: stores `n` most significant byte first.
#[verifier::external_body]
fn be_u16_bytes(n: u16) -> (r: [u8; 2])
    ensures
        r@ == be_u16(n),
{
    let mut buf = [0u8; 2];
    BigEndian::write_u16(&mut buf, n);
    buf
}

/// Relies on byteorder's `LittleEndian::write_u32`: stores `n` least significant byte first.
#[verifier::external_body]
fn le_u32_bytes(n: u32) -> (r: [u8; 4])
    ensures
        r@ == le_u32(n),
{
    let mut buf = [0u8; 4];
    LittleEndian::write_u32(&mut buf, n);
    buf
}

/// Relies on byteorder's `LittleEndian::read_u32`: reads the first four bytes,
/// least significant first (it panics on fewer than four).
#[verifier::external_body]
fn read_le_u32(buf: &[u8]) -> (r: u32)
    requires
        buf@.len() >= 4,
    ensures
        r == le_u32_value(buf@),
{
    LittleEndian::read_u32(buf)
}

/// Appends the big-endian bytes of `n`.
pub fn push_be_u32(out: &mut Vec<u8>, n: u32)
    ensures
        final(out)@ == old(out)@ + be_u32(n),
{
    let b = be_u32_bytes(n);
    out.push(b[0]);
    out.push(b[1]);
    out.push(b[2]);
    out.push(b[3]);
    assert(final(out)@ =~= old(out)@ + be_u32(n));
}

/// Appends the big-endian bytes of `n`.
pub fn push_be_u16(out: &mut Vec<u8>, n: u16)
    ensures
        final(out)@ == old(out)@ + be_u16(n),
{
    let b = be_u16_bytes(n);
    out.push(b[0]);
    out.push(b[1]);
    assert(final(out)@ =~= old(out)@ + be_u16(n));
}

/// Appends `n` zero bytes.
pub fn push_zeros(out: &mut Vec<u8>, n: usize)
    ensures
        final(out)@ == old(out)@ + zeros(n as nat),
{
    let mut i: usize = 0;
    while i < n
        invariant
            i <= n,
            out@ == old(out)@ + zeros(i as nat),
        decreases n - i,
    {
        out.push(0u8);
        i = i + 1;
        assert(out@ =~= old(out)@ + zeros(i as nat));
    }
}

/// Reads the little-endian word that starts at `off` in `buf`.
pub fn word_at(buf: &[u8], off: usize) -> (r: u32)
    requires
        off + 4 <= buf@.len(),
    ensures
        r == le_u32_value(buf@.subrange(off as int, off + 4)),
{
    assert(off + 4 <= buf.len());
    let w = vstd::slice::slice_subrange(buf, off, off + 4);
    read_le_u32(w)
}

/// Overwrites the four bytes at `off` with the little-endian bytes of `n`.
pub fn store_word(buf: &mut Vec<u8>, off: usize, n: u32)
    requires
        off + 4 <= old(buf)@.len(),
    ensures
        final(buf)@ == old(buf)@.subrange(0, off as int) + le_u32(n) + old(buf)@.subrange(
            off + 4,
            old(buf)@.len() as int,
        ),
{
    assert(off + 4 <= buf.len());
    let b = le_u32_bytes(n);
    buf.set(off, b[0]);
    buf.set(off + 1, b[1]);
    buf.set(off + 2, b[2]);
    buf.set(off + 3, b[3]);
    assert(final(buf)@ =~= old(buf)@.subrange(0, off as int) + le_u32(n) + old(buf)@.subrange(
        off + 4,
        old(buf)@.len() as int,
    ));
}

} // verus!
