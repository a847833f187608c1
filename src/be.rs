//! Big-endian encoding of 32-bit unsigned integers.

use vstd::prelude::*;

verus! {

/// The value of four bytes read as a big-endian unsigned integer.
pub open spec fn be_u32(b: Seq<u8>) -> u32
    recommends
        b.len() == 4,
{
    (b[0] as int * 0x1000000 + b[1] as int * 0x10000 + b[2] as int * 0x100 + b[3] as int) as u32
}

/// The four big-endian bytes of `x`.
pub open spec fn be_bytes(x: u32) -> Seq<u8> {
    seq![
        (x / 0x1000000) as u8,
        ((x / 0x10000) % 0x100) as u8,
        ((x / 0x100) % 0x100) as u8,
        (x % 0x100) as u8,
    ]
}

/// Reading back the bytes of a value gives the value.
pub proof fn lemma_be_u32_of_bytes(x: u32)
    ensures
        be_u32(be_bytes(x)) == x,
{
    let x = x as int;
    assert(x == (x / 0x1000000) * 0x1000000 + ((x / 0x10000) % 0x100) * 0x10000 + ((x / 0x100)
        % 0x100) * 0x100 + x % 0x100) by (nonlinear_arith)
        requires
            0 <= x,
    ;
}

/// Writing out the value of four bytes gives those bytes.
pub proof fn lemma_be_bytes_of_u32(b: Seq<u8>)
    requires
        b.len() == 4,
    ensures
        be_bytes(be_u32(b)) == b,
{
    let (b0, b1, b2, b3) = (b[0] as int, b[1] as int, b[2] as int, b[3] as int);
    let x = b0 * 0x1000000 + b1 * 0x10000 + b2 * 0x100 + b3;
    assert(x / 0x1000000 == b0 && (x / 0x10000) % 0x100 == b1 && (x / 0x100) % 0x100 == b2 && x
        % 0x100 == b3) by (nonlinear_arith)
        requires
            0 <= b0 < 0x100,
            0 <= b1 < 0x100,
            0 <= b2 < 0x100,
            0 <= b3 < 0x100,
            x == b0 * 0x1000000 + b1 * 0x10000 + b2 * 0x100 + b3,
    ;
    assert(be_bytes(be_u32(b)) =~= b);
}

/// Reads the first four bytes of `b` as a big-endian integer.
pub fn read_be_u32(b: &[u8]) -> (r: u32)
    requires
        b@.len() == 4,
    ensures
        r == be_u32(b@),
{
    let r: u32 = (b[0] as u32) * 0x1000000 + (b[1] as u32) * 0x10000 + (b[2] as u32) * 0x100
        + (b[3] as u32);
    r
}

/// Appends the four big-endian bytes of `x` to `out`.
pub fn push_be_u32(out: &mut Vec<u8>, x: u32)
    ensures
        final(out)@ == old(out)@ + be_bytes(x),
{
    out.push((x / 0x1000000) as u8);
    out.push(((x / 0x10000) % 0x100) as u8);
    out.push(((x / 0x100) % 0x100) as u8);
    out.push((x % 0x100) as u8);
    assert(out@ =~= old(out)@ + be_bytes(x));
}

} // verus!
