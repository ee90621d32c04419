//! Byte-level helpers shared by the cryptographic and persistence codecs:
//! big-endian integers, slice copies and fixed-width conversions.

use vstd::prelude::*;

verus! {

/// A `u32` as four big-endian bytes.
pub open spec fn be32(n: u32) -> Seq<u8> {
    seq![(n >> 24) as u8, (n >> 16) as u8, (n >> 8) as u8, n as u8]
}

/// The `u32` read from four big-endian bytes.
pub open spec fn u32_of_be(b: Seq<u8>) -> u32
    recommends
        b.len() == 4,
{
    (((b[0] as u32) << 24) | ((b[1] as u32) << 16) | ((b[2] as u32) << 8) | (b[3] as u32)) as u32
}

/// Reading back the four bytes of a `u32` gives the same value.
pub proof fn lemma_be32_roundtrip(n: u32)
    ensures
        u32_of_be(be32(n)) == n,
{
    let b = be32(n);
    let b0 = b[0];
    let b1 = b[1];
    let b2 = b[2];
    let b3 = b[3];
    assert(b0 == (n >> 24) as u8 && b1 == (n >> 16) as u8 && b2 == (n >> 8) as u8 && b3
        == n as u8);
    assert((((((n >> 24) as u8) as u32) << 24) | ((((n >> 16) as u8) as u32) << 16) | ((((n >> 8)
        as u8) as u32) << 8) | ((n as u8) as u32)) == n) by (bit_vector);
}

/// Four bytes survive being read as a `u32` and written back.
pub proof fn lemma_be32_bytes_roundtrip(b: Seq<u8>)
    requires
        b.len() == 4,
    ensures
        be32(u32_of_be(b)) == b,
{
    let b0 = b[0];
    let b1 = b[1];
    let b2 = b[2];
    let b3 = b[3];
    let n = u32_of_be(b);
    assert(n == ((b0 as u32) << 24 | (b1 as u32) << 16 | (b2 as u32) << 8 | (b3 as u32)) as u32);
    assert({
        let m = ((b0 as u32) << 24 | (b1 as u32) << 16 | (b2 as u32) << 8 | (b3 as u32)) as u32;
        (m >> 24) as u8 == b0 && (m >> 16) as u8 == b1 && (m >> 8) as u8 == b2 && m as u8 == b3
    }) by (bit_vector);
    assert(be32(n) =~= b);
}

/// Appends the big-endian bytes of `n`.
pub fn push_be32(out: &mut Vec<u8>, n: u32)
    ensures
        final(out)@ == old(out)@ + be32(n),
{
    out.push((n >> 24) as u8);
    out.push((n >> 16) as u8);
    out.push((n >> 8) as u8);
    out.push(n as u8);
    assert(final(out)@ =~= old(out)@ + be32(n));
}

/// Reads the big-endian `u32` at `pos`.
pub fn read_be32(data: &Vec<u8>, pos: usize) -> (r: u32)
    requires
        pos + 4 <= data@.len(),
    ensures
        r == u32_of_be(data@.subrange(pos as int, pos as int + 4)),
{
    let n = data.len();
    let r = ((data[pos] as u32) << 24) | ((data[pos + 1] as u32) << 16) | ((data[pos + 2] as u32)
        << 8) | (data[pos + 3] as u32);
    proof {
        let s = data@.subrange(pos as int, pos as int + 4);
        assert(s[0] == data@[pos as int] && s[1] == data@[pos as int + 1] && s[2] == data@[pos as int
            + 2] && s[3] == data@[pos as int + 3]);
    }
    r
}

/// A `u64` as eight big-endian bytes.
pub open spec fn be64(n: u64) -> Seq<u8> {
    seq![
        (n >> 56) as u8,
        (n >> 48) as u8,
        (n >> 40) as u8,
        (n >> 32) as u8,
        (n >> 24) as u8,
        (n >> 16) as u8,
        (n >> 8) as u8,
        n as u8,
    ]
}

/// Appends the big-endian bytes of `n`.
pub fn push_be64(out: &mut Vec<u8>, n: u64)
    ensures
        final(out)@ == old(out)@ + be64(n),
{
    out.push((n >> 56) as u8);
    out.push((n >> 48) as u8);
    out.push((n >> 40) as u8);
    out.push((n >> 32) as u8);
    out.push((n >> 24) as u8);
    out.push((n >> 16) as u8);
    out.push((n >> 8) as u8);
    out.push(n as u8);
    assert(final(out)@ =~= old(out)@ + be64(n));
}

/// The `u64` read from eight big-endian bytes.
pub open spec fn u64_of_be(b: Seq<u8>) -> u64
    recommends
        b.len() == 8,
{
    (((b[0] as u64) << 56) | ((b[1] as u64) << 48) | ((b[2] as u64) << 40) | ((b[3] as u64) << 32)
        | ((b[4] as u64) << 24) | ((b[5] as u64) << 16) | ((b[6] as u64) << 8) | (b[7] as u64))
        as u64
}

/// Reading back the eight bytes of a `u64` gives the same value.
pub proof fn lemma_be64_roundtrip(n: u64)
    ensures
        u64_of_be(be64(n)) == n,
{
    let b = be64(n);
    assert(b[0] == (n >> 56) as u8 && b[1] == (n >> 48) as u8 && b[2] == (n >> 40) as u8 && b[3]
        == (n >> 32) as u8 && b[4] == (n >> 24) as u8 && b[5] == (n >> 16) as u8 && b[6] == (n >> 8)
        as u8 && b[7] == n as u8);
    assert((((((n >> 56) as u8) as u64) << 56) | ((((n >> 48) as u8) as u64) << 48) | ((((n >> 40)
        as u8) as u64) << 40) | ((((n >> 32) as u8) as u64) << 32) | ((((n >> 24) as u8) as u64)
        << 24) | ((((n >> 16) as u8) as u64) << 16) | ((((n >> 8) as u8) as u64) << 8) | ((n as u8)
        as u64)) == n) by (bit_vector);
}

/// Reads the big-endian `u64` at `pos`.
pub fn read_be64(data: &Vec<u8>, pos: usize) -> (r: u64)
    requires
        pos + 8 <= data@.len(),
    ensures
        r == u64_of_be(data@.subrange(pos as int, pos as int + 8)),
{
    let n = data.len();
    let r = ((data[pos] as u64) << 56) | ((data[pos + 1] as u64) << 48) | ((data[pos + 2] as u64)
        << 40) | ((data[pos + 3] as u64) << 32) | ((data[pos + 4] as u64) << 24) | ((data[pos + 5]
        as u64) << 16) | ((data[pos + 6] as u64) << 8) | (data[pos + 7] as u64);
    proof {
        let s = data@.subrange(pos as int, pos as int + 8);
        assert(s[0] == data@[pos as int] && s[1] == data@[pos as int + 1] && s[2] == data@[pos as int
            + 2] && s[3] == data@[pos as int + 3] && s[4] == data@[pos as int + 4] && s[5]
            == data@[pos as int + 5] && s[6] == data@[pos as int + 6] && s[7] == data@[pos as int
            + 7]);
    }
    r
}

/// Appends a slice of bytes.
pub fn push_bytes(out: &mut Vec<u8>, a: &[u8])
    ensures
        final(out)@ == old(out)@ + a@,
{
    let mut i: usize = 0;
    while i < a.len()
        invariant
            i <= a@.len(),
            out@ == old(out)@ + a@.take(i as int),
        decreases a@.len() - i,
    {
        out.push(a[i]);
        proof {
            assert(out@ =~= old(out)@ + a@.take(i as int + 1));
        }
        i = i + 1;
    }
    assert(out@ =~= old(out)@ + a@);
}

/// Copies the byte range `[from, to)` out of the vector.
pub fn sub_vec(data: &Vec<u8>, from: usize, to: usize) -> (r: Vec<u8>)
    requires
        from <= to <= data@.len(),
    ensures
        r@ == data@.subrange(from as int, to as int),
{
    let mut out: Vec<u8> = Vec::new();
    let mut i: usize = from;
    while i < to
        invariant
            from <= i <= to <= data@.len(),
            out@ == data@.subrange(from as int, i as int),
        decreases to - i,
    {
        out.push(data[i]);
        proof {
            assert(out@ =~= data@.subrange(from as int, i as int + 1));
        }
        i = i + 1;
    }
    out
}

/// Relies on std's slice::copy_from_slice, which copies a slice of the
/// array's length into it.
#[verifier::external_body]
pub(crate) fn to_array_4(v: &[u8]) -> (r: [u8; 4])
    requires
        v@.len() == 4,
    ensures
        r@ == v@,
{
    let mut a = [0u8; 4];
    a.copy_from_slice(v);
    a
}

/// Relies on std's slice::copy_from_slice, which copies a slice of the
/// array's length into it.
#[verifier::external_body]
pub(crate) fn to_array_32(v: &[u8]) -> (r: [u8; 32])
    requires
        v@.len() == 32,
    ensures
        r@ == v@,
{
    let mut a = [0u8; 32];
    a.copy_from_slice(v);
    a
}

/// Relies on std's slice::copy_from_slice, which copies a slice of the
/// array's length into it.
#[verifier::external_body]
pub(crate) fn to_array_33(v: &[u8]) -> (r: [u8; 33])
    requires
        v@.len() == 33,
    ensures
        r@ == v@,
{
    let mut a = [0u8; 33];
    a.copy_from_slice(v);
    a
}

/// Whether two byte slices hold the same bytes.
pub fn bytes_eq(a: &[u8], b: &[u8]) -> (r: bool)
    ensures
        r == (a@ == b@),
{
    if a.len() != b.len() {
        proof {
            assert(a@ != b@);
        }
        return false;
    }
    let mut i: usize = 0;
    while i < a.len()
        invariant
            i <= a@.len(),
            a@.len() == b@.len(),
            forall|t: int| 0 <= t < i ==> a@[t] == b@[t],
        decreases a@.len() - i,
    {
        if a[i] != b[i] {
            proof {
                assert(a@[i as int] != b@[i as int]);
            }
            return false;
        }
        i = i + 1;
    }
    proof {
        assert(a@ =~= b@);
    }
    true
}

/// The value of a big-endian byte string as an unbounded natural number.
pub open spec fn nat_of_be(b: Seq<u8>) -> nat
    decreases b.len(),
{
    if b.len() == 0 {
        0
    } else {
        nat_of_be(b.drop_last()) * 256 + b.last() as nat
    }
}

/// The order of the secp256k1 group.
pub open spec fn secp_order() -> nat {
    0xFFFFFFFF_FFFFFFFF_FFFFFFFF_FFFFFFFE_BAAEDCE6_AF48A03B_BFD25E8C_D0364141nat
}

/// Whether 32 bytes are a valid secp256k1 secret-key scalar: non-zero and
/// below the group order.
pub open spec fn sk_valid(b: Seq<u8>) -> bool {
    b.len() == 32 && 1 <= nat_of_be(b) < secp_order()
}

} // verus!
