//! Hash primitives.  The digests themselves come from the bitcoin hash
//! library behind trusted wrappers whose results are named; HMAC-SHA512 and
//! HASH160 are built from those digests by verified code.

use vstd::prelude::*;

verus! {

/// The SHA-256 digest of a byte string; a function of the input alone.
pub uninterp spec fn sha256_of(data: Seq<u8>) -> Seq<u8>;

/// The SHA-512 digest of a byte string; a function of the input alone.
pub uninterp spec fn sha512_of(data: Seq<u8>) -> Seq<u8>;

/// The RIPEMD-160 digest of a byte string; a function of the input alone.
pub uninterp spec fn ripemd160_of(data: Seq<u8>) -> Seq<u8>;

/// Relies on bitcoin::hashes::sha256: a 32-byte digest determined by the
/// input bytes alone.
#[verifier::external_body]
pub(crate) fn sha256(data: &[u8]) -> (r: Vec<u8>)
    ensures
        r@ == sha256_of(data@),
        r@.len() == 32,
{
    bitcoin::hashes::Hash::to_byte_array(<bitcoin::hashes::sha256::Hash as bitcoin::hashes::Hash>::hash(data)).to_vec()
}

/// Relies on bitcoin::hashes::sha512: a 64-byte digest determined by the
/// input bytes alone.
#[verifier::external_body]
pub(crate) fn sha512(data: &[u8]) -> (r: Vec<u8>)
    ensures
        r@ == sha512_of(data@),
        r@.len() == 64,
{
    bitcoin::hashes::Hash::to_byte_array(<bitcoin::hashes::sha512::Hash as bitcoin::hashes::Hash>::hash(data)).to_vec()
}

/// Relies on bitcoin::hashes::ripemd160: a 20-byte digest determined by the
/// input bytes alone.
#[verifier::external_body]
pub(crate) fn ripemd160(data: &[u8]) -> (r: Vec<u8>)
    ensures
        r@ == ripemd160_of(data@),
        r@.len() == 20,
{
    bitcoin::hashes::Hash::to_byte_array(<bitcoin::hashes::ripemd160::Hash as bitcoin::hashes::Hash>::hash(data)).to_vec()
}

/// HASH160: RIPEMD-160 of the SHA-256 of the input.
pub open spec fn hash160_of(data: Seq<u8>) -> Seq<u8> {
    ripemd160_of(sha256_of(data))
}

/// Computes HASH160 of the input.
pub fn hash160(data: &[u8]) -> (r: Vec<u8>)
    ensures
        r@ == hash160_of(data@),
        r@.len() == 20,
{
    let inner = sha256(data);
    ripemd160(inner.as_slice())
}

/// The HMAC key, brought to the 128-byte SHA-512 block size: hashed first if
/// longer than a block, then zero-padded.
pub open spec fn hmac512_key_block(key: Seq<u8>) -> Seq<u8> {
    let k0 = if key.len() > 128 {
        sha512_of(key)
    } else {
        key
    };
    Seq::new(128, |i: int| if i < k0.len() { k0[i] } else { 0u8 })
}

/// A 128-byte block XORed with one repeated pad byte.
pub open spec fn xor_pad(block: Seq<u8>, pad: u8) -> Seq<u8> {
    Seq::new(block.len(), |i: int| block[i] ^ pad)
}

/// HMAC-SHA512 over the padded key and the message, by its definition.
pub open spec fn hmac512_of(key: Seq<u8>, data: Seq<u8>) -> Seq<u8> {
    let kb = hmac512_key_block(key);
    sha512_of(xor_pad(kb, 0x5c) + sha512_of(xor_pad(kb, 0x36) + data))
}

/// Computes HMAC-SHA512 from the SHA-512 primitive.
pub fn hmac_sha512(key: &[u8], data: &[u8]) -> (r: Vec<u8>)
    ensures
        r@ == hmac512_of(key@, data@),
        r@.len() == 64,
{
    let mut k0: Vec<u8> = Vec::new();
    if key.len() > 128 {
        k0 = sha512(key);
    } else {
        let mut i: usize = 0;
        while i < key.len()
            invariant
                i <= key@.len(),
                k0@ == key@.take(i as int),
            decreases key@.len() - i,
        {
            k0.push(key[i]);
            proof {
                assert(k0@ =~= key@.take(i as int + 1));
            }
            i = i + 1;
        }
        assert(k0@ =~= key@);
    }
    let ghost k0s = k0@;
    assert(k0s.len() <= 128);
    assert(k0@ =~= Seq::new(k0@.len(), |i: int| if i < k0s.len() {
        k0s[i]
    } else {
        0u8
    }));
    while k0.len() < 128
        invariant
            k0s.len() <= k0@.len() <= 128,
            k0@ == Seq::new(k0@.len(), |i: int| if i < k0s.len() {
                k0s[i]
            } else {
                0u8
            }),
        decreases 128 - k0@.len(),
    {
        k0.push(0u8);
        proof {
            assert(k0@ =~= Seq::new(k0@.len(), |i: int| if i < k0s.len() {
                k0s[i]
            } else {
                0u8
            }));
        }
    }
    let ghost kb = hmac512_key_block(key@);
    proof {
        assert(k0@ =~= kb);
    }
    let mut inner: Vec<u8> = Vec::new();
    let mut outer: Vec<u8> = Vec::new();
    let mut i: usize = 0;
    while i < k0.len()
        invariant
            i <= k0@.len(),
            inner@ == xor_pad(k0@, 0x36).take(i as int),
            outer@ == xor_pad(k0@, 0x5c).take(i as int),
        decreases k0@.len() - i,
    {
        inner.push(k0[i] ^ 0x36);
        outer.push(k0[i] ^ 0x5c);
        proof {
            assert(inner@ =~= xor_pad(k0@, 0x36).take(i as int + 1));
            assert(outer@ =~= xor_pad(k0@, 0x5c).take(i as int + 1));
        }
        i = i + 1;
    }
    assert(inner@ =~= xor_pad(kb, 0x36));
    assert(outer@ =~= xor_pad(kb, 0x5c));
    let mut j: usize = 0;
    while j < data.len()
        invariant
            j <= data@.len(),
            inner@ == xor_pad(kb, 0x36) + data@.take(j as int),
        decreases data@.len() - j,
    {
        inner.push(data[j]);
        proof {
            assert(inner@ =~= xor_pad(kb, 0x36) + data@.take(j as int + 1));
        }
        j = j + 1;
    }
    assert(inner@ =~= xor_pad(kb, 0x36) + data@);
    let inner_hash = sha512(inner.as_slice());
    let mut m: usize = 0;
    while m < inner_hash.len()
        invariant
            m <= inner_hash@.len(),
            outer@ == xor_pad(kb, 0x5c) + inner_hash@.take(m as int),
        decreases inner_hash@.len() - m,
    {
        outer.push(inner_hash[m]);
        proof {
            assert(outer@ =~= xor_pad(kb, 0x5c) + inner_hash@.take(m as int + 1));
        }
        m = m + 1;
    }
    assert(outer@ =~= xor_pad(kb, 0x5c) + sha512_of(xor_pad(kb, 0x36) + data@));
    sha512(outer.as_slice())
}

} // verus!
