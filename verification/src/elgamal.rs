//! Length-preserving ElGamal-style encryption over secp256k1.
//!
//! The plaintext is padded to 32-byte blocks; the pad stores its own length
//! so decryption is exact.  A one-time blinding scalar `b` and the holder's
//! encryption key `P` yield the shared point `b * P`; each block is XORed
//! with a keystream block derived by hashing the shared point together with
//! the block counter.  The ephemeral element `b * G` travels out of band (the
//! `unblinding` field of the enclosing account): decryption reconstructs the
//! same shared point as `d * (b * G)` from the decryption key `d` when
//! `P == d * G`.

use vstd::prelude::*;

use crate::bytes::{be64, sk_valid};
use crate::hashes::{sha256, sha256_of};
use crate::secp::{gmul, mulp, point_mul, SecpError};

verus! {

/// Encryption and decryption failures.
#[derive(Clone, Copy, PartialEq, Eq, Structural, Debug)]
pub enum Error {
    /// The encrypted message length is not a positive multiple of 32 bytes.
    UnpaddedLength,
    /// The encrypted message is internally inconsistent: it does not end in
    /// a well-formed pad once decrypted.
    InvalidEncryptedMessage,
    /// An elliptic-curve operation overflowed the group.
    GroupOverflow,
    /// Memory for the worked-on message could not be allocated.
    NotEnoughMemory,
    /// The curve library failed in an unexpected way.
    Secp256k1Broken,
}

/// The message padded to a positive multiple of 32 bytes: between 1 and 32
/// bytes are appended, each holding the number of bytes appended.
pub open spec fn pad32(m: Seq<u8>) -> Seq<u8> {
    let k = 32 - (m.len() as int % 32);
    m + Seq::new(k as nat, |i: int| k as u8)
}

/// Strips the pad written by [`pad32`]: the last byte gives the pad length,
/// and every pad byte must equal it.  `None` when the bytes cannot have been
/// produced by [`pad32`].
pub open spec fn unpad32(p: Seq<u8>) -> Option<Seq<u8>> {
    if p.len() > 0 && p.len() % 32 == 0 {
        let k = p.last() as int;
        if 1 <= k <= 32 && k <= p.len() && (forall|i: int|
            p.len() - k <= i < p.len() ==> p[i] == k as u8) {
            Some(p.take(p.len() - k))
        } else {
            None
        }
    } else {
        None
    }
}

/// Unpadding undoes padding.
pub proof fn lemma_unpad_pad(m: Seq<u8>)
    ensures
        unpad32(pad32(m)) == Some(m),
{
    let k = 32 - (m.len() as int % 32);
    let p = pad32(m);
    assert(p.len() == m.len() + k);
    assert((m.len() + k) as int % 32 == 0) by {
        assert(m.len() as int % 32 + k == 32);
        assert((m.len() as int + k) % 32 == 0) by (nonlinear_arith)
            requires
                k == 32 - (m.len() as int % 32),
                m.len() >= 0,
        ;
    }
    assert(p.last() == k as u8);
    assert(forall|i: int| p.len() - k <= i < p.len() ==> p[i] == k as u8);
    assert(p.take(p.len() - k) =~= m);
}

/// One byte of the keystream: byte `i % 32` of the SHA-256 digest of the
/// shared point followed by the 8-byte big-endian block counter `i / 32`.
pub open spec fn keystream_byte(shared: Seq<u8>, i: int) -> u8 {
    sha256_of(shared + be64((i / 32) as u64))[i % 32]
}

/// The data XORed with the keystream drawn from the shared point.
pub open spec fn eg_apply(shared: Seq<u8>, data: Seq<u8>) -> Seq<u8> {
    Seq::new(data.len(), |i: int| data[i] ^ keystream_byte(shared, i))
}

/// Applying the keystream twice gives the data back.
pub proof fn lemma_eg_apply_involution(shared: Seq<u8>, data: Seq<u8>)
    ensures
        eg_apply(shared, eg_apply(shared, data)) == data,
{
    let x = eg_apply(shared, eg_apply(shared, data));
    assert forall|i: int| 0 <= i < data.len() implies x[i] == data[i] by {
        let dv = data[i];
        let kv = keystream_byte(shared, i);
        assert((dv ^ kv) ^ kv == dv) by (bit_vector);
    }
    assert(x =~= data);
}

/// The ciphertext for message `m` under the shared point: the padded message
/// XORed with the keystream.
pub open spec fn eg_encrypt(m: Seq<u8>, shared: Seq<u8>) -> Seq<u8> {
    eg_apply(shared, pad32(m))
}

/// The message recovered from ciphertext `c` under the shared point, `None`
/// when the length or the pad is wrong.
pub open spec fn eg_decrypt(c: Seq<u8>, shared: Seq<u8>) -> Option<Seq<u8>> {
    if c.len() > 0 && c.len() % 32 == 0 {
        unpad32(eg_apply(shared, c))
    } else {
        None
    }
}

/// Decrypting an encryption with the same shared point returns the message:
/// the round trip holds for every message and every shared point.
pub proof fn lemma_eg_round_trip(m: Seq<u8>, shared: Seq<u8>)
    ensures
        eg_decrypt(eg_encrypt(m, shared), shared) == Some(m),
{
    let p = pad32(m);
    let c = eg_encrypt(m, shared);
    assert(c.len() == p.len());
    lemma_unpad_pad(m);
    assert(p.len() > 0 && p.len() as int % 32 == 0);
    lemma_eg_apply_involution(shared, p);
    assert(eg_apply(shared, c) == p);
}

/// Maps a curve failure to an encryption error: an overflow keeps its
/// meaning, anything else is an unexpected library failure.
fn secp_error(e: SecpError) -> (r: Error)
    ensures
        r == (if e is Overflow {
            Error::GroupOverflow
        } else {
            Error::Secp256k1Broken
        }),
{
    match e {
        SecpError::Overflow => Error::GroupOverflow,
        SecpError::InvalidPoint => Error::Secp256k1Broken,
        SecpError::InvalidScalar => Error::Secp256k1Broken,
    }
}

/// XORs `data` with the keystream drawn from the shared point.
fn apply_keystream(shared: &[u8; 33], data: &Vec<u8>) -> (r: Vec<u8>)
    requires
        data@.len() % 32 == 0,
    ensures
        r@ == eg_apply(shared@, data@),
{
    let mut out: Vec<u8> = Vec::new();
    let dn = data.len();
    let nblocks = data.len() / 32;
    let mut j: usize = 0;
    while j < nblocks
        invariant
            data@.len() % 32 == 0,
            dn == data@.len(),
            nblocks == data@.len() / 32,
            j <= nblocks,
            out@ == eg_apply(shared@, data@).take(32 * j as int),
        decreases nblocks - j,
    {
        let mut block_input: Vec<u8> = Vec::new();
        let mut t: usize = 0;
        while t < 33
            invariant
                t <= 33,
                block_input@ == shared@.take(t as int),
            decreases 33 - t,
        {
            block_input.push(shared[t]);
            proof {
                assert(block_input@ =~= shared@.take(t as int + 1));
            }
            t = t + 1;
        }
        assert(block_input@ =~= shared@);
        crate::bytes::push_be64(&mut block_input, j as u64);
        let ks = sha256(block_input.as_slice());
        let mut i: usize = 0;
        proof {
            assert(32 * (j as int) + 32 <= data@.len()) by (nonlinear_arith)
                requires
                    data@.len() % 32 == 0,
                    0 <= (j as int) < data@.len() / 32,
            ;
        }
        while i < 32
            invariant
                i <= 32,
                j < nblocks,
                data@.len() % 32 == 0,
                dn == data@.len(),
                nblocks == data@.len() / 32,
                32 * (j as int) + 32 <= data@.len(),
                ks@ == sha256_of(shared@ + be64(j as u64)),
                ks@.len() == 32,
                out@ == eg_apply(shared@, data@).take(32 * j as int + i as int),
            decreases 32 - i,
        {
            let pos = 32 * j + i;
            proof {
                assert((32 * (j as int) + i as int) / 32 == j as int && (32 * (j as int) + i as int)
                    % 32 == i as int) by (nonlinear_arith)
                    requires
                        0 <= i < 32,
                        0 <= j as int,
                ;
            }
            out.push(data[pos] ^ ks[i]);
            proof {
                assert(out@ =~= eg_apply(shared@, data@).take(32 * j as int + i as int + 1));
            }
            i = i + 1;
        }
        j = j + 1;
    }
    proof {
        assert(32 * (nblocks as int) == data@.len()) by (nonlinear_arith)
            requires
                data@.len() % 32 == 0,
                nblocks == data@.len() / 32,
        ;
        assert(out@ =~= eg_apply(shared@, data@));
    }
    out
}

/// Encrypts `message` for the holder of the secret counterpart of
/// `encryption_key`, using the one-time blinding scalar `blinding`.  The
/// caller keeps `blinding`'s public half as the unblinding key and wipes the
/// scalar.
pub fn encrypt(message: &Vec<u8>, encryption_key: &[u8; 33], blinding: &[u8; 32]) -> (r: Result<
    Vec<u8>,
    Error,
>)
    requires
        message@.len() + 32 <= usize::MAX,
    ensures
        r matches Ok(c) ==> c@ == eg_encrypt(message@, mulp(encryption_key@, blinding@)),
        r matches Ok(c) ==> forall|d: Seq<u8>| encryption_key@ == gmul(d) ==> c@ == eg_encrypt(
            message@,
            mulp(gmul(blinding@), d),
        ),
        sk_valid(blinding@) && (exists|x: Seq<u8>|
            sk_valid(x) && encryption_key@ == gmul(x)) ==> r is Ok,
        r matches Err(e) ==> (e == Error::GroupOverflow || e == Error::Secp256k1Broken),
{
    let shared = match point_mul(encryption_key, blinding) {
        Ok(s) => s,
        Err(e) => {
            return Err(secp_error(e));
        },
    };
    let mut padded: Vec<u8> = Vec::new();
    let mut i: usize = 0;
    while i < message.len()
        invariant
            i <= message@.len(),
            padded@ == message@.take(i as int),
        decreases message@.len() - i,
    {
        padded.push(message[i]);
        proof {
            assert(padded@ =~= message@.take(i as int + 1));
        }
        i = i + 1;
    }
    assert(padded@ =~= message@);
    let k = 32 - (message.len() % 32);
    let ghost ks = k as int;
    let mut c: usize = 0;
    while c < k
        invariant
            c <= k,
            message@.len() + 32 <= usize::MAX,
            ks == k as int,
            1 <= ks <= 32,
            ks == 32 - (message@.len() as int % 32),
            padded@ == message@ + Seq::new(c as nat, |i: int| ks as u8),
        decreases k - c,
    {
        padded.push(k as u8);
        proof {
            assert(padded@ =~= message@ + Seq::new(c as nat + 1, |i: int| ks as u8));
        }
        c = c + 1;
    }
    assert(padded@ =~= pad32(message@));
    proof {
        assert(pad32(message@).len() as int % 32 == 0) by (nonlinear_arith)
            requires
                pad32(message@).len() == message@.len() + 32 - (message@.len() as int % 32),
                message@.len() >= 0,
        ;
    }
    Ok(apply_keystream(&shared, &padded))
}

/// Decrypts a ciphertext with the decryption key `d` and the stored
/// unblinding point `b * G`, reconstructing the shared point `d * (b * G)`.
/// The caller wipes the decryption key.
pub fn decrypt(cipher: &Vec<u8>, decryption_key: &[u8; 32], unblinding: &[u8; 33]) -> (r: Result<
    Vec<u8>,
    Error,
>)
    ensures
        r matches Ok(m) ==> Some(m@) == eg_decrypt(cipher@, mulp(unblinding@, decryption_key@)),
        cipher@.len() == 0 || cipher@.len() % 32 != 0 ==> r == Err::<Vec<u8>, Error>(
            Error::UnpaddedLength,
        ),
        (cipher@.len() > 0 && cipher@.len() % 32 == 0 && sk_valid(decryption_key@) && (exists|
            x: Seq<u8>,
        |
            sk_valid(x) && unblinding@ == gmul(x))) ==> (if eg_decrypt(
            cipher@,
            mulp(unblinding@, decryption_key@),
        ) is Some {
            r is Ok
        } else {
            r == Err::<Vec<u8>, Error>(Error::InvalidEncryptedMessage)
        }),
{
    if cipher.len() == 0 || cipher.len() % 32 != 0 {
        return Err(Error::UnpaddedLength);
    }
    let shared = match point_mul(unblinding, decryption_key) {
        Ok(s) => s,
        Err(e) => {
            return Err(secp_error(e));
        },
    };
    let mut plain = apply_keystream(&shared, cipher);
    assert(plain@ == eg_apply(shared@, cipher@));
    let ghost dec = eg_apply(shared@, cipher@);
    // Validate and strip the pad
    let n = plain.len();
    assert(n == cipher@.len());
    let k = plain[n - 1];
    proof {
        assert(dec.last() == k);
    }
    if k < 1 || k > 32 {
        proof {
            assert(unpad32(dec) is None);
        }
        return Err(Error::InvalidEncryptedMessage);
    }
    let kl = k as usize;
    if kl > n {
        proof {
            assert(unpad32(dec) is None);
        }
        return Err(Error::InvalidEncryptedMessage);
    }
    let mut i: usize = n - kl;
    while i < n
        invariant
            n - kl <= i <= n,
            n == plain@.len(),
            kl <= n,
            n > 0,
            n as int % 32 == 0,
            cipher@.len() == n,
            shared@ == mulp(unblinding@, decryption_key@),
            plain@ == dec,
            dec == eg_apply(shared@, cipher@),
            dec.last() == k,
            forall|t: int| n - kl <= t < i ==> plain@[t] == k,
            1 <= k <= 32,
            kl == k as int,
        decreases n - i,
    {
        if plain[i] != k {
            proof {
                assert(dec[i as int] != k);
                assert(!(forall|t: int|
                    dec.len() - k as int <= t < dec.len() ==> dec[t] == k as u8));
                assert(unpad32(dec) is None);
            }
            return Err(Error::InvalidEncryptedMessage);
        }
        i = i + 1;
    }
    proof {
        assert(unpad32(dec) == Some(dec.take(dec.len() - k as int)));
    }
    plain.truncate(n - kl);
    proof {
        assert(plain@ =~= dec.take(dec.len() - k as int));
    }
    Ok(plain)
}

} // verus!
