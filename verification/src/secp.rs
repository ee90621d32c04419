//! Elliptic-curve operations over secp256k1, behind trusted wrappers.
//!
//! Keys travel through the library as plain bytes: a secret key is 32
//! big-endian bytes of a scalar in `[1, n-1]`, a public key its 33-byte
//! compressed serialization.  The wrapped operations are deterministic
//! functions of those bytes, so their results carry names (`gmul`, `mulp`,
//! `scalar_add_mod`, `ecdsa_der`) that the rest of the library reasons with.

use vstd::prelude::*;

use crate::bytes::sk_valid;

verus! {

/// How an elliptic-curve operation failed.
#[derive(Clone, Copy, PartialEq, Eq, Structural, Debug)]
pub enum SecpError {
    /// The 33 bytes do not encode a curve point.
    InvalidPoint,
    /// The 32 bytes do not encode a scalar below the group order.
    InvalidScalar,
    /// The operation overflowed the group (a result would be the point at
    /// infinity or the zero scalar).
    Overflow,
}

/// The compressed serialization of the scalar multiple `k * G` of the
/// generator; a function of the scalar bytes alone.
pub uninterp spec fn gmul(scalar: Seq<u8>) -> Seq<u8>;

/// The compressed serialization of the scalar multiple `k * P` of the point
/// serialized as `point`; a function of the two byte strings alone.
pub uninterp spec fn mulp(point: Seq<u8>, scalar: Seq<u8>) -> Seq<u8>;

/// The compressed serialization of `P + t * G`; a function of the point and
/// tweak bytes alone.
pub uninterp spec fn paddg(point: Seq<u8>, tweak: Seq<u8>) -> Seq<u8>;

/// The big-endian bytes of `(k + t) mod n`; a function of the two scalars
/// alone.
pub uninterp spec fn scalar_add_mod(k: Seq<u8>, t: Seq<u8>) -> Seq<u8>;

/// The DER serialization of the RFC 6979 deterministic ECDSA signature of a
/// 32-byte digest under a secret key; a function of digest and key alone.
pub uninterp spec fn ecdsa_der(digest: Seq<u8>, key: Seq<u8>) -> Seq<u8>;

/// Relies on secp256k1's SecretKey::from_slice, which accepts exactly the
/// 32-byte values in `[1, n-1]`.
#[verifier::external_body]
pub(crate) fn scalar_check(b: &[u8; 32]) -> (r: bool)
    ensures
        r == sk_valid(b@),
{
    bitcoin::secp256k1::SecretKey::from_slice(b).is_ok()
}

/// Relies on secp256k1's PublicKey::from_secret_key and PublicKey::serialize:
/// the compressed point `k * G`, a function of the valid scalar alone, with a
/// leading parity byte of 2 or 3.
#[verifier::external_body]
pub(crate) fn pubkey_create(k: &[u8; 32]) -> (r: [u8; 33])
    requires
        sk_valid(k@),
    ensures
        r@ == gmul(k@),
        r[0] == 2 || r[0] == 3,
{
    let secp = bitcoin::secp256k1::Secp256k1::new();
    let sk = bitcoin::secp256k1::SecretKey::from_slice(k).expect("scalar is valid");
    bitcoin::secp256k1::PublicKey::from_secret_key(&secp, &sk).serialize()
}

/// Relies on secp256k1's PublicKey::mul_tweak: multiplies the parsed point by
/// the scalar, failing on an invalid point encoding, a tweak at or above the
/// group order, or a zero result.  Scalar multiplication commutes over the
/// generator — `k * (x * G) == x * (k * G)` — which the second clause records
/// for the returned point; multiplying a valid point `x * G` (with
/// `x`, `k` valid scalars) never reaches the point at infinity, which the
/// third clause records.
#[verifier::external_body]
pub(crate) fn point_mul(p: &[u8; 33], k: &[u8; 32]) -> (r: Result<[u8; 33], SecpError>)
    ensures
        r matches Ok(q) ==> q@ == mulp(p@, k@),
        r matches Ok(q) ==> forall|x: Seq<u8>| p@ == gmul(x) ==> q@ == mulp(gmul(k@), x),
        sk_valid(k@) && (exists|x: Seq<u8>| sk_valid(x) && p@ == gmul(x)) ==> r is Ok,
{
    let secp = bitcoin::secp256k1::Secp256k1::new();
    let point = bitcoin::secp256k1::PublicKey::from_slice(p).map_err(
        |_| SecpError::InvalidPoint,
    )?;
    let scalar = bitcoin::secp256k1::Scalar::from_be_bytes(*k).map_err(
        |_| SecpError::InvalidScalar,
    )?;
    let product = point.mul_tweak(&secp, &scalar).map_err(|_| SecpError::Overflow)?;
    Ok(product.serialize())
}

/// Relies on secp256k1's SecretKey::add_tweak and Scalar::from_be_bytes: the
/// sum `(k + t) mod n`, failing exactly on a tweak at or above the group
/// order or on a zero result.  Since `(k + t) * G == k * G + t * G`, the
/// returned scalar's point equals the parent's point tweaked by `t * G`,
/// which the last clause records.
#[verifier::external_body]
pub(crate) fn scalar_add(k: &[u8; 32], t: &[u8; 32]) -> (r: Result<[u8; 32], SecpError>)
    requires
        sk_valid(k@),
    ensures
        r matches Ok(s) ==> s@ == scalar_add_mod(k@, t@) && sk_valid(s@) && gmul(s@) == paddg(
            gmul(k@),
            t@,
        ),
        r is Ok <==> (crate::bytes::nat_of_be(t@) < crate::bytes::secp_order() && (
        crate::bytes::nat_of_be(k@) + crate::bytes::nat_of_be(t@)) % crate::bytes::secp_order()
            != 0),
{
    let sk = bitcoin::secp256k1::SecretKey::from_slice(k).expect("scalar is valid");
    let tweak = bitcoin::secp256k1::Scalar::from_be_bytes(*t).map_err(
        |_| SecpError::InvalidScalar,
    )?;
    let sum = sk.add_tweak(&tweak).map_err(|_| SecpError::Overflow)?;
    Ok(sum.secret_bytes())
}

/// Relies on secp256k1's sign_ecdsa, which signs with the deterministic
/// RFC 6979 nonce: the DER signature is a function of digest and key alone,
/// and signing a 32-byte digest with a valid key cannot fail.
#[verifier::external_body]
pub(crate) fn ecdsa_sign(digest: &[u8; 32], key: &[u8; 32]) -> (r: Result<Vec<u8>, SecpError>)
    ensures
        r matches Ok(s) ==> s@ == ecdsa_der(digest@, key@),
        sk_valid(key@) ==> r is Ok,
{
    let secp = bitcoin::secp256k1::Secp256k1::new();
    let sk = bitcoin::secp256k1::SecretKey::from_slice(key).map_err(
        |_| SecpError::InvalidScalar,
    )?;
    let msg = bitcoin::secp256k1::Message::from_digest(*digest);
    let sig = secp.sign_ecdsa(&msg, &sk);
    Ok(sig.serialize_der().to_vec())
}

} // verus!
