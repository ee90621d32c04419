//! BIP32 hierarchical-deterministic keys: the 78-byte extended-key layout,
//! master-key generation from a seed, hardened and unhardened child-key
//! derivation, and neutering a private key into its public counterpart.
//!
//! Key bytes are plain values; the scalar and point arithmetic behind each
//! derivation step is performed by the curve wrappers.

use vstd::prelude::*;

use crate::bytes::{
    be32, bytes_eq, nat_of_be, push_be32, push_bytes, read_be32, secp_order, sk_valid, sub_vec,
    to_array_32, to_array_33, to_array_4,
};
use crate::hashes::{hash160, hash160_of, hmac512_of, hmac_sha512};
use crate::secp::{gmul, paddg, pubkey_create, scalar_add, scalar_add_mod, scalar_check};
use crate::slip132::pub_version_of;

verus! {

/// A failure of key generation or derivation.
#[derive(Clone, Copy, PartialEq, Eq, Structural, Debug)]
pub enum Error {
    /// The seed hashed to a scalar outside the group; fresh entropy must be
    /// drawn.
    KeyOutOfRange,
    /// A derivation step left the group: the step's scalar was out of range
    /// or the child key would be zero.
    GroupOverflow,
    /// A child key would exceed the maximum BIP32 depth of 255.
    MaximumDepth,
    /// The extended key's version bytes are not a private entry of the
    /// SLIP-132 table.
    ResolverFailure,
}

/// An extended public key: version bytes, position in the tree, chain code
/// and the compressed curve point.
#[derive(Clone, Copy, Debug)]
pub struct XPub {
    pub version: u32,
    pub depth: u8,
    pub parent_fingerprint: [u8; 4],
    pub child_number: u32,
    pub chain_code: [u8; 32],
    pub pubkey: [u8; 33],
}

/// The mathematical content of an [`XPub`], with byte strings as sequences.
#[verifier::ext_equal]
pub ghost struct XPubView {
    pub version: u32,
    pub depth: u8,
    pub parent_fingerprint: Seq<u8>,
    pub child_number: u32,
    pub chain_code: Seq<u8>,
    pub pubkey: Seq<u8>,
}

impl View for XPub {
    type V = XPubView;

    open spec fn view(&self) -> XPubView {
        XPubView {
            version: self.version,
            depth: self.depth,
            parent_fingerprint: self.parent_fingerprint@,
            child_number: self.child_number,
            chain_code: self.chain_code@,
            pubkey: self.pubkey@,
        }
    }
}

/// An extended private key: version bytes, position in the tree, chain code
/// and the secret scalar.
#[derive(Clone, Copy, Debug)]
pub struct XPriv {
    pub version: u32,
    pub depth: u8,
    pub parent_fingerprint: [u8; 4],
    pub child_number: u32,
    pub chain_code: [u8; 32],
    pub seckey: [u8; 32],
}

/// The mathematical content of an [`XPriv`], with byte strings as sequences.
#[verifier::ext_equal]
pub ghost struct XPrivView {
    pub version: u32,
    pub depth: u8,
    pub parent_fingerprint: Seq<u8>,
    pub child_number: u32,
    pub chain_code: Seq<u8>,
    pub seckey: Seq<u8>,
}

impl View for XPriv {
    type V = XPrivView;

    open spec fn view(&self) -> XPrivView {
        XPrivView {
            version: self.version,
            depth: self.depth,
            parent_fingerprint: self.parent_fingerprint@,
            child_number: self.child_number,
            chain_code: self.chain_code@,
            seckey: self.seckey@,
        }
    }
}

/// Whether the field sequences of the view have their serialized widths.
pub open spec fn xpriv_view_wf(v: XPrivView) -> bool {
    v.parent_fingerprint.len() == 4 && v.chain_code.len() == 32 && v.seckey.len() == 32
}

/// Whether the field sequences of the view have their serialized widths.
pub open spec fn xpub_view_wf(v: XPubView) -> bool {
    v.parent_fingerprint.len() == 4 && v.chain_code.len() == 32 && v.pubkey.len() == 33
}

/// The 78-byte BIP32 serialization of an extended private key; the 33-byte
/// key slot carries a zero byte before the 32-byte scalar.
pub open spec fn xpriv_encode(v: XPrivView) -> Seq<u8> {
    be32(v.version) + seq![v.depth] + v.parent_fingerprint + be32(v.child_number) + v.chain_code
        + seq![0u8] + v.seckey
}

/// The 78-byte BIP32 serialization of an extended public key.
pub open spec fn xpub_encode(v: XPubView) -> Seq<u8> {
    be32(v.version) + seq![v.depth] + v.parent_fingerprint + be32(v.child_number) + v.chain_code
        + v.pubkey
}

/// Two well-formed views with the same serialization are the same view.
pub proof fn lemma_xpriv_encode_injective(a: XPrivView, b: XPrivView)
    requires
        xpriv_view_wf(a),
        xpriv_view_wf(b),
        xpriv_encode(a) == xpriv_encode(b),
    ensures
        a == b,
{
    let ea = xpriv_encode(a);
    let eb = xpriv_encode(b);
    assert(ea.len() == 78 && eb.len() == 78);
    assert(ea.subrange(0, 4) =~= be32(a.version));
    assert(eb.subrange(0, 4) =~= be32(b.version));
    crate::bytes::lemma_be32_roundtrip(a.version);
    crate::bytes::lemma_be32_roundtrip(b.version);
    assert(a.version == b.version);
    assert(a.depth == ea[4] && b.depth == eb[4]);
    assert(a.parent_fingerprint =~= ea.subrange(5, 9));
    assert(b.parent_fingerprint =~= eb.subrange(5, 9));
    assert(ea.subrange(9, 13) =~= be32(a.child_number));
    assert(eb.subrange(9, 13) =~= be32(b.child_number));
    crate::bytes::lemma_be32_roundtrip(a.child_number);
    crate::bytes::lemma_be32_roundtrip(b.child_number);
    assert(a.child_number == b.child_number);
    assert(a.chain_code =~= ea.subrange(13, 45));
    assert(b.chain_code =~= eb.subrange(13, 45));
    assert(a.seckey =~= ea.subrange(46, 78));
    assert(b.seckey =~= eb.subrange(46, 78));
    assert(a =~= b);
}

/// Serializes an extended private key.
pub fn encode_xpriv(x: &XPriv) -> (r: Vec<u8>)
    ensures
        r@ == xpriv_encode(x@),
        r@.len() == 78,
{
    let mut out: Vec<u8> = Vec::new();
    push_be32(&mut out, x.version);
    out.push(x.depth);
    push_bytes(&mut out, &x.parent_fingerprint);
    push_be32(&mut out, x.child_number);
    push_bytes(&mut out, &x.chain_code);
    out.push(0u8);
    push_bytes(&mut out, &x.seckey);
    proof {
        assert(out@ =~= xpriv_encode(x@));
    }
    out
}

/// Serializes an extended public key.
pub fn encode_xpub(x: &XPub) -> (r: Vec<u8>)
    ensures
        r@ == xpub_encode(x@),
        r@.len() == 78,
{
    let mut out: Vec<u8> = Vec::new();
    push_be32(&mut out, x.version);
    out.push(x.depth);
    push_bytes(&mut out, &x.parent_fingerprint);
    push_be32(&mut out, x.child_number);
    push_bytes(&mut out, &x.chain_code);
    push_bytes(&mut out, &x.pubkey);
    proof {
        assert(out@ =~= xpub_encode(x@));
    }
    out
}

/// Whether 78 bytes are a well-formed extended-private-key serialization:
/// a zero byte heads the key slot and the scalar is in range.
pub open spec fn xpriv_bytes_ok(d: Seq<u8>) -> bool {
    d.len() == 78 && d[45] == 0 && sk_valid(d.subrange(46, 78))
}

/// The extended private key written in a 78-byte serialization.
pub open spec fn xpriv_of_bytes(d: Seq<u8>) -> XPrivView {
    XPrivView {
        version: crate::bytes::u32_of_be(d.subrange(0, 4)),
        depth: d[4],
        parent_fingerprint: d.subrange(5, 9),
        child_number: crate::bytes::u32_of_be(d.subrange(9, 13)),
        chain_code: d.subrange(13, 45),
        seckey: d.subrange(46, 78),
    }
}

/// Reading a well-formed serialization back gives a well-formed view that
/// serializes to the very same bytes.
pub proof fn lemma_xpriv_of_bytes_encode(d: Seq<u8>)
    requires
        xpriv_bytes_ok(d),
    ensures
        xpriv_encode(xpriv_of_bytes(d)) == d,
        xpriv_view_wf(xpriv_of_bytes(d)),
        sk_valid(xpriv_of_bytes(d).seckey),
{
    let v = xpriv_of_bytes(d);
    crate::bytes::lemma_be32_bytes_roundtrip(d.subrange(0, 4));
    crate::bytes::lemma_be32_bytes_roundtrip(d.subrange(9, 13));
    assert(xpriv_encode(v) =~= d);
}

/// Serializing and reading back returns the same view.
pub proof fn lemma_xpriv_of_encode(v: XPrivView)
    requires
        xpriv_view_wf(v),
    ensures
        xpriv_of_bytes(xpriv_encode(v)) == v,
{
    let d = xpriv_encode(v);
    assert(d.subrange(0, 4) =~= be32(v.version));
    assert(d.subrange(9, 13) =~= be32(v.child_number));
    crate::bytes::lemma_be32_roundtrip(v.version);
    crate::bytes::lemma_be32_roundtrip(v.child_number);
    assert(d.subrange(5, 9) =~= v.parent_fingerprint);
    assert(d.subrange(13, 45) =~= v.chain_code);
    assert(d.subrange(46, 78) =~= v.seckey);
    assert(xpriv_of_bytes(d) =~= v);
}

/// Two well-formed public views with the same serialization are the same
/// view.
pub proof fn lemma_xpub_encode_injective(a: XPubView, b: XPubView)
    requires
        xpub_view_wf(a),
        xpub_view_wf(b),
        xpub_encode(a) == xpub_encode(b),
    ensures
        a == b,
{
    let ea = xpub_encode(a);
    let eb = xpub_encode(b);
    assert(ea.len() == 78 && eb.len() == 78);
    assert(ea.subrange(0, 4) =~= be32(a.version));
    assert(eb.subrange(0, 4) =~= be32(b.version));
    crate::bytes::lemma_be32_roundtrip(a.version);
    crate::bytes::lemma_be32_roundtrip(b.version);
    assert(a.depth == ea[4] && b.depth == eb[4]);
    assert(a.parent_fingerprint =~= ea.subrange(5, 9));
    assert(b.parent_fingerprint =~= eb.subrange(5, 9));
    assert(ea.subrange(9, 13) =~= be32(a.child_number));
    assert(eb.subrange(9, 13) =~= be32(b.child_number));
    crate::bytes::lemma_be32_roundtrip(a.child_number);
    crate::bytes::lemma_be32_roundtrip(b.child_number);
    assert(a.chain_code =~= ea.subrange(13, 45));
    assert(b.chain_code =~= eb.subrange(13, 45));
    assert(a.pubkey =~= ea.subrange(45, 78));
    assert(b.pubkey =~= eb.subrange(45, 78));
    assert(a =~= b);
}

/// Parses the 78-byte serialization of an extended private key.  Succeeds
/// exactly on well-formed bytes, and the parsed key serializes back to them.
pub fn decode_xpriv(data: &Vec<u8>) -> (r: Option<XPriv>)
    ensures
        r matches Some(x) ==> xpriv_encode(x@) == data@ && xpriv_view_wf(x@) && sk_valid(x@.seckey),
        r matches Some(x) ==> x@ == xpriv_of_bytes(data@),
        r is Some <==> xpriv_bytes_ok(data@),
{
    if data.len() != 78 {
        return None;
    }
    if data[45] != 0 {
        return None;
    }
    let keyv = sub_vec(data, 46, 78);
    let key = to_array_32(keyv.as_slice());
    if !scalar_check(&key) {
        return None;
    }
    let version = read_be32(data, 0);
    let depth = data[4];
    let fpv = sub_vec(data, 5, 9);
    let ccv = sub_vec(data, 13, 45);
    let x = XPriv {
        version,
        depth,
        parent_fingerprint: to_array_4(fpv.as_slice()),
        child_number: read_be32(data, 9),
        chain_code: to_array_32(ccv.as_slice()),
        seckey: key,
    };
    proof {
        crate::bytes::lemma_be32_bytes_roundtrip(data@.subrange(0, 4));
        crate::bytes::lemma_be32_bytes_roundtrip(data@.subrange(9, 13));
        assert(xpriv_encode(x@) =~= data@);
        assert(x@ =~= xpriv_of_bytes(data@));
    }
    Some(x)
}

/// Parses the 78-byte serialization of an extended public key.  Succeeds
/// exactly on 78 bytes, and the parsed key serializes back to them.
pub fn decode_xpub(data: &Vec<u8>) -> (r: Option<XPub>)
    ensures
        r matches Some(x) ==> xpub_encode(x@) == data@ && xpub_view_wf(x@),
        r is Some <==> data@.len() == 78,
{
    if data.len() != 78 {
        return None;
    }
    let fpv = sub_vec(data, 5, 9);
    let ccv = sub_vec(data, 13, 45);
    let pkv = sub_vec(data, 45, 78);
    let x = XPub {
        version: read_be32(data, 0),
        depth: data[4],
        parent_fingerprint: to_array_4(fpv.as_slice()),
        child_number: read_be32(data, 9),
        chain_code: to_array_32(ccv.as_slice()),
        pubkey: to_array_33(pkv.as_slice()),
    };
    proof {
        crate::bytes::lemma_be32_bytes_roundtrip(data@.subrange(0, 4));
        crate::bytes::lemma_be32_bytes_roundtrip(data@.subrange(9, 13));
        assert(xpub_encode(x@) =~= data@);
    }
    Some(x)
}

/// The HMAC key fixed by BIP32 for master-key generation: the ASCII bytes of
/// "Bitcoin seed".
pub open spec fn bitcoin_seed_key() -> Seq<u8> {
    seq![66u8, 105u8, 116u8, 99u8, 111u8, 105u8, 110u8, 32u8, 115u8, 101u8, 101u8, 100u8]
}

/// The master key of a seed: HMAC-SHA512 of the seed under the fixed key,
/// split into the secret scalar and the chain code.
pub open spec fn master_of(seed: Seq<u8>, version: u32) -> XPrivView {
    let h = hmac512_of(bitcoin_seed_key(), seed);
    XPrivView {
        version: version,
        depth: 0,
        parent_fingerprint: seq![0u8, 0u8, 0u8, 0u8],
        child_number: 0,
        chain_code: h.subrange(32, 64),
        seckey: h.subrange(0, 32),
    }
}

/// Computes the master extended private key of a seed.  Fails exactly when
/// the seed hashes to a scalar outside the group.
pub fn new_master(seed: &Vec<u8>, version: u32) -> (r: Result<XPriv, Error>)
    ensures
        r matches Ok(x) ==> x@ == master_of(seed@, version) && xpriv_view_wf(x@) && sk_valid(
            x@.seckey,
        ),
        r is Ok <==> sk_valid(hmac512_of(bitcoin_seed_key(), seed@).subrange(0, 32)),
        r matches Err(e) ==> e == Error::KeyOutOfRange,
{
    let mut hkey: Vec<u8> = Vec::new();
    hkey.push(66u8);
    hkey.push(105u8);
    hkey.push(116u8);
    hkey.push(99u8);
    hkey.push(111u8);
    hkey.push(105u8);
    hkey.push(110u8);
    hkey.push(32u8);
    hkey.push(115u8);
    hkey.push(101u8);
    hkey.push(101u8);
    hkey.push(100u8);
    proof {
        assert(hkey@ =~= bitcoin_seed_key());
    }
    let h = hmac_sha512(hkey.as_slice(), seed.as_slice());
    let keyv = sub_vec(&h, 0, 32);
    let key = to_array_32(keyv.as_slice());
    if !scalar_check(&key) {
        return Err(Error::KeyOutOfRange);
    }
    let ccv = sub_vec(&h, 32, 64);
    let x = XPriv {
        version,
        depth: 0,
        parent_fingerprint: [0u8; 4],
        child_number: 0,
        chain_code: to_array_32(ccv.as_slice()),
        seckey: key,
    };
    proof {
        assert(x@.parent_fingerprint =~= seq![0u8, 0u8, 0u8, 0u8]);
        assert(x@ =~= master_of(seed@, version));
    }
    Ok(x)
}

/// The neutered form of a private view: the public version bytes from the
/// SLIP-132 table and the key's curve point, everything else unchanged.
/// `None` when the version bytes are not a private table entry.
pub open spec fn neuter_of(v: XPrivView) -> Option<XPubView> {
    match pub_version_of(v.version) {
        Some(pv) => Some(
            XPubView {
                version: pv,
                depth: v.depth,
                parent_fingerprint: v.parent_fingerprint,
                child_number: v.child_number,
                chain_code: v.chain_code,
                pubkey: gmul(v.seckey),
            },
        ),
        None => None,
    }
}

/// Derives the extended public key of an extended private key.  Fails exactly
/// when the version bytes have no public counterpart.
pub fn neuter(x: &XPriv) -> (r: Result<XPub, Error>)
    requires
        sk_valid(x@.seckey),
    ensures
        r matches Ok(p) ==> Some(p@) == neuter_of(x@) && xpub_view_wf(p@),
        r is Ok <==> pub_version_of(x@.version) is Some,
        r matches Err(e) ==> e == Error::ResolverFailure,
{
    let pv = match crate::slip132::neuter_version(x.version) {
        Some(pv) => pv,
        None => {
            return Err(Error::ResolverFailure);
        },
    };
    let pubkey = pubkey_create(&x.seckey);
    Ok(
        XPub {
            version: pv,
            depth: x.depth,
            parent_fingerprint: x.parent_fingerprint,
            child_number: x.child_number,
            chain_code: x.chain_code,
            pubkey,
        },
    )
}

/// The HASH160 identifier of an extended public key: the hash of its
/// compressed point.
pub open spec fn xpub_id_of(v: XPubView) -> Seq<u8> {
    hash160_of(v.pubkey)
}

/// Computes the 20-byte identifier of an extended public key.
pub fn xpub_identifier(x: &XPub) -> (r: Vec<u8>)
    ensures
        r@ == xpub_id_of(x@),
        r@.len() == 20,
{
    hash160(&x.pubkey)
}

/// The fingerprint: the first four bytes of the identifier.
pub open spec fn xpub_fingerprint_of(v: XPubView) -> Seq<u8> {
    xpub_id_of(v).take(4)
}

/// Computes the 4-byte fingerprint of an extended public key.
pub fn xpub_fingerprint(x: &XPub) -> (r: [u8; 4])
    ensures
        r@ == xpub_fingerprint_of(x@),
{
    let id = xpub_identifier(x);
    let idv = sub_vec(&id, 0, 4);
    proof {
        assert(id@.subrange(0, 4) =~= xpub_id_of(x@).take(4));
    }
    to_array_4(idv.as_slice())
}

/// Whether a child number asks for hardened derivation.
pub open spec fn is_hardened(i: u32) -> bool {
    i >= 0x8000_0000
}

/// Whether every step of a path is unhardened.
pub open spec fn all_unhardened(path: Seq<u32>) -> bool {
    forall|j: int| 0 <= j < path.len() ==> !is_hardened(#[trigger] path[j])
}

/// The bytes hashed for one derivation step: the serialized parent key —
/// zero byte and scalar for a hardened step, curve point otherwise — followed
/// by the child number.
pub open spec fn ckd_data(k: Seq<u8>, i: u32) -> Seq<u8> {
    if is_hardened(i) {
        seq![0u8] + k + be32(i)
    } else {
        gmul(k) + be32(i)
    }
}

/// Whether one derivation step stays inside the group: the step scalar is
/// below the order and the child key is not zero; the depth must also not be
/// exhausted.
pub open spec fn ckd_ok(v: XPrivView, i: u32) -> bool {
    let il = hmac512_of(v.chain_code, ckd_data(v.seckey, i)).subrange(0, 32);
    v.depth < 255 && nat_of_be(il) < secp_order() && (nat_of_be(v.seckey) + nat_of_be(il))
        % secp_order() != 0
}

/// One private derivation step: the child scalar is the parent scalar plus
/// the step scalar, the child chain code the right half of the HMAC.
pub open spec fn ckd(v: XPrivView, i: u32) -> XPrivView {
    let h = hmac512_of(v.chain_code, ckd_data(v.seckey, i));
    XPrivView {
        version: v.version,
        depth: (v.depth + 1) as u8,
        parent_fingerprint: hash160_of(gmul(v.seckey)).take(4),
        child_number: i,
        chain_code: h.subrange(32, 64),
        seckey: scalar_add_mod(v.seckey, h.subrange(0, 32)),
    }
}

/// Whether every step of the path derivation succeeds.
pub open spec fn derive_ok(v: XPrivView, path: Seq<u32>) -> bool
    decreases path.len(),
{
    path.len() == 0 || (ckd_ok(v, path[0]) && derive_ok(ckd(v, path[0]), path.drop_first()))
}

/// Private derivation along a path, step by step.
pub open spec fn derive_priv(v: XPrivView, path: Seq<u32>) -> XPrivView
    decreases path.len(),
{
    if path.len() == 0 {
        v
    } else {
        derive_priv(ckd(v, path[0]), path.drop_first())
    }
}

/// One public derivation step for an unhardened child number: the parent
/// point is tweaked by the step scalar times the generator.
pub open spec fn pub_step_pk(pk: Seq<u8>, cc: Seq<u8>, i: u32) -> Seq<u8> {
    paddg(pk, hmac512_of(cc, pk + be32(i)).subrange(0, 32))
}

/// The chain code after one public derivation step.
pub open spec fn pub_step_cc(pk: Seq<u8>, cc: Seq<u8>, i: u32) -> Seq<u8> {
    hmac512_of(cc, pk + be32(i)).subrange(32, 64)
}

/// The curve point of public derivation along an unhardened path.
pub open spec fn pub_derive_pk(pk: Seq<u8>, cc: Seq<u8>, path: Seq<u32>) -> Seq<u8>
    decreases path.len(),
{
    if path.len() == 0 {
        pk
    } else {
        pub_derive_pk(pub_step_pk(pk, cc, path[0]), pub_step_cc(pk, cc, path[0]), path.drop_first())
    }
}

/// The chain code of public derivation along an unhardened path.
pub open spec fn pub_derive_cc(pk: Seq<u8>, cc: Seq<u8>, path: Seq<u32>) -> Seq<u8>
    decreases path.len(),
{
    if path.len() == 0 {
        cc
    } else {
        pub_derive_cc(pub_step_pk(pk, cc, path[0]), pub_step_cc(pk, cc, path[0]), path.drop_first())
    }
}

/// Unrolls path derivation at the back: deriving along `path.push(i)` is one
/// more step after deriving along `path`.
pub proof fn lemma_derive_push(v: XPrivView, path: Seq<u32>, i: u32)
    ensures
        derive_priv(v, path.push(i)) == ckd(derive_priv(v, path), i),
        derive_ok(v, path.push(i)) == (derive_ok(v, path) && ckd_ok(derive_priv(v, path), i)),
    decreases path.len(),
{
    if path.len() == 0 {
        assert(path.push(i).drop_first() =~= path);
        assert(path.push(i)[0] == i);
        assert(derive_priv(v, path.push(i)) == derive_priv(ckd(v, i), path));
        assert(derive_priv(ckd(v, i), path) == ckd(v, i));
        assert(derive_ok(v, path.push(i)) == (ckd_ok(v, i) && derive_ok(ckd(v, i), path)));
        assert(derive_ok(ckd(v, i), path));
        assert(derive_priv(v, path) == v);
    } else {
        assert(path.push(i).drop_first() =~= path.drop_first().push(i));
        assert(path.push(i)[0] == path[0]);
        lemma_derive_push(ckd(v, path[0]), path.drop_first(), i);
        assert(derive_priv(v, path.push(i)) == derive_priv(ckd(v, path[0]), path.drop_first().push(
            i,
        )));
        assert(derive_priv(v, path) == derive_priv(ckd(v, path[0]), path.drop_first()));
    }
}

/// Unrolls public derivation at the back in the same way.
pub proof fn lemma_pub_derive_push(pk: Seq<u8>, cc: Seq<u8>, path: Seq<u32>, i: u32)
    ensures
        pub_derive_pk(pk, cc, path.push(i)) == pub_step_pk(
            pub_derive_pk(pk, cc, path),
            pub_derive_cc(pk, cc, path),
            i,
        ),
        pub_derive_cc(pk, cc, path.push(i)) == pub_step_cc(
            pub_derive_pk(pk, cc, path),
            pub_derive_cc(pk, cc, path),
            i,
        ),
    decreases path.len(),
{
    if path.len() == 0 {
        assert(path.push(i).drop_first() =~= path);
        assert(path.push(i)[0] == i);
        assert(pub_derive_pk(pk, cc, path.push(i)) == pub_derive_pk(pub_step_pk(pk, cc, i),
            pub_step_cc(pk, cc, i), path));
        assert(pub_derive_pk(pub_step_pk(pk, cc, i), pub_step_cc(pk, cc, i), path) == pub_step_pk(
            pk, cc, i));
        assert(pub_derive_cc(pk, cc, path.push(i)) == pub_derive_cc(pub_step_pk(pk, cc, i),
            pub_step_cc(pk, cc, i), path));
        assert(pub_derive_cc(pub_step_pk(pk, cc, i), pub_step_cc(pk, cc, i), path) == pub_step_cc(
            pk, cc, i));
        assert(pub_derive_pk(pk, cc, path) == pk && pub_derive_cc(pk, cc, path) == cc);
    } else {
        assert(path.push(i).drop_first() =~= path.drop_first().push(i));
        assert(path.push(i)[0] == path[0]);
        lemma_pub_derive_push(pub_step_pk(pk, cc, path[0]), pub_step_cc(pk, cc, path[0]),
            path.drop_first(), i);
    }
}

/// Path derivation never changes the version bytes.
pub proof fn lemma_derive_priv_version(v: XPrivView, path: Seq<u32>)
    ensures
        derive_priv(v, path).version == v.version,
    decreases path.len(),
{
    if path.len() > 0 {
        lemma_derive_priv_version(ckd(v, path[0]), path.drop_first());
    }
}

/// Derives the private key at `path` below `x`.  Succeeds exactly when every
/// step stays inside the group and the depth allows it; on an unhardened
/// path the derived key's curve point equals the public derivation of the
/// parent's point.
pub fn derive_xpriv(x: &XPriv, path: &Vec<u32>) -> (r: Result<XPriv, Error>)
    requires
        sk_valid(x@.seckey),
    ensures
        r matches Ok(y) ==> y@ == derive_priv(x@, path@) && sk_valid(y@.seckey) && xpriv_view_wf(
            y@,
        ) == xpriv_view_wf(x@),
        r is Ok <==> derive_ok(x@, path@),
        all_unhardened(path@) ==> (r matches Ok(y) ==> gmul(y@.seckey) == pub_derive_pk(
            gmul(x@.seckey),
            x@.chain_code,
            path@,
        ) && y@.chain_code == pub_derive_cc(gmul(x@.seckey), x@.chain_code, path@)),
        r matches Err(e) ==> (e == Error::GroupOverflow || e == Error::MaximumDepth),
{
    let mut cur = XPriv {
        version: x.version,
        depth: x.depth,
        parent_fingerprint: x.parent_fingerprint,
        child_number: x.child_number,
        chain_code: x.chain_code,
        seckey: x.seckey,
    };
    assert(cur@ =~= x@);
    let mut s: usize = 0;
    while s < path.len()
        invariant
            s <= path@.len(),
            sk_valid(cur@.seckey),
            sk_valid(x@.seckey),
            derive_ok(x@, path@.take(s as int)),
            cur@ == derive_priv(x@, path@.take(s as int)),
            xpriv_view_wf(cur@) == xpriv_view_wf(x@),
            all_unhardened(path@.take(s as int)) ==> gmul(cur@.seckey) == pub_derive_pk(
                gmul(x@.seckey),
                x@.chain_code,
                path@.take(s as int),
            ) && cur@.chain_code == pub_derive_cc(gmul(x@.seckey), x@.chain_code, path@.take(
                s as int,
            )),
        decreases path@.len() - s,
    {
        let i = path[s];
        let ghost pre = cur@;
        let next = match ckd_step(&cur, i) {
            Ok(n) => n,
            Err(e) => {
                proof {
                    assert(path@.take(s as int + 1) =~= path@.take(s as int).push(i));
                    lemma_derive_push(x@, path@.take(s as int), i);
                    lemma_derive_not_ok_prefix(x@, path@, s as int);
                }
                return Err(e);
            },
        };
        cur = next;
        proof {
            assert(path@.take(s as int + 1) =~= path@.take(s as int).push(i));
            lemma_derive_push(x@, path@.take(s as int), i);
            if all_unhardened(path@.take(s as int + 1)) {
                assert(forall|j: int| 0 <= j < s ==> path@.take(s as int)[j] == path@.take(
                    s as int + 1,
                )[j]);
                assert(all_unhardened(path@.take(s as int)));
                assert(path@.take(s as int + 1)[s as int] == i);
                assert(!is_hardened(i));
                lemma_pub_derive_push(gmul(x@.seckey), x@.chain_code, path@.take(s as int), i);
                assert(ckd_data(pre.seckey, i) == gmul(pre.seckey) + be32(i));
            }
        }
        s = s + 1;
    }
    proof {
        assert(path@.take(path@.len() as int) =~= path@);
    }
    Ok(cur)
}

/// A failing step makes the whole path derivation fail.
proof fn lemma_derive_not_ok_prefix(v: XPrivView, path: Seq<u32>, s: int)
    requires
        0 <= s < path.len(),
        derive_ok(v, path.take(s)),
        !ckd_ok(derive_priv(v, path.take(s)), path[s]),
    ensures
        !derive_ok(v, path),
    decreases path.len(),
{
    if s == 0 {
        if path.len() > 0 {
            assert(path.take(0).len() == 0);
            assert(derive_priv(v, path.take(0)) == v);
            assert(!ckd_ok(v, path[0]));
        }
    } else {
        assert(path.take(s)[0] == path[0]);
        assert(ckd_ok(v, path[0]) && derive_ok(ckd(v, path[0]), path.take(s).drop_first()));
        assert(path.take(s).drop_first() =~= path.drop_first().take(s - 1));
        assert(path.drop_first()[s - 1] == path[s]);
        assert(derive_priv(v, path.take(s)) == derive_priv(ckd(v, path[0]), path.take(
            s,
        ).drop_first()));
        lemma_derive_not_ok_prefix(ckd(v, path[0]), path.drop_first(), s - 1);
    }
}

/// One derivation step.  Succeeds exactly when the step stays inside the
/// group and the depth is not exhausted.
fn ckd_step(x: &XPriv, i: u32) -> (r: Result<XPriv, Error>)
    requires
        sk_valid(x@.seckey),
    ensures
        r matches Ok(y) ==> y@ == ckd(x@, i) && sk_valid(y@.seckey) && xpriv_view_wf(y@)
            == xpriv_view_wf(x@),
        r matches Ok(y) ==> gmul(y@.seckey) == paddg(
            gmul(x@.seckey),
            hmac512_of(x@.chain_code, ckd_data(x@.seckey, i)).subrange(0, 32),
        ),
        r is Ok <==> ckd_ok(x@, i),
        r matches Err(e) ==> (e == Error::GroupOverflow || e == Error::MaximumDepth),
{
    if x.depth == 255 {
        return Err(Error::MaximumDepth);
    }
    let pubkey = pubkey_create(&x.seckey);
    let mut data: Vec<u8> = Vec::new();
    if i >= 0x8000_0000 {
        data.push(0u8);
        push_bytes(&mut data, &x.seckey);
        push_be32(&mut data, i);
        proof {
            assert(data@ =~= ckd_data(x@.seckey, i));
        }
    } else {
        push_bytes(&mut data, &pubkey);
        push_be32(&mut data, i);
        proof {
            assert(data@ =~= ckd_data(x@.seckey, i));
        }
    }
    let h = hmac_sha512(&x.chain_code, data.as_slice());
    let ilv = sub_vec(&h, 0, 32);
    let il = to_array_32(ilv.as_slice());
    let ccv = sub_vec(&h, 32, 64);
    let child_key = match scalar_add(&x.seckey, &il) {
        Ok(k) => k,
        Err(_) => {
            return Err(Error::GroupOverflow);
        },
    };
    let fp = xpub_fp_of_pubkey(&pubkey);
    let y = XPriv {
        version: x.version,
        depth: x.depth + 1,
        parent_fingerprint: fp,
        child_number: i,
        chain_code: to_array_32(ccv.as_slice()),
        seckey: child_key,
    };
    proof {
        assert(y@ =~= ckd(x@, i));
    }
    Ok(y)
}

/// Whether two extended public keys hold the same value.
pub fn xpub_eq(a: &XPub, b: &XPub) -> (r: bool)
    ensures
        r == (a@ == b@),
{
    let fields = a.version == b.version && a.depth == b.depth && a.child_number == b.child_number;
    if !fields {
        return false;
    }
    if !bytes_eq(&a.parent_fingerprint, &b.parent_fingerprint) {
        return false;
    }
    if !bytes_eq(&a.chain_code, &b.chain_code) {
        return false;
    }
    if !bytes_eq(&a.pubkey, &b.pubkey) {
        return false;
    }
    proof {
        assert(a@ =~= b@);
    }
    true
}

/// The fingerprint of a bare compressed point: the first four bytes of its
/// HASH160.
fn xpub_fp_of_pubkey(pubkey: &[u8; 33]) -> (r: [u8; 4])
    ensures
        r@ == hash160_of(pubkey@).take(4),
{
    let id = hash160(pubkey);
    let idv = sub_vec(&id, 0, 4);
    proof {
        assert(id@.subrange(0, 4) =~= hash160_of(pubkey@).take(4));
    }
    to_array_4(idv.as_slice())
}

} // verus!
