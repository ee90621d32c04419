//! A partially signed bitcoin transaction, modelled by what the signing
//! algorithm reads and writes: the serialized unsigned transaction, and for
//! each input the derivation hints, the funding outputs, the consumed output
//! index, the collected signatures and the sighash type.  Computing a legacy
//! signature hash over the serialized transaction is the one operation an
//! outside library performs.

use vstd::prelude::*;

verus! {

/// One derivation hint: a compressed public key with the fingerprint of its
/// master and the path below that master.
#[verifier::ext_equal]
pub ghost struct HintView {
    pub pubkey: Seq<u8>,
    pub fingerprint: Seq<u8>,
    pub path: Seq<u32>,
}

/// One input of the envelope.
pub struct PsbtInput {
    /// Derivation hints: public key, master fingerprint, derivation path.
    pub bip32_derivation: Vec<([u8; 33], [u8; 4], Vec<u32>)>,
    /// The outputs of the funding transaction, as their scripts; absent when
    /// no non-witness UTXO travels with the input.
    pub non_witness_utxo_scripts: Option<Vec<Vec<u8>>>,
    /// Which output of the funding transaction this input consumes.
    pub prevout_vout: u32,
    /// The signatures collected so far: public key and DER signature with the
    /// trailing sighash byte.
    pub partial_sigs: Vec<([u8; 33], Vec<u8>)>,
    /// The sighash type the signatures commit to.
    pub sighash_type: Option<u32>,
}

/// The mathematical content of a [`PsbtInput`].
#[verifier::ext_equal]
pub ghost struct PsbtInputView {
    pub bip32_derivation: Seq<HintView>,
    pub non_witness_utxo_scripts: Option<Seq<Seq<u8>>>,
    pub prevout_vout: u32,
    pub partial_sigs: Seq<(Seq<u8>, Seq<u8>)>,
    pub sighash_type: Option<u32>,
}

impl View for PsbtInput {
    type V = PsbtInputView;

    open spec fn view(&self) -> PsbtInputView {
        PsbtInputView {
            bip32_derivation: self.bip32_derivation@.map_values(
                |h: ([u8; 33], [u8; 4], Vec<u32>)|
                    HintView { pubkey: h.0@, fingerprint: h.1@, path: h.2@ },
            ),
            non_witness_utxo_scripts: match self.non_witness_utxo_scripts {
                Some(ref ss) => Some(ss@.map_values(|s: Vec<u8>| s@)),
                None => None,
            },
            prevout_vout: self.prevout_vout,
            partial_sigs: self.partial_sigs@.map_values(
                |p: ([u8; 33], Vec<u8>)| (p.0@, p.1@),
            ),
            sighash_type: self.sighash_type,
        }
    }
}

/// A partially signed transaction: the serialized unsigned transaction and
/// its inputs.
pub struct Psbt {
    pub unsigned_tx: Vec<u8>,
    pub inputs: Vec<PsbtInput>,
}

/// The mathematical content of a [`Psbt`].
#[verifier::ext_equal]
pub ghost struct PsbtView {
    pub unsigned_tx: Seq<u8>,
    pub inputs: Seq<PsbtInputView>,
}

impl View for Psbt {
    type V = PsbtView;

    open spec fn view(&self) -> PsbtView {
        PsbtView {
            unsigned_tx: self.unsigned_tx@,
            inputs: self.inputs@.map_values(|i: PsbtInput| i@),
        }
    }
}

/// The legacy signature hash of input `index` of the serialized transaction,
/// committing to the given script with the given sighash type; a function of
/// its arguments alone.
pub uninterp spec fn legacy_sighash_of(
    tx: Seq<u8>,
    index: int,
    script: Seq<u8>,
    sighash_ty: u32,
) -> Seq<u8>;

/// Whether the legacy signature hash can be computed: the bytes deserialize
/// as a transaction and the index names one of its inputs; a function of the
/// serialized transaction and the index alone.
pub uninterp spec fn legacy_sighash_ok(tx: Seq<u8>, index: int) -> bool;

/// Relies on bitcoin's consensus deserialization of a transaction and on
/// SighashCache::legacy_signature_hash: the digest is a function of the
/// serialized transaction, the input index, the script and the sighash type
/// alone.  It fails exactly on bytes that are not a transaction or an index
/// past the inputs — both functions of the serialized transaction and the
/// index alone — and never panics.
#[verifier::external_body]
pub(crate) fn legacy_sighash(tx: &Vec<u8>, index: usize, script: &Vec<u8>, sighash_ty: u32) -> (r:
    Result<[u8; 32], ()>)
    ensures
        r matches Ok(h) ==> h@ == legacy_sighash_of(tx@, index as int, script@, sighash_ty),
        r is Ok <==> legacy_sighash_ok(tx@, index as int),
{
    let parsed: bitcoin::Transaction = bitcoin::consensus::deserialize(tx.as_slice()).map_err(
        |_| (),
    )?;
    let cache = bitcoin::sighash::SighashCache::new(&parsed);
    let script = bitcoin::Script::from_bytes(script.as_slice());
    let hash = cache.legacy_signature_hash(index, script, sighash_ty).map_err(|_| ())?;
    Ok(*bitcoin::hashes::Hash::as_byte_array(&hash))
}

} // verus!
