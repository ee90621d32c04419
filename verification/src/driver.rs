//! The storage boundary: driver configuration, the driver-level error, and
//! the canonical binary serialization of the keyring set.
//!
//! A driver persists the vault's keyrings and loads them back.  The byte
//! format lives here, fully verified: every length is a big-endian 64-bit
//! prefix, extended keys take their 78-byte BIP32 form, and decoding bytes
//! that a serialization produced returns the serialized keyrings exactly.
//! The file handling itself — opening, reading and writing the configured
//! location — is the embedding program's, as is any human-readable format.

use vstd::prelude::*;

use crate::assets::{assets_unique, AssetId};
use crate::bip32::{decode_xpub, encode_xpub, xpub_encode};
use crate::bytes::{be64, push_be64, push_bytes, read_be64, sub_vec, to_array_32, to_array_4, u64_of_be};
use crate::keymgm::{
    account_wf, keyring_wf, sub_views, KeySource, KeySourceView, Keyring, KeyringView, KeysAccount,
    KeysAccountView,
};
use vstd::utf8::{decode_utf8, encode_utf8, valid_utf8};

verus! {

/// The serialization a file driver uses.
#[derive(Clone, Copy, PartialEq, Eq, Structural, Debug)]
pub enum FileFormat {
    /// The canonical binary form defined in this module.
    StrictBinary,
    /// YAML text.
    Yaml,
    /// TOML text.
    Toml,
    /// JSON text.
    Json,
}

/// Configuration of a file driver: where the vault lives and in which
/// format.
pub struct FileConfig {
    pub location: String,
    pub format: FileFormat,
}

/// Configuration of a storage driver: a file in a chosen format, or
/// persistence delegated to externally supplied callbacks.
pub enum Config {
    File(FileConfig),
    Delegated,
}

/// A driver failure, wrapping the text of the underlying storage or
/// serialization error.
#[derive(Debug)]
pub struct Error {
    pub message: String,
}

/// Relies on std's String::from_utf8, which succeeds exactly on valid UTF-8
/// and decodes it.
#[verifier::external_body]
fn string_from_utf8(v: Vec<u8>) -> (r: Option<String>)
    ensures
        r matches Some(s) ==> valid_utf8(v@) && s@ == decode_utf8(v@),
        r is Some <==> valid_utf8(v@),
{
    String::from_utf8(v).ok()
}

/// A length-prefixed byte string.
pub open spec fn enc_bytes(b: Seq<u8>) -> Seq<u8> {
    be64(b.len() as u64) + b
}

/// A length-prefixed string, as its UTF-8 bytes.
pub open spec fn enc_str(s: Seq<char>) -> Seq<u8> {
    enc_bytes(encode_utf8(s))
}

/// The concatenated big-endian elements of a path.
pub open spec fn enc_u32s(p: Seq<u32>) -> Seq<u8>
    decreases p.len(),
{
    if p.len() == 0 {
        Seq::empty()
    } else {
        enc_u32s(p.drop_last()) + crate::bytes::be32(p.last())
    }
}

/// A length-prefixed derivation path.
pub open spec fn enc_path(p: Seq<u32>) -> Seq<u8> {
    be64(p.len() as u64) + enc_u32s(p)
}

/// The concatenated 32-byte asset identifiers.
pub open spec fn enc_asset_items(s: Seq<Seq<u8>>) -> Seq<u8>
    decreases s.len(),
{
    if s.len() == 0 {
        Seq::empty()
    } else {
        enc_asset_items(s.drop_last()) + s.last()
    }
}

/// A length-prefixed asset set.
pub open spec fn enc_assets(s: Seq<Seq<u8>>) -> Seq<u8> {
    be64(s.len() as u64) + enc_asset_items(s)
}

/// An optional key source: a presence byte, then fingerprint and path.
pub open spec fn enc_opt_source(o: Option<KeySourceView>) -> Seq<u8> {
    match o {
        None => seq![0u8],
        Some(ks) => seq![1u8] + ks.fingerprint + enc_path(ks.path),
    }
}

/// A keys account: the 78-byte extended public key, name, details, assets,
/// ciphertext and the 33-byte unblinding point.
pub open spec fn enc_account(v: KeysAccountView) -> Seq<u8> {
    xpub_encode(v.xpubkey) + enc_str(v.name) + enc_str(v.details) + enc_assets(v.assets)
        + enc_bytes(v.encrypted) + v.unblinding
}

/// The concatenated path-and-account pairs of the sub-accounts.
pub open spec fn enc_sub_items(s: Seq<(Seq<u32>, KeysAccountView)>) -> Seq<u8>
    decreases s.len(),
{
    if s.len() == 0 {
        Seq::empty()
    } else {
        enc_sub_items(s.drop_last()) + enc_path(s.last().0) + enc_account(s.last().1)
    }
}

/// A keyring: master account, optional origin and the sub-account map.
pub open spec fn enc_keyring(v: KeyringView) -> Seq<u8> {
    enc_account(v.master_account) + enc_opt_source(v.key_source) + be64(
        v.sub_accounts.len() as u64,
    ) + enc_sub_items(v.sub_accounts)
}

/// The concatenated keyrings.
pub open spec fn enc_keyring_items(s: Seq<KeyringView>) -> Seq<u8>
    decreases s.len(),
{
    if s.len() == 0 {
        Seq::empty()
    } else {
        enc_keyring_items(s.drop_last()) + enc_keyring(s.last())
    }
}

/// The whole persisted artifact: the length-prefixed keyring sequence.
pub open spec fn enc_keyrings(s: Seq<KeyringView>) -> Seq<u8> {
    be64(s.len() as u64) + enc_keyring_items(s)
}

/// The bound every serialized length obeys.
pub open spec fn len64() -> nat {
    0x1_0000_0000_0000_0000
}

/// Whether an account's view can round-trip through the codec: well-formed,
/// every asset identifier 32 bytes, every variable length below 2^64.
pub open spec fn account_codec_wf(v: KeysAccountView) -> bool {
    &&& account_wf(v)
    &&& (forall|i: int| 0 <= i < v.assets.len() ==> (#[trigger] v.assets[i]).len() == 32)
    &&& encode_utf8(v.name).len() < len64()
    &&& encode_utf8(v.details).len() < len64()
    &&& v.assets.len() < len64()
    &&& v.encrypted.len() < len64()
}

/// Whether a keyring's view can round-trip through the codec.
pub open spec fn keyring_codec_wf(v: KeyringView) -> bool {
    &&& keyring_wf(v)
    &&& account_codec_wf(v.master_account)
    &&& (match v.key_source {
        Some(ks) => ks.fingerprint.len() == 4 && ks.path.len() < len64(),
        None => true,
    })
    &&& v.sub_accounts.len() < len64()
    &&& (forall|i: int| 0 <= i < v.sub_accounts.len() ==> account_codec_wf(
        #[trigger] v.sub_accounts[i].1,
    ) && v.sub_accounts[i].0.len() < len64())
}

/// Whether a keyring sequence can round-trip through the codec.
pub open spec fn keyrings_codec_wf(s: Seq<KeyringView>) -> bool {
    s.len() < len64() && (forall|i: int| 0 <= i < s.len() ==> keyring_codec_wf(#[trigger] s[i]))
}

/// The views of a keyring vector.
pub open spec fn keyring_views(s: Seq<Keyring>) -> Seq<KeyringView> {
    s.map_values(|k: Keyring| k@)
}

/// Whether the bytes of `data` at `pos` continue with `piece`.
pub open spec fn continues(data: Seq<u8>, pos: int, piece: Seq<u8>) -> bool {
    0 <= pos && pos + piece.len() <= data.len() && data.subrange(pos, pos + piece.len()) == piece
}

/// A continuation with a concatenation splits into its halves.
proof fn lemma_continues_split(data: Seq<u8>, pos: int, a: Seq<u8>, b: Seq<u8>)
    requires
        continues(data, pos, a + b),
    ensures
        continues(data, pos, a),
        continues(data, pos + a.len(), b),
{
    let w = data.subrange(pos, pos + a.len() + b.len());
    assert(w == a + b);
    assert forall|i: int| 0 <= i < a.len() implies data.subrange(pos, pos + a.len() as int)[i]
        == a[i] by {
        assert(w[i] == data[pos + i]);
        assert((a + b)[i] == a[i]);
    }
    assert(data.subrange(pos, pos + a.len() as int) =~= a);
    assert forall|i: int|
        0 <= i < b.len() implies data.subrange(pos + a.len(), pos + a.len() + b.len())[i]
        == b[i] by {
        assert(w[a.len() + i] == data[pos + a.len() + i]);
        assert((a + b)[a.len() + i] == b[i]);
    }
    assert(data.subrange(pos + a.len(), pos + a.len() + b.len()) =~= b);
}

/// Two equal concatenations with equally long heads have equal halves.
proof fn lemma_concat_chop(a: Seq<u8>, b: Seq<u8>, c: Seq<u8>, d: Seq<u8>)
    requires
        a + b == c + d,
        a.len() == c.len(),
    ensures
        a == c,
        b == d,
{
    assert forall|i: int| 0 <= i < a.len() implies a[i] == c[i] by {
        assert((a + b)[i] == a[i]);
        assert((c + d)[i] == c[i]);
        assert((a + b)[i] == (c + d)[i]);
    }
    assert(a =~= c);
    assert((a + b).len() == a.len() + b.len());
    assert((c + d).len() == c.len() + d.len());
    assert forall|i: int| 0 <= i < b.len() implies b[i] == d[i] by {
        assert((a + b)[a.len() + i] == b[i]);
        assert((c + d)[c.len() + i] == d[i]);
        assert((a + b)[a.len() + i] == (c + d)[c.len() + i]);
    }
    assert(b =~= d);
}

/// Concatenation of byte strings is associative.
proof fn lemma_add_assoc(a: Seq<u8>, b: Seq<u8>, c: Seq<u8>)
    ensures
        (a + b) + c == a + (b + c),
{
    assert((a + b) + c =~= a + (b + c));
}

/// A continuation restricted to a slice of its piece.
proof fn lemma_continues_sub(data: Seq<u8>, pos: int, piece: Seq<u8>, lo: int, hi: int)
    requires
        continues(data, pos, piece),
        0 <= lo <= hi <= piece.len(),
    ensures
        data.subrange(pos + lo, pos + hi) == piece.subrange(lo, hi),
{
    assert forall|i: int| 0 <= i < hi - lo implies data.subrange(pos + lo, pos + hi)[i]
        == piece.subrange(lo, hi)[i] by {
        assert(data.subrange(pos, pos + piece.len() as int)[lo + i] == piece[lo + i]);
    }
    assert(data.subrange(pos + lo, pos + hi) =~= piece.subrange(lo, hi));
}

/// The serialized sub-accounts are at least one byte per entry.
proof fn lemma_enc_sub_items_min(s: Seq<(Seq<u32>, KeysAccountView)>)
    ensures
        enc_sub_items(s).len() >= s.len(),
    decreases s.len(),
{
    if s.len() > 0 {
        lemma_enc_sub_items_min(s.drop_last());
    }
}

/// The serialized keyrings are at least one byte per entry.
proof fn lemma_enc_keyring_items_min(s: Seq<KeyringView>)
    ensures
        enc_keyring_items(s).len() >= s.len(),
    decreases s.len(),
{
    if s.len() > 0 {
        lemma_enc_keyring_items_min(s.drop_last());
    }
}

/// An eight-byte length prefix determines the length and the rest.
proof fn lemma_be64_prefix(n1: u64, n2: u64, x: Seq<u8>, y: Seq<u8>)
    requires
        crate::bytes::be64(n1) + x == crate::bytes::be64(n2) + y,
    ensures
        n1 == n2,
        x == y,
{
    lemma_concat_chop(crate::bytes::be64(n1), x, crate::bytes::be64(n2), y);
    crate::bytes::lemma_be64_roundtrip(n1);
    crate::bytes::lemma_be64_roundtrip(n2);
}

/// A four-byte element determines the value and the rest.
proof fn lemma_be32_prefix(n1: u32, n2: u32, x: Seq<u8>, y: Seq<u8>)
    requires
        crate::bytes::be32(n1) + x == crate::bytes::be32(n2) + y,
    ensures
        n1 == n2,
        x == y,
{
    lemma_concat_chop(crate::bytes::be32(n1), x, crate::bytes::be32(n2), y);
    crate::bytes::lemma_be32_roundtrip(n1);
    crate::bytes::lemma_be32_roundtrip(n2);
}

/// A length-prefixed byte string determines itself and the rest.
proof fn lemma_enc_bytes_prefix(b1: Seq<u8>, b2: Seq<u8>, x: Seq<u8>, y: Seq<u8>)
    requires
        b1.len() < len64(),
        b2.len() < len64(),
        enc_bytes(b1) + x == enc_bytes(b2) + y,
    ensures
        b1 == b2,
        x == y,
{
    assert(enc_bytes(b1) + x =~= crate::bytes::be64(b1.len() as u64) + (b1 + x));
    assert(enc_bytes(b2) + y =~= crate::bytes::be64(b2.len() as u64) + (b2 + y));
    lemma_be64_prefix(b1.len() as u64, b2.len() as u64, b1 + x, b2 + y);
    lemma_concat_chop(b1, x, b2, y);
}

/// A length-prefixed string determines itself and the rest.
proof fn lemma_enc_str_prefix(s1: Seq<char>, s2: Seq<char>, x: Seq<u8>, y: Seq<u8>)
    requires
        encode_utf8(s1).len() < len64(),
        encode_utf8(s2).len() < len64(),
        enc_str(s1) + x == enc_str(s2) + y,
    ensures
        s1 == s2,
        x == y,
{
    broadcast use vstd::utf8::encode_utf8_decode_utf8;

    lemma_enc_bytes_prefix(encode_utf8(s1), encode_utf8(s2), x, y);
    assert(decode_utf8(encode_utf8(s1)) == s1);
    assert(decode_utf8(encode_utf8(s2)) == s2);
}

/// The serialized elements of a path take four bytes each.
proof fn lemma_enc_u32s_len(p: Seq<u32>)
    ensures
        enc_u32s(p).len() == 4 * p.len(),
    decreases p.len(),
{
    if p.len() > 0 {
        lemma_enc_u32s_len(p.drop_last());
    }
}

/// Each serialized path element sits at its own four-byte slot.
proof fn lemma_enc_u32s_index(p: Seq<u32>, i: int)
    requires
        0 <= i < p.len(),
    ensures
        enc_u32s(p).subrange(4 * i, 4 * i + 4) == crate::bytes::be32(p[i]),
    decreases p.len(),
{
    lemma_enc_u32s_len(p);
    lemma_enc_u32s_len(p.drop_last());
    if i == p.len() - 1 {
        assert(enc_u32s(p).subrange(4 * i, 4 * i + 4) =~= crate::bytes::be32(p.last()));
    } else {
        lemma_enc_u32s_index(p.drop_last(), i);
        assert(enc_u32s(p).subrange(4 * i, 4 * i + 4) =~= enc_u32s(p.drop_last()).subrange(
            4 * i,
            4 * i + 4,
        ));
    }
}

/// Equally long serialized paths with a common continuation are equal.
proof fn lemma_enc_u32s_prefix(p1: Seq<u32>, p2: Seq<u32>, x: Seq<u8>, y: Seq<u8>)
    requires
        p1.len() == p2.len(),
        enc_u32s(p1) + x == enc_u32s(p2) + y,
    ensures
        p1 == p2,
        x == y,
    decreases p1.len(),
{
    if p1.len() == 0 {
        assert(p1 =~= p2);
        assert(enc_u32s(p1) + x =~= x);
        assert(enc_u32s(p2) + y =~= y);
    } else {
        assert(enc_u32s(p1) + x =~= enc_u32s(p1.drop_last()) + (crate::bytes::be32(p1.last())
            + x));
        assert(enc_u32s(p2) + y =~= enc_u32s(p2.drop_last()) + (crate::bytes::be32(p2.last())
            + y));
        lemma_enc_u32s_prefix(
            p1.drop_last(),
            p2.drop_last(),
            crate::bytes::be32(p1.last()) + x,
            crate::bytes::be32(p2.last()) + y,
        );
        lemma_be32_prefix(p1.last(), p2.last(), x, y);
        assert forall|i: int| 0 <= i < p1.len() implies p1[i] == p2[i] by {
            if i < p1.len() - 1 {
                assert(p1.drop_last()[i] == p2.drop_last()[i]);
            }
        }
        assert(p1 =~= p2);
    }
}

/// A length-prefixed path determines itself and the rest.
proof fn lemma_enc_path_prefix(p1: Seq<u32>, p2: Seq<u32>, x: Seq<u8>, y: Seq<u8>)
    requires
        p1.len() < len64(),
        p2.len() < len64(),
        enc_path(p1) + x == enc_path(p2) + y,
    ensures
        p1 == p2,
        x == y,
{
    assert(enc_path(p1) + x =~= crate::bytes::be64(p1.len() as u64) + (enc_u32s(p1) + x));
    assert(enc_path(p2) + y =~= crate::bytes::be64(p2.len() as u64) + (enc_u32s(p2) + y));
    lemma_be64_prefix(p1.len() as u64, p2.len() as u64, enc_u32s(p1) + x, enc_u32s(p2) + y);
    lemma_enc_u32s_prefix(p1, p2, x, y);
}

/// The serialized asset items take 32 bytes each.
proof fn lemma_enc_asset_items_len(s: Seq<Seq<u8>>)
    requires
        forall|i: int| 0 <= i < s.len() ==> (#[trigger] s[i]).len() == 32,
    ensures
        enc_asset_items(s).len() == 32 * s.len(),
    decreases s.len(),
{
    if s.len() > 0 {
        lemma_enc_asset_items_len(s.drop_last());
    }
}

/// Each serialized asset identifier sits at its own 32-byte slot.
proof fn lemma_enc_asset_items_index(s: Seq<Seq<u8>>, i: int)
    requires
        forall|t: int| 0 <= t < s.len() ==> (#[trigger] s[t]).len() == 32,
        0 <= i < s.len(),
    ensures
        enc_asset_items(s).subrange(32 * i, 32 * i + 32) == s[i],
    decreases s.len(),
{
    lemma_enc_asset_items_len(s);
    lemma_enc_asset_items_len(s.drop_last());
    if i == s.len() - 1 {
        assert(enc_asset_items(s).subrange(32 * i, 32 * i + 32) =~= s.last());
    } else {
        lemma_enc_asset_items_index(s.drop_last(), i);
        assert(enc_asset_items(s).subrange(32 * i, 32 * i + 32) =~= enc_asset_items(
            s.drop_last(),
        ).subrange(32 * i, 32 * i + 32));
    }
}

/// Equally long serialized asset sets with a common continuation are equal.
proof fn lemma_enc_asset_items_prefix(s1: Seq<Seq<u8>>, s2: Seq<Seq<u8>>, x: Seq<u8>, y: Seq<u8>)
    requires
        s1.len() == s2.len(),
        forall|i: int| 0 <= i < s1.len() ==> (#[trigger] s1[i]).len() == 32,
        forall|i: int| 0 <= i < s2.len() ==> (#[trigger] s2[i]).len() == 32,
        enc_asset_items(s1) + x == enc_asset_items(s2) + y,
    ensures
        s1 == s2,
        x == y,
    decreases s1.len(),
{
    if s1.len() == 0 {
        assert(s1 =~= s2);
        assert(enc_asset_items(s1) + x =~= x);
        assert(enc_asset_items(s2) + y =~= y);
    } else {
        assert(enc_asset_items(s1) + x =~= enc_asset_items(s1.drop_last()) + (s1.last() + x));
        assert(enc_asset_items(s2) + y =~= enc_asset_items(s2.drop_last()) + (s2.last() + y));
        lemma_enc_asset_items_prefix(
            s1.drop_last(),
            s2.drop_last(),
            s1.last() + x,
            s2.last() + y,
        );
        lemma_concat_chop(s1.last(), x, s2.last(), y);
        assert forall|i: int| 0 <= i < s1.len() implies s1[i] == s2[i] by {
            if i < s1.len() - 1 {
                assert(s1.drop_last()[i] == s2.drop_last()[i]);
            }
        }
        assert(s1 =~= s2);
    }
}

/// A serialized account with a continuation, reassociated to the right.
proof fn lemma_flatten_account(a: KeysAccountView, x: Seq<u8>)
    ensures
        enc_account(a) + x == xpub_encode(a.xpubkey) + (enc_str(a.name) + (enc_str(a.details) + (
        enc_assets(a.assets) + (enc_bytes(a.encrypted) + (a.unblinding + x))))),
{
    let pa = xpub_encode(a.xpubkey);
    let pb = enc_str(a.name);
    let pc = enc_str(a.details);
    let pd = enc_assets(a.assets);
    let pe = enc_bytes(a.encrypted);
    let pf = a.unblinding;
    lemma_add_assoc(pa + pb + pc + pd + pe, pf, x);
    lemma_add_assoc(pa + pb + pc + pd, pe, pf + x);
    lemma_add_assoc(pa + pb + pc, pd, pe + (pf + x));
    lemma_add_assoc(pa + pb, pc, pd + (pe + (pf + x)));
    lemma_add_assoc(pa, pb, pc + (pd + (pe + (pf + x))));
}

/// A serialized account determines itself and the rest.
#[verifier::rlimit(100)]
proof fn lemma_enc_account_prefix(a1: KeysAccountView, a2: KeysAccountView, x: Seq<u8>, y: Seq<u8>)
    requires
        account_codec_wf(a1),
        account_codec_wf(a2),
        enc_account(a1) + x == enc_account(a2) + y,
    ensures
        a1 == a2,
        x == y,
{
    let r1 = enc_str(a1.name) + (enc_str(a1.details) + (enc_assets(a1.assets) + (enc_bytes(
        a1.encrypted,
    ) + (a1.unblinding + x))));
    let r2 = enc_str(a2.name) + (enc_str(a2.details) + (enc_assets(a2.assets) + (enc_bytes(
        a2.encrypted,
    ) + (a2.unblinding + y))));
    lemma_flatten_account(a1, x);
    lemma_flatten_account(a2, y);
    lemma_concat_chop(xpub_encode(a1.xpubkey), r1, xpub_encode(a2.xpubkey), r2);
    crate::bip32::lemma_xpub_encode_injective(a1.xpubkey, a2.xpubkey);
    lemma_enc_str_prefix(
        a1.name,
        a2.name,
        enc_str(a1.details) + (enc_assets(a1.assets) + (enc_bytes(a1.encrypted) + (a1.unblinding
            + x))),
        enc_str(a2.details) + (enc_assets(a2.assets) + (enc_bytes(a2.encrypted) + (a2.unblinding
            + y))),
    );
    lemma_enc_str_prefix(
        a1.details,
        a2.details,
        enc_assets(a1.assets) + (enc_bytes(a1.encrypted) + (a1.unblinding + x)),
        enc_assets(a2.assets) + (enc_bytes(a2.encrypted) + (a2.unblinding + y)),
    );
    lemma_add_assoc(
        crate::bytes::be64(a1.assets.len() as u64),
        enc_asset_items(a1.assets),
        enc_bytes(a1.encrypted) + (a1.unblinding + x),
    );
    lemma_add_assoc(
        crate::bytes::be64(a2.assets.len() as u64),
        enc_asset_items(a2.assets),
        enc_bytes(a2.encrypted) + (a2.unblinding + y),
    );
    lemma_be64_prefix(
        a1.assets.len() as u64,
        a2.assets.len() as u64,
        enc_asset_items(a1.assets) + (enc_bytes(a1.encrypted) + (a1.unblinding + x)),
        enc_asset_items(a2.assets) + (enc_bytes(a2.encrypted) + (a2.unblinding + y)),
    );
    lemma_enc_asset_items_prefix(
        a1.assets,
        a2.assets,
        enc_bytes(a1.encrypted) + (a1.unblinding + x),
        enc_bytes(a2.encrypted) + (a2.unblinding + y),
    );
    lemma_enc_bytes_prefix(a1.encrypted, a2.encrypted, a1.unblinding + x, a2.unblinding + y);
    lemma_concat_chop(a1.unblinding, x, a2.unblinding, y);
    assert(a1 =~= a2);
}

/// A serialized optional key source determines itself and the rest.
proof fn lemma_enc_opt_source_prefix(
    o1: Option<KeySourceView>,
    o2: Option<KeySourceView>,
    x: Seq<u8>,
    y: Seq<u8>,
)
    requires
        (match o1 {
            Some(ks) => ks.fingerprint.len() == 4 && ks.path.len() < len64(),
            None => true,
        }),
        (match o2 {
            Some(ks) => ks.fingerprint.len() == 4 && ks.path.len() < len64(),
            None => true,
        }),
        enc_opt_source(o1) + x == enc_opt_source(o2) + y,
    ensures
        o1 == o2,
        x == y,
{
    assert((enc_opt_source(o1) + x)[0] == (enc_opt_source(o2) + y)[0]);
    match (o1, o2) {
        (None, None) => {
            assert(enc_opt_source(o1) + x =~= seq![0u8] + x);
            assert(enc_opt_source(o2) + y =~= seq![0u8] + y);
            lemma_concat_chop(seq![0u8], x, seq![0u8], y);
        },
        (Some(k1), Some(k2)) => {
            assert(enc_opt_source(o1) + x =~= (seq![1u8] + k1.fingerprint) + (enc_path(k1.path)
                + x));
            assert(enc_opt_source(o2) + y =~= (seq![1u8] + k2.fingerprint) + (enc_path(k2.path)
                + y));
            lemma_concat_chop(
                seq![1u8] + k1.fingerprint,
                enc_path(k1.path) + x,
                seq![1u8] + k2.fingerprint,
                enc_path(k2.path) + y,
            );
            assert(k1.fingerprint =~= (seq![1u8] + k1.fingerprint).skip(1));
            assert(k2.fingerprint =~= (seq![1u8] + k2.fingerprint).skip(1));
            lemma_enc_path_prefix(k1.path, k2.path, x, y);
            assert(k1 =~= k2);
        },
        (None, Some(k2)) => {
            assert((enc_opt_source(o1) + x)[0] == 0u8);
            assert((enc_opt_source(o2) + y)[0] == 1u8);
        },
        (Some(k1), None) => {
            assert((enc_opt_source(o1) + x)[0] == 1u8);
            assert((enc_opt_source(o2) + y)[0] == 0u8);
        },
    }
}

/// Equally long serialized sub-account maps with a common continuation are
/// equal.
#[verifier::rlimit(100)]
proof fn lemma_enc_sub_items_prefix(
    s1: Seq<(Seq<u32>, KeysAccountView)>,
    s2: Seq<(Seq<u32>, KeysAccountView)>,
    x: Seq<u8>,
    y: Seq<u8>,
)
    requires
        s1.len() == s2.len(),
        forall|i: int| 0 <= i < s1.len() ==> account_codec_wf((#[trigger] s1[i]).1) && s1[i].0.len()
            < len64(),
        forall|i: int| 0 <= i < s2.len() ==> account_codec_wf((#[trigger] s2[i]).1) && s2[i].0.len()
            < len64(),
        enc_sub_items(s1) + x == enc_sub_items(s2) + y,
    ensures
        s1 == s2,
        x == y,
    decreases s1.len(),
{
    if s1.len() == 0 {
        assert(s1 =~= s2);
        assert(enc_sub_items(s1) + x =~= x);
        assert(enc_sub_items(s2) + y =~= y);
    } else {
        lemma_add_assoc(
            enc_sub_items(s1.drop_last()) + enc_path(s1.last().0),
            enc_account(s1.last().1),
            x,
        );
        lemma_add_assoc(
            enc_sub_items(s1.drop_last()),
            enc_path(s1.last().0),
            enc_account(s1.last().1) + x,
        );
        lemma_add_assoc(
            enc_sub_items(s2.drop_last()) + enc_path(s2.last().0),
            enc_account(s2.last().1),
            y,
        );
        lemma_add_assoc(
            enc_sub_items(s2.drop_last()),
            enc_path(s2.last().0),
            enc_account(s2.last().1) + y,
        );
        lemma_enc_sub_items_prefix(
            s1.drop_last(),
            s2.drop_last(),
            enc_path(s1.last().0) + (enc_account(s1.last().1) + x),
            enc_path(s2.last().0) + (enc_account(s2.last().1) + y),
        );
        lemma_enc_path_prefix(
            s1.last().0,
            s2.last().0,
            enc_account(s1.last().1) + x,
            enc_account(s2.last().1) + y,
        );
        lemma_enc_account_prefix(s1.last().1, s2.last().1, x, y);
        assert forall|i: int| 0 <= i < s1.len() implies s1[i] == s2[i] by {
            if i < s1.len() - 1 {
                assert(s1.drop_last()[i] == s2.drop_last()[i]);
            }
        }
        assert(s1 =~= s2);
    }
}

/// A serialized keyring with a continuation, reassociated to the right.
proof fn lemma_flatten_keyring(k: KeyringView, x: Seq<u8>)
    ensures
        enc_keyring(k) + x == enc_account(k.master_account) + (enc_opt_source(k.key_source) + (
        crate::bytes::be64(k.sub_accounts.len() as u64) + (enc_sub_items(k.sub_accounts) + x))),
{
    let pa = enc_account(k.master_account);
    let pb = enc_opt_source(k.key_source);
    let pc = crate::bytes::be64(k.sub_accounts.len() as u64);
    let pd = enc_sub_items(k.sub_accounts);
    lemma_add_assoc(pa + pb + pc, pd, x);
    lemma_add_assoc(pa + pb, pc, pd + x);
    lemma_add_assoc(pa, pb, pc + (pd + x));
}

/// A serialized keyring determines itself and the rest.
#[verifier::rlimit(100)]
proof fn lemma_enc_keyring_prefix(k1: KeyringView, k2: KeyringView, x: Seq<u8>, y: Seq<u8>)
    requires
        keyring_codec_wf(k1),
        keyring_codec_wf(k2),
        enc_keyring(k1) + x == enc_keyring(k2) + y,
    ensures
        k1 == k2,
        x == y,
{
    let r1 = enc_opt_source(k1.key_source) + (crate::bytes::be64(k1.sub_accounts.len() as u64) + (
    enc_sub_items(k1.sub_accounts) + x));
    let r2 = enc_opt_source(k2.key_source) + (crate::bytes::be64(k2.sub_accounts.len() as u64) + (
    enc_sub_items(k2.sub_accounts) + y));
    lemma_flatten_keyring(k1, x);
    lemma_flatten_keyring(k2, y);
    lemma_enc_account_prefix(k1.master_account, k2.master_account, r1, r2);
    lemma_enc_opt_source_prefix(
        k1.key_source,
        k2.key_source,
        crate::bytes::be64(k1.sub_accounts.len() as u64) + (enc_sub_items(k1.sub_accounts) + x),
        crate::bytes::be64(k2.sub_accounts.len() as u64) + (enc_sub_items(k2.sub_accounts) + y),
    );
    lemma_be64_prefix(
        k1.sub_accounts.len() as u64,
        k2.sub_accounts.len() as u64,
        enc_sub_items(k1.sub_accounts) + x,
        enc_sub_items(k2.sub_accounts) + y,
    );
    lemma_enc_sub_items_prefix(k1.sub_accounts, k2.sub_accounts, x, y);
    assert(k1 =~= k2);
}

/// Equally long serialized keyring sequences with a common continuation are
/// equal.
#[verifier::rlimit(100)]
proof fn lemma_enc_keyring_items_prefix(
    s1: Seq<KeyringView>,
    s2: Seq<KeyringView>,
    x: Seq<u8>,
    y: Seq<u8>,
)
    requires
        s1.len() == s2.len(),
        forall|i: int| 0 <= i < s1.len() ==> keyring_codec_wf(#[trigger] s1[i]),
        forall|i: int| 0 <= i < s2.len() ==> keyring_codec_wf(#[trigger] s2[i]),
        enc_keyring_items(s1) + x == enc_keyring_items(s2) + y,
    ensures
        s1 == s2,
        x == y,
    decreases s1.len(),
{
    if s1.len() == 0 {
        assert(s1 =~= s2);
        assert(enc_keyring_items(s1) + x =~= x);
        assert(enc_keyring_items(s2) + y =~= y);
    } else {
        lemma_add_assoc(enc_keyring_items(s1.drop_last()), enc_keyring(s1.last()), x);
        lemma_add_assoc(enc_keyring_items(s2.drop_last()), enc_keyring(s2.last()), y);
        lemma_enc_keyring_items_prefix(
            s1.drop_last(),
            s2.drop_last(),
            enc_keyring(s1.last()) + x,
            enc_keyring(s2.last()) + y,
        );
        lemma_enc_keyring_prefix(s1.last(), s2.last(), x, y);
        assert forall|i: int| 0 <= i < s1.len() implies s1[i] == s2[i] by {
            if i < s1.len() - 1 {
                assert(s1.drop_last()[i] == s2.drop_last()[i]);
            }
        }
        assert(s1 =~= s2);
    }
}

/// The canonical serialization is injective: two keyring sequences fit for
/// the codec with the same artifact are the same sequence.
pub proof fn lemma_enc_keyrings_injective(s1: Seq<KeyringView>, s2: Seq<KeyringView>)
    requires
        keyrings_codec_wf(s1),
        keyrings_codec_wf(s2),
        enc_keyrings(s1) == enc_keyrings(s2),
    ensures
        s1 == s2,
{
    assert(enc_keyrings(s1) =~= crate::bytes::be64(s1.len() as u64) + (enc_keyring_items(s1)
        + Seq::<u8>::empty()));
    assert(enc_keyrings(s2) =~= crate::bytes::be64(s2.len() as u64) + (enc_keyring_items(s2)
        + Seq::<u8>::empty()));
    lemma_be64_prefix(
        s1.len() as u64,
        s2.len() as u64,
        enc_keyring_items(s1) + Seq::<u8>::empty(),
        enc_keyring_items(s2) + Seq::<u8>::empty(),
    );
    lemma_enc_keyring_items_prefix(s1, s2, Seq::<u8>::empty(), Seq::<u8>::empty());
}

/// The serialized tail of the sub-accounts from position `j` on.
spec fn enc_sub_tail(s: Seq<(Seq<u32>, KeysAccountView)>, j: int) -> Seq<u8>
    decreases s.len() - j,
{
    if 0 <= j < s.len() {
        enc_path(s[j].0) + enc_account(s[j].1) + enc_sub_tail(s, j + 1)
    } else {
        Seq::empty()
    }
}

/// The serialized sub-accounts are the first `j` items then the tail.
proof fn lemma_enc_sub_items_tail(s: Seq<(Seq<u32>, KeysAccountView)>, j: int)
    requires
        0 <= j <= s.len(),
    ensures
        enc_sub_items(s) == enc_sub_items(s.take(j)) + enc_sub_tail(s, j),
    decreases s.len() - j,
{
    if j == s.len() {
        assert(s.take(j) =~= s);
        assert(enc_sub_items(s.take(j)) + enc_sub_tail(s, j) =~= enc_sub_items(s));
    } else {
        lemma_enc_sub_items_tail(s, j + 1);
        assert(s.take(j + 1).drop_last() =~= s.take(j));
        assert(s.take(j + 1).last() == s[j]);
        assert(enc_sub_items(s.take(j + 1)) == enc_sub_items(s.take(j)) + enc_path(s[j].0)
            + enc_account(s[j].1));
        lemma_add_assoc(enc_path(s[j].0), enc_account(s[j].1), enc_sub_tail(s, j + 1));
        lemma_add_assoc(
            enc_sub_items(s.take(j)),
            enc_path(s[j].0) + enc_account(s[j].1),
            enc_sub_tail(s, j + 1),
        );
        lemma_add_assoc(enc_sub_items(s.take(j)) + enc_path(s[j].0), enc_account(s[j].1),
            enc_sub_tail(s, j + 1));
        lemma_add_assoc(enc_sub_items(s.take(j)), enc_path(s[j].0), enc_account(s[j].1));
    }
}

/// The serialized tail of the keyrings from position `j` on.
spec fn enc_keyring_tail(s: Seq<KeyringView>, j: int) -> Seq<u8>
    decreases s.len() - j,
{
    if 0 <= j < s.len() {
        enc_keyring(s[j]) + enc_keyring_tail(s, j + 1)
    } else {
        Seq::empty()
    }
}

/// The serialized keyrings are the first `j` items then the tail.
#[verifier::rlimit(100)]
proof fn lemma_enc_keyring_items_tail(s: Seq<KeyringView>, j: int)
    requires
        0 <= j <= s.len(),
    ensures
        enc_keyring_items(s) == enc_keyring_items(s.take(j)) + enc_keyring_tail(s, j),
    decreases s.len() - j,
{
    if j == s.len() {
        assert(s.take(j) =~= s);
        assert(enc_keyring_items(s.take(j)) + enc_keyring_tail(s, j) =~= enc_keyring_items(s));
    } else {
        lemma_enc_keyring_items_tail(s, j + 1);
        assert(s.take(j + 1).drop_last() =~= s.take(j));
        assert(s.take(j + 1).last() == s[j]);
        assert(enc_keyring_items(s.take(j + 1)) == enc_keyring_items(s.take(j)) + enc_keyring(
            s[j],
        ));
        lemma_add_assoc(enc_keyring_items(s.take(j)), enc_keyring(s[j]), enc_keyring_tail(s, j + 1));
    }
}

/// Appends a length-prefixed byte string.
fn write_bytes(out: &mut Vec<u8>, b: &Vec<u8>)
    ensures
        final(out)@ == old(out)@ + enc_bytes(b@),
        b@.len() < len64(),
{
    let n = b.len();
    proof {
        assert(n <= usize::MAX);
        assert(b@.len() < len64());
    }
    push_be64(out, n as u64);
    push_bytes(out, b.as_slice());
    proof {
        assert(final(out)@ =~= old(out)@ + enc_bytes(b@));
    }
}

/// Appends a length-prefixed string.
fn write_str(out: &mut Vec<u8>, s: &String)
    ensures
        final(out)@ == old(out)@ + enc_str(s@),
        encode_utf8(s@).len() < len64(),
{
    let b = s.as_str().as_bytes_vec();
    write_bytes(out, &b);
}

/// Appends a length-prefixed path.
fn write_path(out: &mut Vec<u8>, p: &Vec<u32>)
    ensures
        final(out)@ == old(out)@ + enc_path(p@),
        p@.len() < len64(),
{
    let n = p.len();
    proof {
        assert(n <= usize::MAX);
    }
    push_be64(out, n as u64);
    let mut i: usize = 0;
    while i < p.len()
        invariant
            i <= p@.len(),
            out@ == old(out)@ + be64(p@.len() as u64) + enc_u32s(p@.take(i as int)),
        decreases p@.len() - i,
    {
        crate::bytes::push_be32(out, p[i]);
        proof {
            assert(p@.take(i as int + 1).drop_last() =~= p@.take(i as int));
            assert(out@ =~= old(out)@ + be64(p@.len() as u64) + enc_u32s(p@.take(i as int + 1)));
        }
        i = i + 1;
    }
    proof {
        assert(p@.take(p@.len() as int) =~= p@);
        assert(final(out)@ =~= old(out)@ + enc_path(p@));
    }
}

/// Appends a length-prefixed asset set.
fn write_assets(out: &mut Vec<u8>, s: &Vec<AssetId>)
    ensures
        final(out)@ == old(out)@ + enc_assets(crate::assets::asset_views(s@)),
        crate::assets::asset_views(s@).len() < len64(),
{
    let n = s.len();
    proof {
        assert(n <= usize::MAX);
    }
    push_be64(out, n as u64);
    let ghost views = crate::assets::asset_views(s@);
    let mut i: usize = 0;
    while i < s.len()
        invariant
            i <= s@.len(),
            views == crate::assets::asset_views(s@),
            out@ == old(out)@ + be64(s@.len() as u64) + enc_asset_items(views.take(i as int)),
        decreases s@.len() - i,
    {
        push_bytes(out, &s[i].bytes);
        proof {
            assert(views.take(i as int + 1).drop_last() =~= views.take(i as int));
            assert(views.take(i as int + 1).last() == views[i as int]);
            assert(out@ =~= old(out)@ + be64(s@.len() as u64) + enc_asset_items(views.take(
                i as int + 1,
            )));
        }
        i = i + 1;
    }
    proof {
        assert(views.take(views.len() as int) =~= views);
        assert(final(out)@ =~= old(out)@ + enc_assets(views));
    }
}

/// Appends a keys account.
fn write_account(out: &mut Vec<u8>, a: &KeysAccount)
    requires
        account_wf(a@),
    ensures
        final(out)@ == old(out)@ + enc_account(a@),
        account_codec_wf(a@),
{
    let xe = encode_xpub(&a.xpubkey);
    push_bytes(out, xe.as_slice());
    write_str(out, &a.name);
    write_str(out, &a.details);
    write_assets(out, &a.assets);
    write_bytes(out, &a.encrypted);
    push_bytes(out, &a.unblinding);
    proof {
        assert(final(out)@ =~= old(out)@ + enc_account(a@));
        assert forall|i: int| 0 <= i < a@.assets.len() implies (#[trigger] a@.assets[i]).len()
            == 32 by {
            assert(a@.assets[i] == a.assets@[i]@);
        }
    }
}

/// Appends a keyring.
#[verifier::rlimit(100)]
fn write_keyring(out: &mut Vec<u8>, k: &Keyring)
    requires
        keyring_wf(k@),
    ensures
        final(out)@ == old(out)@ + enc_keyring(k@),
        keyring_codec_wf(k@),
{
    write_account(out, &k.master_account);
    match &k.key_source {
        None => {
            out.push(0u8);
            proof {
                assert(out@ =~= old(out)@ + enc_account(k@.master_account) + enc_opt_source(
                    k@.key_source,
                ));
            }
        },
        Some(ks) => {
            out.push(1u8);
            push_bytes(out, &ks.fingerprint);
            write_path(out, &ks.path);
            proof {
                assert(out@ =~= old(out)@ + enc_account(k@.master_account) + enc_opt_source(
                    k@.key_source,
                ));
            }
        },
    }
    let sn = k.sub_accounts.len();
    proof {
        assert(sn <= usize::MAX);
    }
    push_be64(out, sn as u64);
    let ghost subs = sub_views(k.sub_accounts@);
    let ghost head = old(out)@ + enc_account(k@.master_account) + enc_opt_source(k@.key_source)
        + be64(subs.len() as u64);
    assert(out@ == head);
    let mut i: usize = 0;
    while i < k.sub_accounts.len()
        invariant
            i <= k.sub_accounts@.len(),
            subs == sub_views(k.sub_accounts@),
            keyring_wf(k@),
            forall|t: int| 0 <= t < i ==> account_codec_wf(#[trigger] subs[t].1) && subs[t].0.len()
                < len64(),
            out@ == head + enc_sub_items(subs.take(i as int)),
        decreases k.sub_accounts@.len() - i,
    {
        proof {
            assert(subs[i as int].1 == k@.sub_accounts[i as int].1);
            assert(account_wf(k@.sub_accounts[i as int].1));
        }
        write_path(out, &k.sub_accounts[i].0);
        write_account(out, &k.sub_accounts[i].1);
        proof {
            assert(subs.take(i as int + 1).drop_last() =~= subs.take(i as int));
            assert(out@ =~= head + enc_sub_items(subs.take(i as int + 1)));
        }
        i = i + 1;
    }
    proof {
        assert(subs.take(subs.len() as int) =~= subs);
        assert(final(out)@ =~= old(out)@ + enc_keyring(k@));
        assert forall|t: int| 0 <= t < k@.sub_accounts.len() implies account_codec_wf(
            #[trigger] k@.sub_accounts[t].1,
        ) && k@.sub_accounts[t].0.len() < len64() by {
            assert(k@.sub_accounts[t] == subs[t]);
            assert(account_codec_wf(subs[t].1) && subs[t].0.len() < len64());
        }
        assert(keyring_wf(k@));
        assert(account_codec_wf(k@.master_account));
        assert(match k@.key_source {
            Some(ks) => ks.fingerprint.len() == 4 && ks.path.len() < len64(),
            None => true,
        });
        assert(k@.sub_accounts.len() < len64());
        assert(keyring_codec_wf(k@));
    }
}

/// Serializes a keyring sequence into the canonical binary form.
#[verifier::rlimit(100)]
pub fn encode_keyrings(ks: &Vec<Keyring>) -> (r: Vec<u8>)
    requires
        forall|i: int| 0 <= i < ks@.len() ==> keyring_wf(#[trigger] keyring_views(ks@)[i]),
    ensures
        r@ == enc_keyrings(keyring_views(ks@)),
        keyrings_codec_wf(keyring_views(ks@)),
{
    let mut out: Vec<u8> = Vec::new();
    let kn = ks.len();
    proof {
        assert(kn <= usize::MAX);
    }
    push_be64(&mut out, kn as u64);
    let ghost views = keyring_views(ks@);
    let ghost head = be64(views.len() as u64);
    proof {
        assert(out@ =~= head);
    }
    let mut i: usize = 0;
    while i < ks.len()
        invariant
            i <= ks@.len(),
            views == keyring_views(ks@),
            forall|t: int| 0 <= t < ks@.len() ==> keyring_wf(#[trigger] keyring_views(ks@)[t]),
            forall|t: int| 0 <= t < i ==> keyring_codec_wf(#[trigger] views[t]),
            out@ == head + enc_keyring_items(views.take(i as int)),
        decreases ks@.len() - i,
    {
        proof {
            assert(keyring_wf(views[i as int]));
        }
        write_keyring(&mut out, &ks[i]);
        proof {
            assert(views.take(i as int + 1).drop_last() =~= views.take(i as int));
            assert(out@ =~= head + enc_keyring_items(views.take(i as int + 1)));
        }
        i = i + 1;
    }
    proof {
        assert(views.take(views.len() as int) =~= views);
        assert(out@ =~= enc_keyrings(views));
    }
    out
}

/// Reads a big-endian `u64` and advances the position.  Succeeds exactly
/// when eight bytes remain.
fn read_u64p(data: &Vec<u8>, pos: &mut usize) -> (r: Option<u64>)
    requires
        *old(pos) <= data@.len(),
    ensures
        r matches Some(n) ==> *final(pos) == *old(pos) + 8 && *old(pos) + 8 <= data@.len() && n
            == u64_of_be(data@.subrange(*old(pos) as int, *old(pos) as int + 8)),
        r is Some <==> *old(pos) + 8 <= data@.len(),
        r is None ==> *final(pos) == *old(pos),
        *final(pos) <= data@.len(),
{
    if data.len() - *pos < 8 {
        return None;
    }
    let n = read_be64(data, *pos);
    *pos = *pos + 8;
    Some(n)
}

/// Reads a length as a `u64` that must fit the machine's `usize`.
fn read_len(data: &Vec<u8>, pos: &mut usize) -> (r: Option<usize>)
    requires
        *old(pos) <= data@.len(),
    ensures
        r matches Some(n) ==> *final(pos) == *old(pos) + 8 && *old(pos) + 8 <= data@.len(),
        r matches Some(n) ==> n as u64 == u64_of_be(
            data@.subrange(*old(pos) as int, *old(pos) as int + 8),
        ),
        *old(pos) + 8 <= data@.len() && u64_of_be(
            data@.subrange(*old(pos) as int, *old(pos) as int + 8),
        ) <= usize::MAX as u64 ==> r is Some,
        r is None ==> *final(pos) == *old(pos) || *final(pos) == *old(pos) + 8,
        *final(pos) <= data@.len(),
{
    let n = match read_u64p(data, pos) {
        Some(n) => n,
        None => {
            return None;
        },
    };
    if n > usize::MAX as u64 {
        return None;
    }
    Some(n as usize)
}

/// Reads `n` raw bytes and advances the position.
fn read_exact(data: &Vec<u8>, pos: &mut usize, n: usize) -> (r: Option<Vec<u8>>)
    requires
        *old(pos) <= data@.len(),
    ensures
        r matches Some(v) ==> *final(pos) == *old(pos) + n && v@.len() == n && v@
            == data@.subrange(*old(pos) as int, *old(pos) as int + n as int),
        *old(pos) + n <= data@.len() ==> r is Some,
        r is None ==> *final(pos) == *old(pos),
        *final(pos) <= data@.len(),
{
    if data.len() - *pos < n {
        return None;
    }
    let v = sub_vec(data, *pos, *pos + n);
    *pos = *pos + n;
    Some(v)
}

/// Reads a length-prefixed byte string; succeeds on the serialization of the
/// expected bytes and returns exactly them.
fn read_vec(data: &Vec<u8>, pos: &mut usize, Ghost(want): Ghost<Seq<u8>>) -> (r: Option<Vec<u8>>)
    requires
        *old(pos) <= data@.len(),
    ensures
        *final(pos) <= data@.len(),
        want.len() < len64() && continues(data@, *old(pos) as int, enc_bytes(want)) ==> (r matches
            Some(v) && v@ == want && *final(pos) == *old(pos) + enc_bytes(want).len()),
{
    let _dlen = data.len();
    let ghost p0 = *pos as int;
    let ghost hyp = want.len() < len64() && continues(data@, p0, enc_bytes(want));
    proof {
        if hyp {
            lemma_continues_split(data@, p0, crate::bytes::be64(want.len() as u64), want);
            crate::bytes::lemma_be64_roundtrip(want.len() as u64);
        }
    }
    let n = match read_len(data, pos) {
        Some(n) => n,
        None => {
            proof {
                if hyp {
                    assert(false);
                }
            }
            return None;
        },
    };
    proof {
        if hyp {
            assert(n == want.len());
        }
    }
    let r = read_exact(data, pos, n);
    proof {
        if hyp {
            assert(r matches Some(v) && v@ == want);
        }
    }
    r
}

/// Reads a length-prefixed string; succeeds on the serialization of the
/// expected characters and returns exactly them.
fn read_string(data: &Vec<u8>, pos: &mut usize, Ghost(want): Ghost<Seq<char>>) -> (r: Option<
    String,
>)
    requires
        *old(pos) <= data@.len(),
    ensures
        *final(pos) <= data@.len(),
        encode_utf8(want).len() < len64() && continues(data@, *old(pos) as int, enc_str(want))
            ==> (r matches Some(s) && s@ == want && *final(pos) == *old(pos) + enc_str(
            want,
        ).len()),
{
    let ghost p0 = *pos as int;
    let ghost hyp = encode_utf8(want).len() < len64() && continues(data@, p0, enc_str(want));
    let b = match read_vec(data, pos, Ghost(encode_utf8(want))) {
        Some(b) => b,
        None => {
            proof {
                if hyp {
                    assert(false);
                }
            }
            return None;
        },
    };
    let r = string_from_utf8(b);
    proof {
        broadcast use vstd::utf8::encode_utf8_valid_utf8;
        broadcast use vstd::utf8::encode_utf8_decode_utf8;

        if hyp {
            assert(valid_utf8(encode_utf8(want)));
            assert(r matches Some(s) && s@ == want);
        }
    }
    r
}

/// Reads a length-prefixed derivation path; succeeds on the serialization of
/// the expected path and returns exactly it.
fn read_path(data: &Vec<u8>, pos: &mut usize, Ghost(want): Ghost<Seq<u32>>) -> (r: Option<Vec<u32>>)
    requires
        *old(pos) <= data@.len(),
    ensures
        *final(pos) <= data@.len(),
        want.len() < len64() && continues(data@, *old(pos) as int, enc_path(want)) ==> (r matches
            Some(v) && v@ == want && *final(pos) == *old(pos) + enc_path(want).len()),
{
    let _dlen = data.len();
    let ghost p0 = *pos as int;
    let ghost hyp = want.len() < len64() && continues(data@, p0, enc_path(want));
    proof {
        if hyp {
            lemma_enc_u32s_len(want);
            lemma_continues_split(data@, p0, crate::bytes::be64(want.len() as u64), enc_u32s(want));
            crate::bytes::lemma_be64_roundtrip(want.len() as u64);
        }
    }
    proof {
        if hyp {
            assert(want.len() <= enc_u32s(want).len());
            assert(want.len() <= data@.len());
            assert(data@.len() <= usize::MAX);
            assert(want.len() as u64 <= usize::MAX as u64);
        }
    }
    let n = match read_len(data, pos) {
        Some(n) => n,
        None => {
            proof {
                if hyp {
                    assert(false);
                }
            }
            return None;
        },
    };
    proof {
        if hyp {
            assert(n == want.len());
        }
    }
    let mut out: Vec<u32> = Vec::new();
    let mut i: usize = 0;
    while i < n
        invariant
            i <= n,
            *pos <= data@.len(),
            p0 == *old(pos) as int,
            hyp == (want.len() < len64() && continues(data@, p0, enc_path(want))),
            hyp ==> n == want.len() && enc_u32s(want).len() == 4 * want.len() && continues(
                data@,
                p0 + 8,
                enc_u32s(want),
            ) && *pos == p0 + 8 + 4 * (i as int) && out@ == want.take(i as int),
        decreases n - i,
    {
        if data.len() - *pos < 4 {
            proof {
                if hyp {
                    assert(false);
                }
            }
            return None;
        }
        let v = crate::bytes::read_be32(data, *pos);
        proof {
            if hyp {
                lemma_enc_u32s_index(want, i as int);
                lemma_continues_sub(data@, p0 + 8, enc_u32s(want), 4 * (i as int), 4 * (i as int)
                    + 4);
                crate::bytes::lemma_be32_roundtrip(want[i as int]);
                assert(v == want[i as int]);
            }
        }
        *pos = *pos + 4;
        out.push(v);
        proof {
            if hyp {
                assert(out@ =~= want.take(i as int + 1));
            }
        }
        i = i + 1;
    }
    proof {
        if hyp {
            assert(out@ =~= want);
        }
    }
    Some(out)
}

/// Reads a length-prefixed asset set, rejecting duplicates; succeeds on the
/// serialization of the expected distinct identifiers and returns exactly
/// them.
fn read_assets(data: &Vec<u8>, pos: &mut usize, Ghost(want): Ghost<Seq<Seq<u8>>>) -> (r: Option<
    Vec<AssetId>,
>)
    requires
        *old(pos) <= data@.len(),
    ensures
        *final(pos) <= data@.len(),
        r matches Some(v) ==> assets_unique(crate::assets::asset_views(v@)),
        (forall|i: int| 0 <= i < want.len() ==> (#[trigger] want[i]).len() == 32) && assets_unique(
            want,
        ) && want.len() < len64() && continues(data@, *old(pos) as int, enc_assets(want)) ==> (
        r matches Some(v) && crate::assets::asset_views(v@) == want && *final(pos) == *old(pos)
            + enc_assets(want).len()),
{
    let _dlen = data.len();
    let ghost p0 = *pos as int;
    let ghost hyp = (forall|i: int| 0 <= i < want.len() ==> (#[trigger] want[i]).len() == 32)
        && assets_unique(want) && want.len() < len64() && continues(data@, p0, enc_assets(want));
    proof {
        if hyp {
            lemma_enc_asset_items_len(want);
            lemma_continues_split(
                data@,
                p0,
                crate::bytes::be64(want.len() as u64),
                enc_asset_items(want),
            );
            crate::bytes::lemma_be64_roundtrip(want.len() as u64);
        }
    }
    proof {
        if hyp {
            assert(want.len() <= enc_asset_items(want).len());
            assert(want.len() <= data@.len());
            assert(data@.len() <= usize::MAX);
            assert(want.len() as u64 <= usize::MAX as u64);
        }
    }
    let n = match read_len(data, pos) {
        Some(n) => n,
        None => {
            proof {
                if hyp {
                    assert(false);
                }
            }
            return None;
        },
    };
    proof {
        if hyp {
            assert(n == want.len());
        }
    }
    let mut out: Vec<AssetId> = Vec::new();
    let mut i: usize = 0;
    while i < n
        invariant
            i <= n,
            *pos <= data@.len(),
            p0 == *old(pos) as int,
            assets_unique(crate::assets::asset_views(out@)),
            hyp == ((forall|t: int| 0 <= t < want.len() ==> (#[trigger] want[t]).len() == 32)
                && assets_unique(want) && want.len() < len64() && continues(
                data@,
                p0,
                enc_assets(want),
            )),
            hyp ==> n == want.len() && enc_asset_items(want).len() == 32 * want.len() && continues(
                data@,
                p0 + 8,
                enc_asset_items(want),
            ) && *pos == p0 + 8 + 32 * (i as int) && crate::assets::asset_views(out@) == want.take(
                i as int,
            ),
        decreases n - i,
    {
        proof {
            if hyp {
                lemma_enc_asset_items_index(want, i as int);
                lemma_continues_sub(data@, p0 + 8, enc_asset_items(want), 32 * (i as int), 32 * (
                i as int) + 32);
            }
        }
        let b = match read_exact(data, pos, 32) {
            Some(b) => b,
            None => {
                proof {
                    if hyp {
                        assert(false);
                    }
                }
                return None;
            },
        };
        let a = AssetId { bytes: to_array_32(b.as_slice()) };
        if crate::assets::asset_contains(&out, &a) {
            proof {
                if hyp {
                    assert(a@ == want[i as int]);
                    let t = choose|t: int|
                        0 <= t < want.take(i as int).len() && want.take(i as int)[t] == a@;
                    assert(want[t] == want[i as int]);
                    assert(false);
                }
            }
            return None;
        }
        let ghost before = crate::assets::asset_views(out@);
        out.push(a);
        proof {
            assert(crate::assets::asset_views(out@) =~= before.push(a@));
            crate::assets::lemma_unique_push(before, a@);
            if hyp {
                assert(crate::assets::asset_views(out@) =~= want.take(i as int + 1));
            }
        }
        i = i + 1;
    }
    proof {
        if hyp {
            assert(crate::assets::asset_views(out@) =~= want);
        }
    }
    Some(out)
}

/// Reads a keys account; succeeds on the serialization of any account fit
/// for the codec and returns exactly it.
#[verifier::rlimit(100)]
fn read_account(data: &Vec<u8>, pos: &mut usize, Ghost(want): Ghost<KeysAccountView>) -> (r: Option<
    KeysAccount,
>)
    requires
        *old(pos) <= data@.len(),
    ensures
        *final(pos) <= data@.len(),
        r matches Some(a) ==> account_wf(a@),
        account_codec_wf(want) && continues(data@, *old(pos) as int, enc_account(want)) ==> (
        r matches Some(a) && a@ == want && *final(pos) == *old(pos) + enc_account(want).len()),
{
    let ghost p0 = *pos as int;
    let ghost hyp = account_codec_wf(want) && continues(data@, p0, enc_account(want));
    proof {
        if hyp {
            let pa = xpub_encode(want.xpubkey);
            let pb = enc_str(want.name);
            let pc = enc_str(want.details);
            let pd = enc_assets(want.assets);
            let pe = enc_bytes(want.encrypted);
            lemma_continues_split(data@, p0, pa + pb + pc + pd + pe, want.unblinding);
            lemma_continues_split(data@, p0, pa + pb + pc + pd, pe);
            lemma_continues_split(data@, p0, pa + pb + pc, pd);
            lemma_continues_split(data@, p0, pa + pb, pc);
            lemma_continues_split(data@, p0, pa, pb);
        }
    }
    let xb = match read_exact(data, pos, 78) {
        Some(b) => b,
        None => {
            proof {
                if hyp {
                    assert(false);
                }
            }
            return None;
        },
    };
    let xpubkey = match decode_xpub(&xb) {
        Some(x) => x,
        None => {
            proof {
                if hyp {
                    assert(false);
                }
            }
            return None;
        },
    };
    proof {
        if hyp {
            assert(xb@ == xpub_encode(want.xpubkey));
            crate::bip32::lemma_xpub_encode_injective(xpubkey@, want.xpubkey);
        }
    }
    let name = match read_string(data, pos, Ghost(want.name)) {
        Some(s) => s,
        None => {
            proof {
                if hyp {
                    assert(false);
                }
            }
            return None;
        },
    };
    let details = match read_string(data, pos, Ghost(want.details)) {
        Some(s) => s,
        None => {
            proof {
                if hyp {
                    assert(false);
                }
            }
            return None;
        },
    };
    let assets = match read_assets(data, pos, Ghost(want.assets)) {
        Some(a) => a,
        None => {
            proof {
                if hyp {
                    assert(false);
                }
            }
            return None;
        },
    };
    let encrypted = match read_vec(data, pos, Ghost(want.encrypted)) {
        Some(e) => e,
        None => {
            proof {
                if hyp {
                    assert(false);
                }
            }
            return None;
        },
    };
    let ub = match read_exact(data, pos, 33) {
        Some(b) => b,
        None => {
            proof {
                if hyp {
                    assert(false);
                }
            }
            return None;
        },
    };
    let account = KeysAccount {
        xpubkey,
        name,
        details,
        assets,
        encrypted,
        unblinding: crate::bytes::to_array_33(ub.as_slice()),
    };
    proof {
        if hyp {
            assert(ub@ == want.unblinding);
            assert(account@ =~= want);
        }
    }
    Some(account)
}

/// Reads a keyring, rejecting an empty or repeated sub-account path;
/// succeeds on the serialization of any keyring fit for the codec and
/// returns exactly it.
#[verifier::rlimit(100)]
fn read_keyring(data: &Vec<u8>, pos: &mut usize, Ghost(want): Ghost<KeyringView>) -> (r: Option<
    Keyring,
>)
    requires
        *old(pos) <= data@.len(),
    ensures
        *final(pos) <= data@.len(),
        r matches Some(k) ==> keyring_wf(k@),
        keyring_codec_wf(want) && continues(data@, *old(pos) as int, enc_keyring(want)) ==> (
        r matches Some(k) && k@ == want && *final(pos) == *old(pos) + enc_keyring(want).len()),
{
    let _dlen = data.len();
    let ghost p0 = *pos as int;
    let ghost hyp = keyring_codec_wf(want) && continues(data@, p0, enc_keyring(want));
    proof {
        if hyp {
            let pa = enc_account(want.master_account);
            let pb = enc_opt_source(want.key_source);
            let pc = crate::bytes::be64(want.sub_accounts.len() as u64);
            lemma_continues_split(data@, p0, pa + pb + pc, enc_sub_items(want.sub_accounts));
            lemma_continues_split(data@, p0, pa + pb, pc);
            lemma_continues_split(data@, p0, pa, pb);
            crate::bytes::lemma_be64_roundtrip(want.sub_accounts.len() as u64);
            lemma_enc_sub_items_min(want.sub_accounts);
        }
    }
    let master_account = match read_account(data, pos, Ghost(want.master_account)) {
        Some(a) => a,
        None => {
            proof {
                if hyp {
                    assert(false);
                }
            }
            return None;
        },
    };
    let ghost psrc = *pos as int;
    proof {
        if hyp {
            if want.key_source is Some {
                let ks = want.key_source.unwrap();
                assert(enc_opt_source(want.key_source) =~= (seq![1u8] + ks.fingerprint) + enc_path(
                    ks.path,
                ));
                lemma_continues_split(data@, psrc, seq![1u8] + ks.fingerprint, enc_path(ks.path));
                lemma_continues_split(data@, psrc, seq![1u8], ks.fingerprint);
            } else {
                assert(enc_opt_source(want.key_source) =~= seq![0u8]);
            }
        }
    }
    let tag = match read_exact(data, pos, 1) {
        Some(t) => t,
        None => {
            proof {
                if hyp {
                    assert(false);
                }
            }
            return None;
        },
    };
    proof {
        if hyp {
            if want.key_source is Some {
                assert(tag@ == seq![1u8]);
                assert(tag@[0] == 1u8);
            } else {
                assert(tag@ == seq![0u8]);
                assert(tag@[0] == 0u8);
            }
        }
    }
    let key_source = if tag[0] == 0 {
        None
    } else if tag[0] == 1 {
        let fp = match read_exact(data, pos, 4) {
            Some(b) => b,
            None => {
                proof {
                    if hyp {
                        assert(false);
                    }
                }
                return None;
            },
        };
        let path = match read_path(
            data,
            pos,
            Ghost(
                match want.key_source {
                    Some(ks) => ks.path,
                    None => Seq::empty(),
                },
            ),
        ) {
            Some(p) => p,
            None => {
                proof {
                    if hyp {
                        assert(false);
                    }
                }
                return None;
            },
        };
        Some(KeySource { fingerprint: to_array_4(fp.as_slice()), path })
    } else {
        proof {
            if hyp {
                assert(false);
            }
        }
        return None;
    };
    let ghost pcnt = *pos as int;
    proof {
        if hyp {
            assert(pcnt == p0 + enc_account(want.master_account).len() + enc_opt_source(
                want.key_source,
            ).len());
        }
    }
    proof {
        if hyp {
            assert(continues(data@, pcnt, crate::bytes::be64(want.sub_accounts.len() as u64)));
            assert(want.sub_accounts.len() <= enc_sub_items(want.sub_accounts).len());
            assert(want.sub_accounts.len() <= data@.len());
            assert(data@.len() <= usize::MAX);
            assert(want.sub_accounts.len() as u64 <= usize::MAX as u64);
        }
    }
    let n = match read_len(data, pos) {
        Some(n) => n,
        None => {
            proof {
                if hyp {
                    assert(false);
                }
            }
            return None;
        },
    };
    proof {
        if hyp {
            assert(n == want.sub_accounts.len());
            lemma_enc_sub_items_tail(want.sub_accounts, 0);
            assert(want.sub_accounts.take(0) =~= Seq::<(Seq<u32>, KeysAccountView)>::empty());
            assert(enc_sub_items(want.sub_accounts.take(0)) + enc_sub_tail(want.sub_accounts, 0)
                =~= enc_sub_tail(want.sub_accounts, 0));
        }
    }
    let mut sub_accounts: Vec<(Vec<u32>, KeysAccount)> = Vec::new();
    proof {
        if hyp {
            assert(sub_views(sub_accounts@) =~= want.sub_accounts.take(0));
        }
    }
    let mut i: usize = 0;
    while i < n
        invariant
            i <= n,
            *pos <= data@.len(),
            account_wf(master_account@),
            forall|t: int| 0 <= t < sub_views(sub_accounts@).len() ==> account_wf(
                #[trigger] sub_views(sub_accounts@)[t].1,
            ) && sub_views(sub_accounts@)[t].0.len() > 0,
            forall|x: int, y: int|
                0 <= x < y < sub_views(sub_accounts@).len() ==> sub_views(sub_accounts@)[x].0
                    != sub_views(sub_accounts@)[y].0,
            p0 == *old(pos) as int,
            hyp == (keyring_codec_wf(want) && continues(data@, p0, enc_keyring(want))),
            hyp ==> n == want.sub_accounts.len() && sub_views(sub_accounts@)
                == want.sub_accounts.take(i as int) && *pos == pcnt + 8 + enc_sub_items(
                want.sub_accounts.take(i as int),
            ).len() && continues(data@, *pos as int, enc_sub_tail(want.sub_accounts, i as int)),
        decreases n - i,
    {
        let ghost pitem = *pos as int;
        proof {
            if hyp {
                let wp = want.sub_accounts[i as int].0;
                let wa = want.sub_accounts[i as int].1;
                assert(enc_sub_tail(want.sub_accounts, i as int) == enc_path(wp) + enc_account(wa)
                    + enc_sub_tail(want.sub_accounts, i as int + 1));
                lemma_continues_split(
                    data@,
                    pitem,
                    enc_path(wp) + enc_account(wa),
                    enc_sub_tail(want.sub_accounts, i as int + 1),
                );
                lemma_continues_split(data@, pitem, enc_path(wp), enc_account(wa));
            }
        }
        let path = match read_path(
            data,
            pos,
            Ghost(
                if i < want.sub_accounts.len() {
                    want.sub_accounts[i as int].0
                } else {
                    Seq::empty()
                },
            ),
        ) {
            Some(p) => p,
            None => {
                proof {
                    if hyp {
                        assert(false);
                    }
                }
                return None;
            },
        };
        if path.len() == 0 {
            proof {
                if hyp {
                    assert(false);
                }
            }
            return None;
        }
        let mut t: usize = 0;
        while t < sub_accounts.len()
            invariant
                t <= sub_accounts@.len(),
                *pos <= data@.len(),
                p0 == *old(pos) as int,
                hyp == (keyring_codec_wf(want) && continues(data@, p0, enc_keyring(want))),
                hyp ==> path@ == want.sub_accounts[i as int].0 && i < want.sub_accounts.len()
                    && sub_views(sub_accounts@) == want.sub_accounts.take(i as int)
                    && keyring_codec_wf(want),
                forall|w: int| 0 <= w < t ==> #[trigger] sub_views(sub_accounts@)[w].0 != path@,
            decreases sub_accounts@.len() - t,
        {
            if crate::keymgm::paths_eq(&sub_accounts[t].0, &path) {
                proof {
                    if hyp {
                        assert(want.sub_accounts.take(i as int)[t as int].0 == path@);
                        assert(want.sub_accounts[t as int].0 == want.sub_accounts[i as int].0);
                        assert(false);
                    }
                }
                return None;
            }
            proof {
                assert(sub_views(sub_accounts@)[t as int].0 == sub_accounts@[t as int].0@);
            }
            t = t + 1;
        }
        let account = match read_account(
            data,
            pos,
            Ghost(
                if i < want.sub_accounts.len() {
                    want.sub_accounts[i as int].1
                } else {
                    want.master_account
                },
            ),
        ) {
            Some(a) => a,
            None => {
                proof {
                    if hyp {
                        assert(false);
                    }
                }
                return None;
            },
        };
        let ghost before = sub_views(sub_accounts@);
        let ghost newpath = path@;
        sub_accounts.push((path, account));
        proof {
            assert(sub_views(sub_accounts@) =~= before.push((newpath, account@)));
            let ns = sub_views(sub_accounts@);
            assert forall|x: int, y: int| 0 <= x < y < ns.len() implies ns[x].0 != ns[y].0 by {
                if y == ns.len() - 1 {
                    assert(ns[x] == before[x]);
                }
            }
            assert forall|w: int| 0 <= w < ns.len() implies account_wf(#[trigger] ns[w].1)
                && ns[w].0.len() > 0 by {
                if w < ns.len() - 1 {
                    assert(ns[w] == before[w]);
                } else {
                    assert(ns[w] == (newpath, account@));
                    assert(account_wf(account@));
                    assert(newpath.len() > 0);
                }
            }
            if hyp {
                assert(sub_views(sub_accounts@) =~= want.sub_accounts.take(i as int + 1));
                assert(want.sub_accounts.take(i as int + 1).drop_last() =~= want.sub_accounts.take(
                    i as int,
                ));
                assert(enc_sub_items(want.sub_accounts.take(i as int + 1)) == enc_sub_items(
                    want.sub_accounts.take(i as int),
                ) + enc_path(want.sub_accounts[i as int].0) + enc_account(
                    want.sub_accounts[i as int].1,
                ));
            }
        }
        i = i + 1;
    }
    let k = Keyring { master_account, key_source, sub_accounts };
    proof {
        assert(account_wf(k@.master_account));
        assert(forall|t: int| 0 <= t < k@.sub_accounts.len() ==> account_wf(
            #[trigger] k@.sub_accounts[t].1,
        ));
        assert forall|t: int|
            0 <= t < k@.sub_accounts.len() implies (#[trigger] k@.sub_accounts[t].0).len() > 0 by {
            assert(account_wf(k@.sub_accounts[t].1));
        }
        assert(forall|x: int, y: int|
            0 <= x < y < k@.sub_accounts.len() ==> k@.sub_accounts[x].0 != k@.sub_accounts[y].0);
        assert(keyring_wf(k@));
        if hyp {
            assert(want.sub_accounts.take(n as int) =~= want.sub_accounts);
            lemma_enc_sub_items_tail(want.sub_accounts, n as int);
            assert(k@ =~~= want);
        }
    }
    Some(k)
}

/// Parses the canonical binary form back into keyrings.  Succeeds on exactly
/// the canonical serializations: every keyring sequence fit for the codec is
/// parsed back from its artifact, and what the parser returns serializes to
/// the very bytes that were read.  Storing a loaded vault therefore writes
/// the file back unchanged, and loading after storing after loading is the
/// same as loading.
#[verifier::rlimit(100)]
pub fn decode_keyrings(data: &Vec<u8>) -> (r: Option<Vec<Keyring>>)
    ensures
        r matches Some(v) ==> (forall|i: int|
            0 <= i < keyring_views(v@).len() ==> keyring_wf(#[trigger] keyring_views(v@)[i]))
            && enc_keyrings(keyring_views(v@)) == data@ && keyrings_codec_wf(keyring_views(v@)),
        forall|s: Seq<KeyringView>|
            keyrings_codec_wf(s) && #[trigger] enc_keyrings(s) == data@ ==> (r matches Some(v)
                && keyring_views(v@) == s),
{
    let _dlen = data.len();
    let ghost ex = exists|s: Seq<KeyringView>|
        keyrings_codec_wf(s) && #[trigger] enc_keyrings(s) == data@;
    let ghost gw: Seq<KeyringView> = choose|s: Seq<KeyringView>|
        keyrings_codec_wf(s) && #[trigger] enc_keyrings(s) == data@;
    proof {
        if ex {
            assert(data@.subrange(0, data@.len() as int) =~= data@);
            assert(continues(data@, 0, enc_keyrings(gw)));
            lemma_continues_split(
                data@,
                0,
                crate::bytes::be64(gw.len() as u64),
                enc_keyring_items(gw),
            );
            crate::bytes::lemma_be64_roundtrip(gw.len() as u64);
            lemma_enc_keyring_items_min(gw);
            lemma_enc_keyring_items_tail(gw, 0);
            assert(gw.take(0) =~= Seq::<KeyringView>::empty());
            assert(enc_keyring_items(gw.take(0)) + enc_keyring_tail(gw, 0) =~= enc_keyring_tail(
                gw,
                0,
            ));
        }
    }
    proof {
        if ex {
            assert(gw.len() <= enc_keyring_items(gw).len());
            assert(gw.len() <= data@.len());
            assert(data@.len() <= usize::MAX);
            assert(gw.len() as u64 <= usize::MAX as u64);
        }
    }
    let mut pos: usize = 0;
    let n = match read_len(data, &mut pos) {
        Some(n) => n,
        None => {
            proof {
                if ex {
                    assert(false);
                }
            }
            return None;
        },
    };
    let mut out: Vec<Keyring> = Vec::new();
    proof {
        if ex {
            assert(n == gw.len());
            assert(keyring_views(out@) =~= gw.take(0));
        }
    }
    let mut i: usize = 0;
    while i < n
        invariant
            i <= n,
            pos <= data@.len(),
            forall|t: int| 0 <= t < keyring_views(out@).len() ==> keyring_wf(
                #[trigger] keyring_views(out@)[t],
            ),
            ex == exists|s: Seq<KeyringView>|
                keyrings_codec_wf(s) && #[trigger] enc_keyrings(s) == data@,
            ex ==> keyrings_codec_wf(gw) && enc_keyrings(gw) == data@ && n == gw.len()
                && keyring_views(out@) == gw.take(i as int) && pos == 8 + enc_keyring_items(
                gw.take(i as int),
            ).len() && continues(data@, pos as int, enc_keyring_tail(gw, i as int)),
        decreases n - i,
    {
        proof {
            if ex {
                assert(enc_keyring_tail(gw, i as int) == enc_keyring(gw[i as int])
                    + enc_keyring_tail(gw, i as int + 1));
                lemma_continues_split(
                    data@,
                    pos as int,
                    enc_keyring(gw[i as int]),
                    enc_keyring_tail(gw, i as int + 1),
                );
            }
        }
        let k = match read_keyring(
            data,
            &mut pos,
            Ghost(
                if i < gw.len() {
                    gw[i as int]
                } else {
                    KeyringView {
                        master_account: gw[0].master_account,
                        key_source: None,
                        sub_accounts: Seq::empty(),
                    }
                },
            ),
        ) {
            Some(k) => k,
            None => {
                proof {
                    if ex {
                        assert(false);
                    }
                }
                return None;
            },
        };
        let ghost before = keyring_views(out@);
        out.push(k);
        proof {
            assert(keyring_views(out@) =~= before.push(out@.last()@));
            assert forall|t: int| 0 <= t < keyring_views(out@).len() implies keyring_wf(
                #[trigger] keyring_views(out@)[t],
            ) by {
                if t < keyring_views(out@).len() - 1 {
                    assert(keyring_views(out@)[t] == before[t]);
                }
            }
            if ex {
                assert(keyring_views(out@) =~= gw.take(i as int + 1));
                assert(gw.take(i as int + 1).drop_last() =~= gw.take(i as int));
                assert(enc_keyring_items(gw.take(i as int + 1)) == enc_keyring_items(gw.take(
                    i as int,
                )) + enc_keyring(gw[i as int]));
            }
        }
        i = i + 1;
    }
    proof {
        if ex {
            assert(gw.take(n as int) =~= gw);
            lemma_enc_keyring_items_tail(gw, n as int);
            assert(pos == data@.len());
        }
    }
    if pos != data.len() {
        proof {
            if ex {
                assert(false);
            }
        }
        return None;
    }
    // The artifact must be the canonical serialization of what was read:
    // anything else — trailing data, a different length split — is rejected.
    let re = encode_keyrings(&out);
    if !crate::bytes::bytes_eq(re.as_slice(), data.as_slice()) {
        proof {
            if ex {
                assert(false);
            }
        }
        return None;
    }
    proof {
        assert forall|s: Seq<KeyringView>|
            keyrings_codec_wf(s) && #[trigger] enc_keyrings(s) == data@ implies keyring_views(out@)
            == s by {
            lemma_enc_keyrings_injective(s, gw);
        }
    }
    Some(out)
}

} // verus!
