//! Asset identifiers and the small set algebra on them that account updates
//! use.  A set of assets is a vector of identifiers with pairwise distinct
//! values.

use vstd::prelude::*;

use crate::bytes::bytes_eq;

verus! {

/// A 256-bit identifier of a blockchain asset.
#[derive(Clone, Copy, PartialEq, Eq, Debug)]
pub struct AssetId {
    pub bytes: [u8; 32],
}

impl View for AssetId {
    type V = Seq<u8>;

    open spec fn view(&self) -> Seq<u8> {
        self.bytes@
    }
}

/// The identifiers of a vector of assets, as byte strings.
pub open spec fn asset_views(s: Seq<AssetId>) -> Seq<Seq<u8>> {
    s.map_values(|x: AssetId| x@)
}

/// Whether the byte string is among the identifiers.
pub open spec fn contains_asset(s: Seq<Seq<u8>>, a: Seq<u8>) -> bool {
    exists|i: int| 0 <= i < s.len() && s[i] == a
}

/// Whether all identifiers are pairwise distinct.
pub open spec fn assets_unique(s: Seq<Seq<u8>>) -> bool {
    forall|i: int, j: int| 0 <= i < j < s.len() ==> s[i] != s[j]
}

/// Membership in a sequence extended at the back.
pub proof fn lemma_contains_push(s: Seq<Seq<u8>>, x: Seq<u8>, a: Seq<u8>)
    ensures
        contains_asset(s.push(x), a) == (contains_asset(s, a) || a == x),
{
    if contains_asset(s, a) {
        let w = choose|w: int| 0 <= w < s.len() && s[w] == a;
        assert(s.push(x)[w] == a);
    }
    if a == x {
        assert(s.push(x)[s.len() as int] == a);
    }
    if contains_asset(s.push(x), a) {
        let w = choose|w: int| 0 <= w < s.push(x).len() && s.push(x)[w] == a;
        if w < s.len() {
            assert(s[w] == a);
        }
    }
}

/// Appending an identifier that is absent keeps distinctness.
pub proof fn lemma_unique_push(s: Seq<Seq<u8>>, x: Seq<u8>)
    requires
        assets_unique(s),
        !contains_asset(s, x),
    ensures
        assets_unique(s.push(x)),
{
    assert forall|i: int, j: int| 0 <= i < j < s.push(x).len() implies s.push(x)[i] != s.push(x)[j]
    by {
        if j == s.len() {
            assert(s.push(x)[i] == s[i]);
            if s[i] == x {
                assert(contains_asset(s, x));
            }
        }
    }
}

/// Distinctness of an extended sequence gives distinctness of the prefix and
/// absence of the new identifier from it.
pub proof fn lemma_unique_unpush(s: Seq<Seq<u8>>, x: Seq<u8>)
    requires
        assets_unique(s.push(x)),
    ensures
        assets_unique(s),
        !contains_asset(s, x),
{
    assert forall|i: int, j: int| 0 <= i < j < s.len() implies s[i] != s[j] by {
        assert(s.push(x)[i] == s[i] && s.push(x)[j] == s[j]);
    }
    if contains_asset(s, x) {
        let w = choose|w: int| 0 <= w < s.len() && s[w] == x;
        assert(s.push(x)[w] == x && s.push(x)[s.len() as int] == x);
        assert(false);
    }
}

/// Whether the asset is in the list.
pub fn asset_contains(list: &Vec<AssetId>, a: &AssetId) -> (r: bool)
    ensures
        r == contains_asset(asset_views(list@), a@),
{
    let mut i: usize = 0;
    while i < list.len()
        invariant
            i <= list@.len(),
            forall|t: int| 0 <= t < i ==> asset_views(list@)[t] != a@,
        decreases list@.len() - i,
    {
        if bytes_eq(&list[i].bytes, &a.bytes) {
            proof {
                assert(asset_views(list@)[i as int] == a@);
            }
            return true;
        }
        i = i + 1;
    }
    false
}

/// Copies a list of assets.
pub fn clone_assets(list: &Vec<AssetId>) -> (r: Vec<AssetId>)
    ensures
        r@ == list@,
{
    let mut out: Vec<AssetId> = Vec::new();
    let mut i: usize = 0;
    while i < list.len()
        invariant
            i <= list@.len(),
            out@ == list@.take(i as int),
        decreases list@.len() - i,
    {
        out.push(list[i]);
        proof {
            assert(out@ =~= list@.take(i as int + 1));
        }
        i = i + 1;
    }
    proof {
        assert(out@ =~= list@);
    }
    out
}

/// Keeps the first occurrence of every identifier: the result holds the same
/// identifiers, each once.
pub fn dedup_assets(list: &Vec<AssetId>) -> (r: Vec<AssetId>)
    ensures
        assets_unique(asset_views(r@)),
        forall|a: Seq<u8>| contains_asset(asset_views(r@), a) == contains_asset(
            asset_views(list@),
            a,
        ),
{
    let mut out: Vec<AssetId> = Vec::new();
    let mut i: usize = 0;
    while i < list.len()
        invariant
            i <= list@.len(),
            assets_unique(asset_views(out@)),
            forall|a: Seq<u8>| contains_asset(asset_views(out@), a) == contains_asset(
                asset_views(list@.take(i as int)),
                a,
            ),
        decreases list@.len() - i,
    {
        let present = asset_contains(&out, &list[i]);
        let ghost x = list@[i as int]@;
        let ghost oldpfx = asset_views(list@.take(i as int));
        let ghost before = asset_views(out@);
        proof {
            assert(asset_views(list@.take(i as int + 1)) =~= oldpfx.push(x));
        }
        if !present {
            out.push(list[i]);
            proof {
                assert(asset_views(out@) =~= before.push(x));
                lemma_unique_push(before, x);
            }
        }
        proof {
            assert forall|a: Seq<u8>|
                contains_asset(asset_views(out@), a) == contains_asset(oldpfx.push(x), a) by {
                lemma_contains_push(oldpfx, x, a);
                if !present {
                    lemma_contains_push(before, x, a);
                }
            }
        }
        i = i + 1;
    }
    proof {
        assert(list@.take(list@.len() as int) =~= list@);
    }
    out
}

/// Adds the given assets to the list, skipping those already present: the
/// result holds the union of the identifiers, and what was there stays in
/// place.
pub fn add_assets(dst: &mut Vec<AssetId>, src: &Vec<AssetId>)
    requires
        assets_unique(asset_views(old(dst)@)),
    ensures
        assets_unique(asset_views(final(dst)@)),
        final(dst)@.len() >= old(dst)@.len(),
        final(dst)@.take(old(dst)@.len() as int) == old(dst)@,
        forall|a: Seq<u8>| contains_asset(asset_views(final(dst)@), a) == (contains_asset(
            asset_views(old(dst)@),
            a,
        ) || contains_asset(asset_views(src@), a)),
{
    let mut i: usize = 0;
    while i < src.len()
        invariant
            i <= src@.len(),
            assets_unique(asset_views(dst@)),
            dst@.len() >= old(dst)@.len(),
            dst@.take(old(dst)@.len() as int) == old(dst)@,
            forall|a: Seq<u8>| contains_asset(asset_views(dst@), a) == (contains_asset(
                asset_views(old(dst)@),
                a,
            ) || contains_asset(asset_views(src@.take(i as int)), a)),
        decreases src@.len() - i,
    {
        let present = asset_contains(dst, &src[i]);
        let ghost x = src@[i as int]@;
        let ghost oldpfx = asset_views(src@.take(i as int));
        let ghost before = asset_views(dst@);
        let ghost before_items = dst@;
        proof {
            assert(asset_views(src@.take(i as int + 1)) =~= oldpfx.push(x));
        }
        if !present {
            dst.push(src[i]);
            proof {
                assert(asset_views(dst@) =~= before.push(x));
                lemma_unique_push(before, x);
                assert(dst@.take(old(dst)@.len() as int) =~= before_items.take(
                    old(dst)@.len() as int,
                ));
            }
        }
        proof {
            assert forall|a: Seq<u8>|
                contains_asset(asset_views(dst@), a) == (contains_asset(asset_views(old(dst)@), a)
                    || contains_asset(asset_views(src@.take(i as int + 1)), a)) by {
                lemma_contains_push(oldpfx, x, a);
                if !present {
                    lemma_contains_push(before, x, a);
                } else {
                    assert(contains_asset(asset_views(dst@), x));
                }
            }
        }
        i = i + 1;
    }
    proof {
        assert(src@.take(src@.len() as int) =~= src@);
    }
}

/// The assets of `list` whose identifiers are not in `other`, in order.
pub fn assets_difference(list: &Vec<AssetId>, other: &Vec<AssetId>) -> (r: Vec<AssetId>)
    ensures
        forall|a: Seq<u8>| contains_asset(asset_views(r@), a) == (contains_asset(
            asset_views(list@),
            a,
        ) && !contains_asset(asset_views(other@), a)),
        assets_unique(asset_views(list@)) ==> assets_unique(asset_views(r@)),
        r@.len() <= list@.len(),
{
    let mut out: Vec<AssetId> = Vec::new();
    let mut i: usize = 0;
    while i < list.len()
        invariant
            i <= list@.len(),
            out@.len() <= i,
            forall|a: Seq<u8>| contains_asset(asset_views(out@), a) == (contains_asset(
                asset_views(list@.take(i as int)),
                a,
            ) && !contains_asset(asset_views(other@), a)),
            assets_unique(asset_views(list@.take(i as int))) ==> assets_unique(asset_views(out@)),
        decreases list@.len() - i,
    {
        let skip = asset_contains(other, &list[i]);
        let ghost x = list@[i as int]@;
        let ghost oldpfx = asset_views(list@.take(i as int));
        let ghost before = asset_views(out@);
        proof {
            assert(asset_views(list@.take(i as int + 1)) =~= oldpfx.push(x));
        }
        if !skip {
            out.push(list[i]);
            proof {
                assert(asset_views(out@) =~= before.push(x));
            }
        }
        proof {
            assert forall|a: Seq<u8>|
                contains_asset(asset_views(out@), a) == (contains_asset(
                    asset_views(list@.take(i as int + 1)),
                    a,
                ) && !contains_asset(asset_views(other@), a)) by {
                lemma_contains_push(oldpfx, x, a);
                if !skip {
                    lemma_contains_push(before, x, a);
                }
            }
            if assets_unique(asset_views(list@.take(i as int + 1))) {
                lemma_unique_unpush(oldpfx, x);
                if !skip {
                    if contains_asset(before, x) {
                        assert(contains_asset(oldpfx, x));
                        assert(false);
                    }
                    lemma_unique_push(before, x);
                }
            }
        }
        i = i + 1;
    }
    proof {
        assert(list@.take(list@.len() as int) =~= list@);
    }
    out
}

} // verus!
