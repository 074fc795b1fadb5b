use vstd::prelude::*;

use crate::ordering::{is_permutation, spine_order, spine_sorted};
use crate::selection::{entry_view, sel_view, strings_view, Entry};
use crate::strings::str_eq;
use crate::toc::{first_index, lemma_first_index};

verus! {

/// A resource of the book's manifest.
pub struct ManifestItem {
    pub id: String,
    pub href: String,
    pub media_type: String,
}

/// A manifest resource as plain values.
pub struct ManifestItemView {
    pub id: Seq<char>,
    pub href: Seq<char>,
    pub media_type: Seq<char>,
}

impl View for ManifestItem {
    type V = ManifestItemView;

    open spec fn view(&self) -> ManifestItemView {
        ManifestItemView { id: self.id@, href: self.href@, media_type: self.media_type@ }
    }
}

/// A manifest as plain values.
pub open spec fn manifest_view(items: Seq<ManifestItem>) -> Seq<ManifestItemView> {
    items.map_values(|i: ManifestItem| i@)
}

/// The ids of the manifest's resources.
pub open spec fn manifest_ids(m: Seq<ManifestItemView>) -> Seq<Seq<char>> {
    m.map_values(|i: ManifestItemView| i.id)
}

/// A copy of a manifest resource.
pub fn copy_item(it: &ManifestItem) -> (r: ManifestItem)
    ensures
        r@ == it@,
{
    ManifestItem { id: it.id.clone(), href: it.href.clone(), media_type: it.media_type.clone() }
}

/// Position of the resource with the id `id` (the first one, should two share
/// it).
pub fn find_manifest_item(items: &Vec<ManifestItem>, id: &str) -> (r: Option<usize>)
    ensures
        match r {
            Some(j) => j < items@.len() && first_index(manifest_ids(manifest_view(items@)), id@) == Some(j as int),
            None => first_index(manifest_ids(manifest_view(items@)), id@) is None,
        },
{
    let ghost ids = manifest_ids(manifest_view(items@));
    let mut j: usize = 0;
    while j < items.len()
        invariant
            j <= items@.len(),
            ids == manifest_ids(manifest_view(items@)),
            ids.len() == items@.len(),
            forall|k: int| 0 <= k < j ==> ids[k] != id@,
        decreases items@.len() - j,
    {
        if str_eq(items[j].id.as_str(), id) {
            proof {
                lemma_first_index(ids, id@);
                assert(ids[j as int] == id@);
                match first_index(ids, id@) {
                    Some(p) => {
                        if p < j { assert(ids[p] != id@); }
                        if p > j { assert(ids[j as int] == id@); }
                    },
                    None => {},
                }
            }
            return Some(j);
        }
        j = j + 1;
    }
    proof {
        lemma_first_index(ids, id@);
        if first_index(ids, id@) is Some {
            let p = first_index(ids, id@)->0;
            assert(ids[p] == id@);
        }
    }
    None
}

/// The key by which a resource is put in reading order: its id, and, to break
/// ties among resources outside the spine, its href or its id.
pub open spec fn item_key(it: ManifestItemView, by_href: bool) -> Entry {
    (it.id, if by_href { it.href } else { it.id })
}

/// The keys of the resources.
pub open spec fn item_keys(m: Seq<ManifestItemView>, by_href: bool) -> Seq<Entry> {
    m.map_values(|it: ManifestItemView| item_key(it, by_href))
}

/// `r` holds the resources of `m` rearranged by the permutation `perm`.
pub open spec fn rearranged(m: Seq<ManifestItemView>, perm: Seq<usize>, r: Seq<ManifestItemView>) -> bool {
    &&& r.len() == perm.len()
    &&& forall|k: int| 0 <= k < r.len() ==> #[trigger] r[k] == m[perm[k] as int]
}

/// `r` holds the resources of `m` in reading order: by position of the id in
/// `spine`, then by href or id (a stable sort, as `sort_by` with that
/// comparison).
pub open spec fn in_reading_order(m: Seq<ManifestItemView>, spine: Seq<Seq<char>>, by_href: bool, r: Seq<ManifestItemView>) -> bool {
    exists|perm: Seq<usize>| #[trigger] is_permutation(perm, m.len())
        && spine_sorted(spine, item_keys(m, by_href), perm)
        && rearranged(m, perm, r)
}

/// The resources in reading order: those of the spine in spine order, then
/// the others by href (`by_href`) or by id.
pub fn sort_items_by_spine(items: &Vec<ManifestItem>, spine: &Vec<String>, by_href: bool) -> (r: Vec<ManifestItem>)
    ensures
        in_reading_order(manifest_view(items@), strings_view(spine@), by_href, manifest_view(r@)),
{
    let ghost m = manifest_view(items@);
    let mut keys: Vec<(String, String)> = Vec::new();
    let mut k: usize = 0;
    while k < items.len()
        invariant
            k <= items@.len(),
            m == manifest_view(items@),
            keys@.len() == k,
            forall|i: int| 0 <= i < k ==> entry_view(#[trigger] keys@[i]) == item_key(m[i], by_href),
        decreases items@.len() - k,
    {
        let tb = if by_href { items[k].href.clone() } else { items[k].id.clone() };
        keys.push((items[k].id.clone(), tb));
        proof { assert(entry_view(keys@[k as int]) == item_key(m[k as int], by_href)); }
        k = k + 1;
    }
    proof { assert(sel_view(keys@) =~= item_keys(m, by_href)); }
    let order = spine_order(&keys, spine);
    let mut r: Vec<ManifestItem> = Vec::new();
    let mut j: usize = 0;
    while j < order.len()
        invariant
            j <= order@.len(),
            m == manifest_view(items@),
            is_permutation(order@, items@.len()),
            r@.len() == j,
            forall|i: int| 0 <= i < j ==> #[trigger] r@[i]@ == m[order@[i] as int],
        decreases order@.len() - j,
    {
        r.push(copy_item(&items[order[j]]));
        j = j + 1;
    }
    proof {
        assert(rearranged(m, order@, manifest_view(r@)));
        assert(is_permutation(order@, m.len()));
    }
    r
}

} // verus!
