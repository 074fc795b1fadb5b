use vstd::prelude::*;
use vstd::string::*;

use crate::manifest::{find_manifest_item, manifest_ids, manifest_view, ManifestItem, ManifestItemView};
use crate::numbers::{decimal, fill_zeros, fill_zeros_spec, lemma_pad_decimal_injective, pad_zeros, signed_decimal};
use crate::ordering::{is_permutation, spine_order, spine_sorted};
use crate::paths::{path_extension, path_extension_spec, path_file_name, path_file_name_spec, path_file_stem, path_file_stem_spec};
use crate::selection::{entry_view, sel_view, strings_view, Entry};
use crate::strings::concat_str;
use crate::toc::first_index;

verus! {

/// The keys by which selected `(folder, id)` entries are put in reading order:
/// the id, which also breaks ties.
pub open spec fn selection_keys(sel: Seq<Entry>) -> Seq<Entry> {
    sel.map_values(|e: Entry| (e.1, e.1))
}

/// `r` holds the entries of `sel` in reading order: by position of the id in
/// `spine`, the others by id (a stable sort).
pub open spec fn selection_in_reading_order(sel: Seq<Entry>, spine: Seq<Seq<char>>, r: Seq<Entry>) -> bool {
    exists|perm: Seq<usize>| #[trigger] is_permutation(perm, sel.len())
        && spine_sorted(spine, selection_keys(sel), perm)
        && r.len() == perm.len()
        && forall|k: int| 0 <= k < r.len() ==> #[trigger] r[k] == sel[perm[k] as int]
}

/// The selected `(folder, id)` entries in reading order.
pub fn sort_selection_by_spine(selected: &Vec<(String, String)>, spine: &Vec<String>) -> (r: Vec<(String, String)>)
    ensures
        selection_in_reading_order(sel_view(selected@), strings_view(spine@), sel_view(r@)),
{
    let ghost sv = sel_view(selected@);
    let mut keys: Vec<(String, String)> = Vec::new();
    let mut k: usize = 0;
    while k < selected.len()
        invariant
            k <= selected@.len(),
            sv == sel_view(selected@),
            keys@.len() == k,
            forall|i: int| 0 <= i < k ==> entry_view(#[trigger] keys@[i]) == (sv[i].1, sv[i].1),
        decreases selected@.len() - k,
    {
        keys.push((selected[k].1.clone(), selected[k].1.clone()));
        proof { assert(entry_view(keys@[k as int]) == (sv[k as int].1, sv[k as int].1)); }
        k = k + 1;
    }
    proof { assert(sel_view(keys@) =~= selection_keys(sv)); }
    let order = spine_order(&keys, spine);
    let mut r: Vec<(String, String)> = Vec::new();
    let mut j: usize = 0;
    while j < order.len()
        invariant
            j <= order@.len(),
            sv == sel_view(selected@),
            is_permutation(order@, selected@.len()),
            r@.len() == j,
            forall|i: int| 0 <= i < j ==> entry_view(#[trigger] r@[i]) == sv[order@[i] as int],
        decreases order@.len() - j,
    {
        let e = &selected[order[j]];
        r.push((e.0.clone(), e.1.clone()));
        proof { assert(entry_view(r@[j as int]) == sv[order@[j as int] as int]); }
        j = j + 1;
    }
    proof {
        let rv = sel_view(r@);
        assert forall|k: int| 0 <= k < rv.len() implies #[trigger] rv[k] == sv[order@[k] as int] by {
            assert(rv[k] == entry_view(r@[k]));
        }
        assert(is_permutation(order@, sv.len()));
    }
    r
}

/// The file name of a manifest href (its last component, or the href itself).
pub open spec fn file_name_of(href: Seq<char>) -> Seq<char> {
    match path_file_name_spec(href) {
        Some(n) => n,
        None => href,
    }
}

/// The stem of a file name (the name itself when it has none).
pub open spec fn stem_of(name: Seq<char>) -> Seq<char> {
    match path_file_stem_spec(name) {
        Some(s) => s,
        None => name,
    }
}

/// The extension of a file name with its dot, or nothing.
pub open spec fn ext_of(name: Seq<char>) -> Seq<char> {
    match path_extension_spec(name) {
        Some(e) => seq!['.'] + e,
        None => Seq::empty(),
    }
}

/// The stem and the dotted extension of the file that `href` names.
pub fn rename_parts(href: &str) -> (r: (String, String))
    ensures
        r.0@ == stem_of(file_name_of(href@)),
        r.1@ == ext_of(file_name_of(href@)),
{
    let name = match path_file_name(href) {
        Some(n) => n,
        None => href.to_string(),
    };
    let stem = match path_file_stem(name.as_str()) {
        Some(s) => s,
        None => name.clone(),
    };
    let ext = match path_extension(name.as_str()) {
        Some(e) => concat_str(".", e.as_str()),
        None => String::new(),
    };
    proof {
        reveal_strlit(".");
    }
    (stem, ext)
}

/// A file to rename: its manifest id, its folder, and its name split into
/// stem and dotted extension.
pub struct RenameItem {
    pub id: String,
    pub folder: String,
    pub stem: String,
    pub ext: String,
}

/// A file to rename, as plain values.
pub struct RenameItemView {
    pub id: Seq<char>,
    pub folder: Seq<char>,
    pub stem: Seq<char>,
    pub ext: Seq<char>,
}

impl View for RenameItem {
    type V = RenameItemView;

    open spec fn view(&self) -> RenameItemView {
        RenameItemView { id: self.id@, folder: self.folder@, stem: self.stem@, ext: self.ext@ }
    }
}

/// The files to rename for the selected entries, in their order: each entry
/// whose id the manifest holds, with the stem and extension of its href.
pub open spec fn rename_items_spec(sel: Seq<Entry>, m: Seq<ManifestItemView>) -> Seq<RenameItemView>
    decreases sel.len(),
{
    if sel.len() == 0 {
        Seq::empty()
    } else {
        let rest = rename_items_spec(sel.drop_last(), m);
        let e = sel.last();
        match first_index(manifest_ids(m), e.1) {
            Some(j) => rest.push(RenameItemView {
                id: e.1,
                folder: e.0,
                stem: stem_of(file_name_of(m[j].href)),
                ext: ext_of(file_name_of(m[j].href)),
            }),
            None => rest,
        }
    }
}

/// The files to rename for the selected `(folder, id)` entries, in their
/// order; entries that the manifest lacks are left out.
pub fn rename_items(selected: &Vec<(String, String)>, manifest: &Vec<ManifestItem>) -> (r: Vec<RenameItem>)
    ensures
        r@.map_values(|i: RenameItem| i@) == rename_items_spec(sel_view(selected@), manifest_view(manifest@)),
{
    let ghost sv = sel_view(selected@);
    let ghost mv = manifest_view(manifest@);
    let mut out: Vec<RenameItem> = Vec::new();
    let mut i: usize = 0;
    while i < selected.len()
        invariant
            i <= selected@.len(),
            sv == sel_view(selected@),
            mv == manifest_view(manifest@),
            out@.map_values(|x: RenameItem| x@) == rename_items_spec(sv.take(i as int), mv),
        decreases selected@.len() - i,
    {
        let (folder, id) = (&selected[i].0, &selected[i].1);
        proof {
            assert(sv.take(i + 1).drop_last() =~= sv.take(i as int));
            assert(sv.take(i + 1).last() == sv[i as int]);
        }
        match find_manifest_item(manifest, id.as_str()) {
            Some(j) => {
                let (stem, ext) = rename_parts(manifest[j].href.as_str());
                let ghost before = out@;
                out.push(RenameItem { id: id.clone(), folder: folder.clone(), stem, ext });
                proof {
                    assert(mv[j as int].href == manifest@[j as int].href@);
                    assert(out@.map_values(|x: RenameItem| x@) =~= before.map_values(|x: RenameItem| x@).push(out@.last()@));
                    assert(out@.map_values(|x: RenameItem| x@) =~= rename_items_spec(sv.take(i + 1), mv));
                }
            },
            None => {},
        }
        i = i + 1;
    }
    proof { assert(sv.take(selected@.len() as int) =~= sv); }
    out
}

/// The new name of a file: the prefix, the number zero-padded to `digits`,
/// and the extension.
pub open spec fn renamed_name(prefix: Seq<char>, num: int, digits: nat, ext: Seq<char>) -> Seq<char> {
    prefix + fill_zeros_spec(num, digits) + ext
}

/// `prefix`, `num` zero-padded to `digits` and `ext`, as one name.
pub fn renamed_file(prefix: &str, num: i32, digits: usize, ext: &str) -> (r: String)
    ensures
        r@ == renamed_name(prefix@, num as int, digits as nat, ext@),
{
    let n = fill_zeros(num, digits);
    let s = concat_str(prefix, n.as_str());
    concat_str(s.as_str(), ext)
}

/// The rows of the rename preview: for the `i`-th file, its current name and
/// its new name, numbered from `start`.
pub fn rename_preview(items: &Vec<RenameItem>, prefix: &str, start: i32, digits: usize) -> (r: Vec<(String, String)>)
    requires
        items@.len() == 0 || start + items@.len() - 1 <= i32::MAX,
    ensures
        r@.len() == items@.len(),
        forall|i: int| 0 <= i < r@.len() ==> {
            &&& (#[trigger] r@[i]).0@ == items@[i].stem@ + items@[i].ext@
            &&& r@[i].1@ == renamed_name(prefix@, start + i, digits as nat, items@[i].ext@)
        },
{
    let mut r: Vec<(String, String)> = Vec::new();
    let mut i: usize = 0;
    while i < items.len()
        invariant
            i <= items@.len(),
            items@.len() == 0 || start + items@.len() - 1 <= i32::MAX,
            r@.len() == i,
            forall|k: int| 0 <= k < i ==> {
                &&& (#[trigger] r@[k]).0@ == items@[k].stem@ + items@[k].ext@
                &&& r@[k].1@ == renamed_name(prefix@, start + k, digits as nat, items@[k].ext@)
            },
        decreases items@.len() - i,
    {
        let it = &items[i];
        let num: i32 = ((start as i64) + (i as i64)) as i32;
        let old_name = concat_str(it.stem.as_str(), it.ext.as_str());
        let new_name = renamed_file(prefix, num, digits, it.ext.as_str());
        r.push((old_name, new_name));
        i = i + 1;
    }
    r
}

/// The renames to apply: for the `i`-th file, its id and its new href,
/// `folder/prefix<start + i>ext`.
pub fn rename_targets(items: &Vec<RenameItem>, prefix: &str, start: i32, digits: usize) -> (r: Vec<(String, String)>)
    requires
        items@.len() == 0 || start + items@.len() - 1 <= i32::MAX,
    ensures
        r@.len() == items@.len(),
        forall|i: int| 0 <= i < r@.len() ==> {
            &&& (#[trigger] r@[i]).0@ == items@[i].id@
            &&& r@[i].1@ == items@[i].folder@ + seq!['/'] + renamed_name(prefix@, start + i, digits as nat, items@[i].ext@)
        },
{
    let mut r: Vec<(String, String)> = Vec::new();
    let mut i: usize = 0;
    while i < items.len()
        invariant
            i <= items@.len(),
            items@.len() == 0 || start + items@.len() - 1 <= i32::MAX,
            r@.len() == i,
            forall|k: int| 0 <= k < i ==> {
                &&& (#[trigger] r@[k]).0@ == items@[k].id@
                &&& r@[k].1@ == items@[k].folder@ + seq!['/'] + renamed_name(prefix@, start + k, digits as nat, items@[k].ext@)
            },
        decreases items@.len() - i,
    {
        let it = &items[i];
        let num: i32 = ((start as i64) + (i as i64)) as i32;
        let name = renamed_file(prefix, num, digits, it.ext.as_str());
        let dir = concat_str(it.folder.as_str(), "/");
        let href = concat_str(dir.as_str(), name.as_str());
        proof { reveal_strlit("/"); }
        r.push((it.id.clone(), href));
        i = i + 1;
    }
    r
}

/// The same text around two different middles gives two different texts.
proof fn lemma_concat_cancel(a: Seq<char>, x: Seq<char>, y: Seq<char>, b: Seq<char>)
    requires
        a + x + b == a + y + b,
    ensures
        x == y,
{
    let s = a + x + b;
    let t = a + y + b;
    assert(s.len() == a.len() + x.len() + b.len());
    assert(t.len() == a.len() + y.len() + b.len());
    assert(s.len() == t.len());
    assert(x.len() == y.len());
    assert(x =~= s.subrange(a.len() as int, (a.len() + x.len()) as int));
    assert(y =~= t.subrange(a.len() as int, (a.len() + y.len()) as int));
}

/// Two files of one folder with one extension get different new hrefs: the
/// numbers, from a start of at least zero, differ.
pub proof fn lemma_rename_targets_distinct(folder: Seq<char>, prefix: Seq<char>, start: int, digits: nat, ext: Seq<char>, i: int, j: int)
    requires
        0 <= start,
        0 <= i < j,
    ensures
        folder + seq!['/'] + renamed_name(prefix, start + i, digits, ext)
            != folder + seq!['/'] + renamed_name(prefix, start + j, digits, ext),
{
    let a = start + i;
    let b = start + j;
    let head = folder + seq!['/'] + prefix;
    let x = fill_zeros_spec(a, digits);
    let y = fill_zeros_spec(b, digits);
    assert(folder + seq!['/'] + renamed_name(prefix, a, digits, ext) =~= head + x + ext);
    assert(folder + seq!['/'] + renamed_name(prefix, b, digits, ext) =~= head + y + ext);
    if head + x + ext == head + y + ext {
        lemma_concat_cancel(head, x, y, ext);
        assert(x == pad_zeros(decimal(a as nat), digits));
        assert(y == pad_zeros(decimal(b as nat), digits));
        lemma_pad_decimal_injective(a as nat, b as nat, digits);
    }
}

} // verus!
