use vstd::prelude::*;

use crate::manifest::{copy_item, in_reading_order, manifest_view, sort_items_by_spine, ManifestItem, ManifestItemView};
use crate::ordering::{lemma_text_lt_irreflexive, lemma_text_lt_total, lemma_text_lt_transitive, text_less, text_lt};
use crate::paths::{eq_ignore_ascii_case, eq_ignore_ascii_case_spec, path_file_name, path_parent, path_parent_spec};
use crate::selection::{contains_id, has_id, index_of, position_of, sel_view, strings_view};
use crate::groups::{contains_text, has_text};
use crate::history::texts;
use crate::media::{icon_for_media_type, icon_spec};
use crate::rename::file_name_of;
use crate::search::{lowercase_spec, to_lowercase};
use crate::strings::{contains_spec, str_contains};
use crate::strings::str_eq;

verus! {

/// The folder of a manifest href (its parent, or nothing).
pub open spec fn parent_of(href: Seq<char>) -> Seq<char> {
    match path_parent_spec(href) {
        Some(p) => p,
        None => Seq::empty(),
    }
}

/// Some resource of `m` lies in the folder `k`.
pub open spec fn is_folder_key(m: Seq<ManifestItemView>, k: Seq<char>) -> bool {
    exists|i: int| 0 <= i < m.len() && parent_of(m[i].href) == k
}

/// The resources of `m` that lie in the folder `k`, in manifest order.
pub open spec fn items_with_parent(m: Seq<ManifestItemView>, k: Seq<char>) -> Seq<ManifestItemView>
    decreases m.len(),
{
    if m.len() == 0 {
        Seq::empty()
    } else {
        let rest = items_with_parent(m.drop_last(), k);
        if parent_of(m.last().href) == k { rest.push(m.last()) } else { rest }
    }
}

/// `k` is a folder of the book that matches the configured folder `f` up to
/// ASCII case and that no earlier section has taken.
pub open spec fn key_candidate(m: Seq<ManifestItemView>, f: Seq<char>, prev: Seq<Option<Seq<char>>>, k: Seq<char>) -> bool {
    is_folder_key(m, k) && eq_ignore_ascii_case_spec(k, f) && !prev.contains(Some(k))
}

/// The book folder that the configured folder `f` shows: the least candidate
/// in code-point order, the order in which a sorted map lists its keys.
pub open spec fn pick_key(m: Seq<ManifestItemView>, f: Seq<char>, prev: Seq<Option<Seq<char>>>) -> Option<Seq<char>> {
    if exists|k: Seq<char>| key_candidate(m, f, prev, k) {
        Some(choose|k: Seq<char>| key_candidate(m, f, prev, k)
            && forall|k2: Seq<char>| key_candidate(m, f, prev, k2) ==> !text_lt(k2, k))
    } else {
        None
    }
}

/// The book folder that each configured folder shows, in order: each book
/// folder goes to the first configured folder that claims it.
pub open spec fn taken_keys(m: Seq<ManifestItemView>, folders: Seq<Seq<char>>) -> Seq<Option<Seq<char>>>
    decreases folders.len(),
{
    if folders.len() == 0 {
        Seq::empty()
    } else {
        let prev = taken_keys(m, folders.drop_last());
        prev.push(pick_key(m, folders.last(), prev))
    }
}

/// A section of the sidebar: the configured folder and its resources in
/// reading order.
pub struct SidebarSection {
    pub folder: String,
    pub items: Vec<ManifestItem>,
}

/// The keys are strictly ascending.
pub open spec fn ascending(keys: Seq<Seq<char>>) -> bool {
    forall|a: int, b: int| 0 <= a < b < keys.len() ==> text_lt(#[trigger] keys[a], #[trigger] keys[b])
}

pub(crate) fn insert_key(keys: &mut Vec<String>, k: &str)
    requires
        ascending(strings_view(old(keys)@)),
    ensures
        ascending(strings_view(final(keys)@)),
        forall|x: Seq<char>| #[trigger] strings_view(final(keys)@).contains(x) <==> (strings_view(old(keys)@).contains(x) || x == k@),
{
    let ghost old_v = strings_view(keys@);
    let mut p: usize = 0;
    while p < keys.len() && text_less(keys[p].as_str(), k)
        invariant
            p <= keys@.len(),
            keys@ == old(keys)@,
            old_v == strings_view(keys@),
            forall|a: int| 0 <= a < p ==> text_lt(#[trigger] old_v[a], k@),
        decreases keys@.len() - p,
    {
        p = p + 1;
    }
    if p < keys.len() && str_eq(keys[p].as_str(), k) {
        proof { assert(old_v[p as int] == k@); }
    } else {
        keys.insert(p, k.to_string());
        proof {
            let nv = strings_view(keys@);
            assert(nv =~= old_v.insert(p as int, k@));
            if p < old_v.len() {
                lemma_text_lt_total(old_v[p as int], k@);
            }
            assert forall|a: int, b: int| 0 <= a < b < nv.len() implies text_lt(#[trigger] nv[a], #[trigger] nv[b]) by {
                if b < p {
                    assert(nv[a] == old_v[a] && nv[b] == old_v[b]);
                } else if a > p {
                    assert(nv[a] == old_v[a - 1] && nv[b] == old_v[b - 1]);
                } else if a == p {
                    assert(nv[b] == old_v[b - 1]);
                    if b - 1 > p {
                        lemma_text_lt_transitive(k@, old_v[p as int], old_v[b - 1]);
                    }
                } else if b == p {
                    assert(nv[a] == old_v[a]);
                } else {
                    assert(nv[a] == old_v[a] && nv[b] == old_v[b - 1]);
                    assert(text_lt(old_v[a], k@));
                    if b - 1 > p {
                        lemma_text_lt_transitive(k@, old_v[p as int], old_v[b - 1]);
                    }
                    lemma_text_lt_transitive(old_v[a], k@, old_v[b - 1]);
                }
            }
            assert forall|x: Seq<char>| #[trigger] nv.contains(x) <==> (old_v.contains(x) || x == k@) by {
                if nv.contains(x) {
                    let j = choose|j: int| 0 <= j < nv.len() && nv[j] == x;
                    if j < p { assert(old_v[j] == x); } else if j > p { assert(old_v[j - 1] == x); }
                }
                if old_v.contains(x) {
                    let j = choose|j: int| 0 <= j < old_v.len() && old_v[j] == x;
                    if j < p { assert(nv[j] == x); } else { assert(nv[j + 1] == x); }
                }
                if x == k@ { assert(nv[p as int] == x); }
            }
        }
    }
}

/// The folder of each resource, in manifest order.
fn item_parents(items: &Vec<ManifestItem>) -> (r: Vec<String>)
    ensures
        r@.len() == items@.len(),
        forall|i: int| 0 <= i < r@.len() ==> (#[trigger] r@[i])@ == parent_of(items@[i].href@),
{
    let mut r: Vec<String> = Vec::new();
    let mut i: usize = 0;
    while i < items.len()
        invariant
            i <= items@.len(),
            r@.len() == i,
            forall|k: int| 0 <= k < i ==> (#[trigger] r@[k])@ == parent_of(items@[k].href@),
        decreases items@.len() - i,
    {
        let p = match path_parent(items[i].href.as_str()) {
            Some(p) => p,
            None => String::new(),
        };
        r.push(p);
        i = i + 1;
    }
    r
}

/// The resources whose folder is `key`, in manifest order.
fn items_in(items: &Vec<ManifestItem>, parents: &Vec<String>, key: &str) -> (r: Vec<ManifestItem>)
    requires
        parents@.len() == items@.len(),
        forall|i: int| 0 <= i < parents@.len() ==> (#[trigger] parents@[i])@ == parent_of(items@[i].href@),
    ensures
        manifest_view(r@) == items_with_parent(manifest_view(items@), key@),
{
    let ghost m = manifest_view(items@);
    let mut r: Vec<ManifestItem> = Vec::new();
    let mut i: usize = 0;
    while i < items.len()
        invariant
            i <= items@.len(),
            m == manifest_view(items@),
            parents@.len() == items@.len(),
            forall|j: int| 0 <= j < parents@.len() ==> (#[trigger] parents@[j])@ == parent_of(items@[j].href@),
            manifest_view(r@) == items_with_parent(m.take(i as int), key@),
        decreases items@.len() - i,
    {
        proof {
            assert(m.take(i + 1).drop_last() =~= m.take(i as int));
            assert(m.take(i + 1).last() == m[i as int]);
            assert(parents@[i as int]@ == parent_of(m[i as int].href));
        }
        if str_eq(parents[i].as_str(), key) {
            r.push(copy_item(&items[i]));
            proof { assert(manifest_view(r@) =~= items_with_parent(m.take(i as int), key@).push(m[i as int])); }
        }
        i = i + 1;
    }
    proof { assert(m.take(items@.len() as int) =~= m); }
    r
}

/// The sections of the sidebar for the configured, visible folders, in their
/// order. Each shows the book folder that matches it up to ASCII case (the
/// first such folder, in code-point order, that no earlier section took),
/// with its resources in reading order (spine first, then by href); a folder
/// that the book lacks shows an empty section.
pub fn sidebar_sections(items: &Vec<ManifestItem>, folders: &Vec<String>, spine: &Vec<String>) -> (r: Vec<SidebarSection>)
    ensures
        r@.len() == folders@.len(),
        forall|i: int| 0 <= i < r@.len() ==> {
            &&& (#[trigger] r@[i]).folder@ == folders@[i]@
            &&& match taken_keys(manifest_view(items@), strings_view(folders@))[i] {
                Some(k) => in_reading_order(items_with_parent(manifest_view(items@), k), strings_view(spine@), true, manifest_view(r@[i].items@)),
                None => r@[i].items@.len() == 0,
            }
        },
{
    let ghost m = manifest_view(items@);
    let ghost fs = strings_view(folders@);
    let parents = item_parents(items);
    // the book's folders, ascending
    let mut keys: Vec<String> = Vec::new();
    let mut i: usize = 0;
    while i < parents.len()
        invariant
            i <= parents@.len(),
            parents@.len() == items@.len(),
            m == manifest_view(items@),
            forall|j: int| 0 <= j < parents@.len() ==> (#[trigger] parents@[j])@ == parent_of(items@[j].href@),
            ascending(strings_view(keys@)),
            forall|x: Seq<char>| #[trigger] strings_view(keys@).contains(x)
                <==> exists|j: int| 0 <= j < i && parent_of(m[j].href) == x,
        decreases parents@.len() - i,
    {
        insert_key(&mut keys, parents[i].as_str());
        proof {
            assert(parents@[i as int]@ == parent_of(m[i as int].href));
            assert forall|x: Seq<char>| #[trigger] strings_view(keys@).contains(x)
                <==> exists|j: int| 0 <= j < i + 1 && parent_of(m[j].href) == x by {
                if exists|j: int| 0 <= j < i + 1 && parent_of(m[j].href) == x {
                    let j = choose|j: int| 0 <= j < i + 1 && parent_of(m[j].href) == x;
                    if j < i {
                        assert(exists|j2: int| 0 <= j2 < i && parent_of(m[j2].href) == x);
                    }
                }
            }
        }
        i = i + 1;
    }
    let ghost kv = strings_view(keys@);
    assert forall|x: Seq<char>| #[trigger] kv.contains(x) <==> is_folder_key(m, x) by {}
    let mut taken: Vec<bool> = Vec::new();
    let mut q: usize = 0;
    while q < keys.len()
        invariant
            q <= keys@.len(),
            taken@.len() == q,
            forall|j: int| 0 <= j < q ==> !(#[trigger] taken@[j]),
        decreases keys@.len() - q,
    {
        taken.push(false);
        q = q + 1;
    }
    proof {
        assert(taken_keys(m, fs.take(0)) =~= Seq::<Option<Seq<char>>>::empty());
    }
    let mut out: Vec<SidebarSection> = Vec::new();
    let mut f: usize = 0;
    while f < folders.len()
        invariant
            f <= folders@.len(),
            m == manifest_view(items@),
            fs == strings_view(folders@),
            kv == strings_view(keys@),
            ascending(kv),
            forall|x: Seq<char>| #[trigger] kv.contains(x) <==> is_folder_key(m, x),
            parents@.len() == items@.len(),
            forall|j: int| 0 <= j < parents@.len() ==> (#[trigger] parents@[j])@ == parent_of(items@[j].href@),
            taken@.len() == keys@.len(),
            forall|j: int| 0 <= j < taken@.len() ==> (#[trigger] taken@[j] <==> taken_keys(m, fs.take(f as int)).contains(Some(kv[j]))),
            forall|j: int| 0 <= j < f ==> taken_keys(m, fs.take(f as int))[j] is None || kv.contains(taken_keys(m, fs.take(f as int))[j]->0),
            out@.len() == f,
            forall|j: int| 0 <= j < f ==> {
                &&& (#[trigger] out@[j]).folder@ == fs[j]
                &&& match taken_keys(m, fs)[j] {
                    Some(k) => in_reading_order(items_with_parent(m, k), strings_view(spine@), true, manifest_view(out@[j].items@)),
                    None => out@[j].items@.len() == 0,
                }
            },
        decreases folders@.len() - f,
    {
        let folder = &folders[f];
        let ghost prev = taken_keys(m, fs.take(f as int));
        proof {
            assert(fs.take(f + 1).drop_last() =~= fs.take(f as int));
            assert(fs.take(f + 1).last() == fs[f as int]);
            assert(taken_keys(m, fs.take(f + 1)) == prev.push(pick_key(m, fs[f as int], prev)));
        }
        let mut p: usize = 0;
        while p < keys.len() && (taken[p] || !eq_ignore_ascii_case(keys[p].as_str(), folder.as_str()))
            invariant
                p <= keys@.len(),
                taken@.len() == keys@.len(),
                kv == strings_view(keys@),
                folder@ == fs[f as int],
                forall|j: int| 0 <= j < taken@.len() ==> (#[trigger] taken@[j] <==> prev.contains(Some(kv[j]))),
                forall|j: int| 0 <= j < p ==> !key_candidate(m, fs[f as int], prev, #[trigger] kv[j]),
            decreases keys@.len() - p,
        {
            p = p + 1;
        }
        let ghost picked = pick_key(m, fs[f as int], prev);
        let section_items = if p < keys.len() {
            proof {
                let k = kv[p as int];
                assert(kv.contains(k));
                assert(key_candidate(m, fs[f as int], prev, k));
                assert forall|k2: Seq<char>| key_candidate(m, fs[f as int], prev, k2) implies !text_lt(k2, k) by {
                    assert(kv.contains(k2));
                    let q2 = choose|q2: int| 0 <= q2 < kv.len() && kv[q2] == k2;
                    if q2 < p {
                        assert(!key_candidate(m, fs[f as int], prev, kv[q2]));
                    } else if q2 > p {
                        assert(text_lt(kv[p as int], kv[q2]));
                        if text_lt(k2, k) {
                            lemma_text_lt_transitive(k, k2, k);
                            lemma_text_lt_irreflexive(k);
                        }
                    } else {
                        lemma_text_lt_irreflexive(k);
                    }
                }
                let c = choose|c: Seq<char>| key_candidate(m, fs[f as int], prev, c)
                    && forall|k2: Seq<char>| key_candidate(m, fs[f as int], prev, k2) ==> !text_lt(k2, c);
                assert(picked == Some(c));
                assert(!text_lt(c, k) && !text_lt(k, c));
                lemma_text_lt_total(c, k);
                assert(picked == Some(k));
            }
            taken.set(p, true);
            let found = items_in(items, &parents, keys[p].as_str());
            sort_items_by_spine(&found, spine, true)
        } else {
            proof {
                if exists|k: Seq<char>| key_candidate(m, fs[f as int], prev, k) {
                    let k = choose|k: Seq<char>| key_candidate(m, fs[f as int], prev, k);
                    assert(kv.contains(k));
                    let q2 = choose|q2: int| 0 <= q2 < kv.len() && kv[q2] == k;
                    assert(!key_candidate(m, fs[f as int], prev, kv[q2]));
                }
                assert(picked is None);
            }
            Vec::new()
        };
        out.push(SidebarSection { folder: folder.clone(), items: section_items });
        proof {
            let now = taken_keys(m, fs.take(f + 1));
            assert(now == prev.push(picked));
            lemma_taken_prefix(m, fs, f as int + 1);
            assert(taken_keys(m, fs)[f as int] == now[f as int]);
            assert forall|j: int| 0 <= j < taken@.len() implies (#[trigger] taken@[j] <==> now.contains(Some(kv[j]))) by {
                if now.contains(Some(kv[j])) {
                    let w = choose|w: int| 0 <= w < now.len() && now[w] == Some(kv[j]);
                    if w < prev.len() { assert(prev[w] == Some(kv[j])); }
                }
                if prev.contains(Some(kv[j])) {
                    let w = choose|w: int| 0 <= w < prev.len() && prev[w] == Some(kv[j]);
                    assert(now[w] == Some(kv[j]));
                }
                if j == p { assert(now[f as int] == Some(kv[j])); }
                if picked == Some(kv[j]) && j != p {
                    assert(kv[p as int] == kv[j]);
                    if j < p { assert(text_lt(kv[j], kv[p as int])); } else { assert(text_lt(kv[p as int], kv[j])); }
                    lemma_text_lt_irreflexive(kv[j]);
                }
            }
            assert forall|j: int| 0 <= j < f + 1 implies now[j] is None || kv.contains(now[j]->0) by {
                if j < f { assert(now[j] == prev[j]); }
            }
            assert forall|j: int| 0 <= j < f + 1 implies {
                &&& (#[trigger] out@[j]).folder@ == fs[j]
                &&& match taken_keys(m, fs)[j] {
                    Some(k) => in_reading_order(items_with_parent(m, k), strings_view(spine@), true, manifest_view(out@[j].items@)),
                    None => out@[j].items@.len() == 0,
                }
            } by {
                if j == f {
                    if p < keys@.len() {
                        assert(picked == Some(kv[p as int]));
                    }
                }
            }
        }
        f = f + 1;
    }
    out
}

proof fn lemma_taken_prefix(m: Seq<ManifestItemView>, fs: Seq<Seq<char>>, n: int)
    requires
        0 <= n <= fs.len(),
    ensures
        taken_keys(m, fs.take(n)).len() == n,
        forall|j: int| 0 <= j < n ==> #[trigger] taken_keys(m, fs)[j] == taken_keys(m, fs.take(n))[j],
    decreases fs.len() - n,
{
    lemma_taken_len(m, fs.take(n));
    if n < fs.len() {
        lemma_taken_prefix(m, fs, n + 1);
        assert(fs.take(n + 1).drop_last() =~= fs.take(n));
        assert forall|j: int| 0 <= j < n implies #[trigger] taken_keys(m, fs)[j] == taken_keys(m, fs.take(n))[j] by {
            assert(taken_keys(m, fs.take(n + 1))[j] == taken_keys(m, fs.take(n))[j]);
        }
    } else {
        assert(fs.take(n) =~= fs);
    }
}

proof fn lemma_taken_len(m: Seq<ManifestItemView>, fs: Seq<Seq<char>>)
    ensures
        taken_keys(m, fs).len() == fs.len(),
    decreases fs.len(),
{
    if fs.len() > 0 {
        lemma_taken_len(m, fs.drop_last());
    }
}

/// A row of a sidebar section.
pub struct SidebarRow {
    pub id: String,
    pub title: String,
    pub icon: &'static str,
    pub in_spine: bool,
    pub selected: bool,
}

/// The row of a resource: its file name, the icon of its media type, whether
/// it is in the reading order (then it shows a badge and can be dragged), and
/// whether it is selected.
pub fn sidebar_row(item: &ManifestItem, spine: &Vec<String>, selected: &Vec<(String, String)>) -> (r: SidebarRow)
    ensures
        r.id@ == item.id@,
        r.title@ == file_name_of(item.href@),
        r.icon@ == icon_spec(item.media_type@),
        r.in_spine == has_text(strings_view(spine@), item.id@),
        r.selected == has_id(sel_view(selected@), item.id@),
{
    let title = match path_file_name(item.href.as_str()) {
        Some(n) => n,
        None => item.href.clone(),
    };
    proof { assert(strings_view(spine@) == texts(spine@)); }
    SidebarRow {
        id: item.id.clone(),
        title,
        icon: icon_for_media_type(item.media_type.as_str()),
        in_spine: contains_text(spine, item.id.as_str()),
        selected: contains_id(selected, item.id.as_str()),
    }
}

/// The filter of a section's search entry keeps a row when the query is
/// empty or the lower-cased title holds the lower-cased query.
pub fn row_matches_filter(title: &str, query: &str) -> (r: bool)
    ensures
        r == (query@.len() == 0 || contains_spec(lowercase_spec(title@), lowercase_spec(query@))),
{
    if query.unicode_len() == 0 {
        return true;
    }
    let q = to_lowercase(query);
    let t = to_lowercase(title);
    str_contains(t.as_str(), q.as_str())
}

/// What the (+) button of a section offers to create.
#[derive(PartialEq, Eq, Structural)]
pub enum NewResource {
    Chapter,
    Stylesheet,
}

/// The resource that the (+) button of the section `folder` creates: a
/// chapter for `text`, a stylesheet for `styles` (folder compared in lower
/// case), nothing otherwise.
pub fn new_resource_for_folder(folder: &str) -> (r: Option<NewResource>)
    ensures
        r == (if lowercase_spec(folder@) == "text"@ { Some(NewResource::Chapter) }
            else if lowercase_spec(folder@) == "styles"@ { Some(NewResource::Stylesheet) }
            else { None }),
{
    let lower = to_lowercase(folder);
    if str_eq(lower.as_str(), "text") {
        Some(NewResource::Chapter)
    } else if str_eq(lower.as_str(), "styles") {
        Some(NewResource::Stylesheet)
    } else {
        None
    }
}

/// The label and media type of a resource to create.
pub fn new_resource_label(kind: NewResource) -> (r: (&'static str, &'static str))
    ensures
        kind == NewResource::Chapter ==> r.0@ == "Nuevo capítulo"@ && r.1@ == "application/xhtml+xml"@,
        kind == NewResource::Stylesheet ==> r.0@ == "Nueva hoja de estilo"@ && r.1@ == "text/css"@,
{
    match kind {
        NewResource::Chapter => ("Nuevo capítulo", "application/xhtml+xml"),
        NewResource::Stylesheet => ("Nueva hoja de estilo", "text/css"),
    }
}

/// Whether the section `folder` is the chapters' one (`text`, any ASCII
/// case): its (+) entries add or import chapters.
pub fn is_text_section(folder: &str) -> (r: bool)
    ensures
        r == eq_ignore_ascii_case_spec(folder@, "text"@),
{
    eq_ignore_ascii_case(folder, "text")
}

/// Whether the section `folder` is the styles' one (`styles`, any ASCII
/// case): it gets the default-styles settings button.
pub fn is_styles_section(folder: &str) -> (r: bool)
    ensures
        r == eq_ignore_ascii_case_spec(folder@, "styles"@),
{
    eq_ignore_ascii_case(folder, "styles")
}

/// Where a chapter dropped on another goes in the reading order: at the
/// position of the chapter it was dropped on; nothing happens when it is
/// dropped on itself or either is not in the spine.
pub fn spine_drop_position(spine: &Vec<String>, dropped: &str, target: &str) -> (r: Option<usize>)
    ensures
        r == (if dropped@ == target@ {
            None::<usize>
        } else {
            match (index_of(strings_view(spine@), dropped@), index_of(strings_view(spine@), target@)) {
                (Some(_), Some(t)) => Some(t as usize),
                _ => None,
            }
        }),
{
    if str_eq(dropped, target) {
        return None;
    }
    let from = position_of(spine, dropped);
    let to = position_of(spine, target);
    match (from, to) {
        (Some(_), Some(t)) => Some(t),
        _ => None,
    }
}

} // verus!
