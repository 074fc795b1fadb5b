use vstd::prelude::*;

use crate::labels::{tr, tr_spec};
use crate::numbers::{decimal, usize_to_string};
use crate::strings::{concat_str, str_eq};

verus! {

/// A heading of a chapter, as the table of contents lists it.
pub struct TocItem {
    pub level: u8,
    pub anchor: String,
    pub title: String,
    pub included: bool,
}

/// A chapter of the table of contents, with its headings.
pub struct TocDoc {
    pub href: String,
    pub title: String,
    pub included: bool,
    pub items: Vec<TocItem>,
}

/// A heading as plain values.
#[verifier::ext_equal]
pub struct TocItemView {
    pub level: u8,
    pub anchor: Seq<char>,
    pub title: Seq<char>,
    pub included: bool,
}

/// A chapter as plain values.
#[verifier::ext_equal]
pub struct TocDocView {
    pub href: Seq<char>,
    pub title: Seq<char>,
    pub included: bool,
    pub items: Seq<TocItemView>,
}

impl View for TocItem {
    type V = TocItemView;

    open spec fn view(&self) -> TocItemView {
        TocItemView { level: self.level, anchor: self.anchor@, title: self.title@, included: self.included }
    }
}

impl View for TocDoc {
    type V = TocDocView;

    open spec fn view(&self) -> TocDocView {
        TocDocView {
            href: self.href@,
            title: self.title@,
            included: self.included,
            items: self.items@.map_values(|i: TocItem| i@),
        }
    }
}

/// A table of contents as plain values.
pub open spec fn toc_view(docs: Seq<TocDoc>) -> Seq<TocDocView> {
    docs.map_values(|d: TocDoc| d@)
}

/// Index of the first occurrence of `x` in `s`.
pub open spec fn first_index<T>(s: Seq<T>, x: T) -> Option<int>
    decreases s.len(),
{
    if s.len() == 0 {
        None
    } else if s[0] == x {
        Some(0)
    } else {
        match first_index(s.drop_first(), x) {
            Some(j) => Some(j + 1),
            None => None,
        }
    }
}

/// `first_index` finds the first occurrence, or says there is none.
pub proof fn lemma_first_index<T>(s: Seq<T>, x: T)
    ensures
        match first_index(s, x) {
            Some(p) => 0 <= p < s.len() && s[p] == x && forall|k: int| 0 <= k < p ==> s[k] != x,
            None => forall|k: int| 0 <= k < s.len() ==> s[k] != x,
        },
    decreases s.len(),
{
    if s.len() > 0 && s[0] != x {
        lemma_first_index(s.drop_first(), x);
        assert forall|k: int| 1 <= k < s.len() implies s[k] == s.drop_first()[k - 1] by {}
    }
}

/// The hrefs of the chapters.
pub open spec fn doc_hrefs(docs: Seq<TocDocView>) -> Seq<Seq<char>> {
    docs.map_values(|d: TocDocView| d.href)
}

/// The `(level, anchor)` keys of the headings.
pub open spec fn item_keys(items: Seq<TocItemView>) -> Seq<(u8, Seq<char>)> {
    items.map_values(|i: TocItemView| (i.level, i.anchor))
}

/// `item` with the inclusion flag of the first saved heading of the same level
/// and anchor; a heading that was not saved is new, and included.
pub open spec fn merge_item(item: TocItemView, saved_items: Seq<TocItemView>) -> TocItemView {
    TocItemView {
        level: item.level,
        anchor: item.anchor,
        title: item.title,
        included: match first_index(item_keys(saved_items), (item.level, item.anchor)) {
            Some(m) => saved_items[m].included,
            None => true,
        },
    }
}

/// The saved headings of the first saved chapter with the href `href`; none
/// when no such chapter was saved.
pub open spec fn saved_items_for(saved: Seq<TocDocView>, href: Seq<char>) -> Seq<TocItemView> {
    match first_index(doc_hrefs(saved), href) {
        Some(j) => saved[j].items,
        None => Seq::empty(),
    }
}

/// `doc` with the inclusion flags of the first saved chapter of the same href
/// and of its headings; a chapter or heading that was not saved is new, and
/// included.
pub open spec fn merge_doc(doc: TocDocView, saved: Seq<TocDocView>) -> TocDocView {
    TocDocView {
        href: doc.href,
        title: doc.title,
        included: match first_index(doc_hrefs(saved), doc.href) {
            Some(j) => saved[j].included,
            None => true,
        },
        items: doc.items.map_values(|it: TocItemView| merge_item(it, saved_items_for(saved, doc.href))),
    }
}

/// A fresh scan of the book with the inclusion flags of a saved state carried
/// over; without a saved state, the fresh scan.
pub open spec fn merge_toc_spec(fresh: Seq<TocDocView>, saved: Option<Seq<TocDocView>>) -> Seq<TocDocView> {
    match saved {
        None => fresh,
        Some(s) => fresh.map_values(|d: TocDocView| merge_doc(d, s)),
    }
}

/// `a` and `b` have the same chapters and headings, in the same order,
/// whatever their inclusion flags.
pub open spec fn same_structure(a: Seq<TocDocView>, b: Seq<TocDocView>) -> bool {
    &&& a.len() == b.len()
    &&& forall|i: int| 0 <= i < a.len() ==> {
        &&& (#[trigger] a[i]).href == b[i].href
        &&& a[i].title == b[i].title
        &&& a[i].items.len() == b[i].items.len()
        &&& forall|k: int| 0 <= k < a[i].items.len() ==> {
            &&& (#[trigger] a[i].items[k]).level == b[i].items[k].level
            &&& a[i].items[k].anchor == b[i].items[k].anchor
            &&& a[i].items[k].title == b[i].items[k].title
        }
    }
}

fn copy_item(it: &TocItem, included: bool) -> (r: TocItem)
    ensures
        r@ == (TocItemView { level: it.level, anchor: it.anchor@, title: it.title@, included }),
{
    TocItem { level: it.level, anchor: it.anchor.clone(), title: it.title.clone(), included }
}

fn find_doc(saved: &Vec<TocDoc>, href: &str) -> (r: Option<usize>)
    ensures
        match r {
            Some(j) => j < saved@.len() && first_index(doc_hrefs(toc_view(saved@)), href@) == Some(j as int),
            None => first_index(doc_hrefs(toc_view(saved@)), href@) is None,
        },
{
    let ghost hs = doc_hrefs(toc_view(saved@));
    proof { lemma_first_index(hs, href@); }
    let mut j: usize = 0;
    while j < saved.len()
        invariant
            j <= saved@.len(),
            hs == doc_hrefs(toc_view(saved@)),
            hs.len() == saved@.len(),
            forall|k: int| 0 <= k < j ==> hs[k] != href@,
        decreases saved@.len() - j,
    {
        if str_eq(saved[j].href.as_str(), href) {
            proof {
                lemma_first_index(hs, href@);
                assert(hs[j as int] == href@);
                match first_index(hs, href@) {
                    Some(p) => {
                        if p < j { assert(hs[p] != href@); }
                        if p > j { assert(hs[j as int] == href@); }
                    },
                    None => {},
                }
            }
            return Some(j);
        }
        j = j + 1;
    }
    proof {
        lemma_first_index(hs, href@);
        if first_index(hs, href@) is Some {
            let p = first_index(hs, href@)->0;
            assert(hs[p] == href@);
        }
    }
    None
}

fn find_item(items: &Vec<TocItem>, level: u8, anchor: &str) -> (r: Option<usize>)
    ensures
        match r {
            Some(m) => m < items@.len() && first_index(item_keys(items@.map_values(|i: TocItem| i@)), (level, anchor@)) == Some(m as int),
            None => first_index(item_keys(items@.map_values(|i: TocItem| i@)), (level, anchor@)) is None,
        },
{
    let ghost ks = item_keys(items@.map_values(|i: TocItem| i@));
    proof { lemma_first_index(ks, (level, anchor@)); }
    let mut m: usize = 0;
    while m < items.len()
        invariant
            m <= items@.len(),
            ks == item_keys(items@.map_values(|i: TocItem| i@)),
            ks.len() == items@.len(),
            forall|k: int| 0 <= k < m ==> ks[k] != (level, anchor@),
        decreases items@.len() - m,
    {
        if items[m].level == level && str_eq(items[m].anchor.as_str(), anchor) {
            proof {
                lemma_first_index(ks, (level, anchor@));
                assert(ks[m as int] == (level, anchor@));
                match first_index(ks, (level, anchor@)) {
                    Some(p) => {
                        if p < m { assert(ks[p] != (level, anchor@)); }
                        if p > m { assert(ks[m as int] == (level, anchor@)); }
                    },
                    None => {},
                }
            }
            return Some(m);
        }
        proof { assert(ks[m as int] != (level, anchor@)); }
        m = m + 1;
    }
    proof {
        lemma_first_index(ks, (level, anchor@));
        if first_index(ks, (level, anchor@)) is Some {
            let p = first_index(ks, (level, anchor@))->0;
            assert(ks[p] == (level, anchor@));
        }
    }
    None
}

fn merge_doc_exec(doc: &TocDoc, saved: &Vec<TocDoc>) -> (r: TocDoc)
    ensures
        r@ == merge_doc(doc@, toc_view(saved@)),
{
    let ghost sv = toc_view(saved@);
    let found = find_doc(saved, doc.href.as_str());
    let empty: Vec<TocItem> = Vec::new();
    let (doc_included, saved_items) = match found {
        Some(j) => {
            proof { assert(sv[j as int] == saved[j as int]@); }
            (saved[j].included, &saved[j].items)
        },
        None => (true, &empty),
    };
    let ghost si = saved_items@.map_values(|i: TocItem| i@);
    proof {
        assert(si =~= saved_items_for(sv, doc@.href));
    }
    let mut items: Vec<TocItem> = Vec::new();
    let mut k: usize = 0;
    while k < doc.items.len()
        invariant
            k <= doc.items@.len(),
            items@.len() == k,
            si == saved_items@.map_values(|i: TocItem| i@),
            si == saved_items_for(sv, doc@.href),
            forall|i: int| 0 <= i < k ==> (#[trigger] items@[i])@ == merge_item(doc.items@[i]@, si),
        decreases doc.items@.len() - k,
    {
        let it = &doc.items[k];
        let included = match find_item(saved_items, it.level, it.anchor.as_str()) {
            Some(m) => {
                proof {
                    lemma_first_index(item_keys(si), (it.level, it.anchor@));
                }
                saved_items[m].included
            },
            None => true,
        };
        items.push(copy_item(it, included));
        proof {
            assert(items@[k as int]@ == merge_item(doc.items@[k as int]@, si));
        }
        k = k + 1;
    }
    let r = TocDoc { href: doc.href.clone(), title: doc.title.clone(), included: doc_included, items };
    proof {
        assert(r@.items =~= doc@.items.map_values(|it: TocItemView| merge_item(it, saved_items_for(sv, doc@.href))));
    }
    r
}

/// Carries the inclusion flags of a saved state over to a fresh scan of the
/// book: a chapter found in the saved state by its href takes the saved flag,
/// and so does each of its headings found there by level and anchor; the
/// chapters and headings that are new are included. Without a saved state the
/// scan is returned.
pub fn merge_toc_data(fresh: Vec<TocDoc>, saved: Option<&Vec<TocDoc>>) -> (r: Vec<TocDoc>)
    ensures
        toc_view(r@) == merge_toc_spec(toc_view(fresh@), match saved {
            Some(s) => Some(toc_view(s@)),
            None => None,
        }),
{
    let saved = match saved {
        Some(s) => s,
        None => return fresh,
    };
    let ghost fv = toc_view(fresh@);
    let ghost sv = toc_view(saved@);
    let mut out: Vec<TocDoc> = Vec::new();
    let mut i: usize = 0;
    while i < fresh.len()
        invariant
            i <= fresh@.len(),
            out@.len() == i,
            fv == toc_view(fresh@),
            sv == toc_view(saved@),
            forall|k: int| 0 <= k < i ==> (#[trigger] out@[k])@ == merge_doc(fv[k], sv),
        decreases fresh@.len() - i,
    {
        let d = merge_doc_exec(&fresh[i], saved);
        out.push(d);
        i = i + 1;
    }
    proof {
        assert(toc_view(out@) =~= fv.map_values(|d: TocDocView| merge_doc(d, sv)));
    }
    out
}

/// Without a saved state, merging leaves the fresh scan as it is.
pub proof fn lemma_merge_without_saved(fresh: Seq<TocDocView>)
    ensures
        merge_toc_spec(fresh, None) == fresh,
{
}

/// Merging keeps the chapters and headings of the fresh scan, in order, and
/// changes inclusion flags only.
pub proof fn lemma_merge_keeps_structure(fresh: Seq<TocDocView>, saved: Option<Seq<TocDocView>>)
    ensures
        same_structure(merge_toc_spec(fresh, saved), fresh),
{
    let m = merge_toc_spec(fresh, saved);
    if saved is Some {
        let s = saved->0;
        assert forall|i: int| 0 <= i < m.len() implies {
            &&& (#[trigger] m[i]).href == fresh[i].href
            &&& m[i].title == fresh[i].title
            &&& m[i].items.len() == fresh[i].items.len()
            &&& forall|k: int| 0 <= k < m[i].items.len() ==> {
                &&& (#[trigger] m[i].items[k]).level == fresh[i].items[k].level
                &&& m[i].items[k].anchor == fresh[i].items[k].anchor
                &&& m[i].items[k].title == fresh[i].items[k].title
            }
        } by {
            assert(m[i] == merge_doc(fresh[i], s));
        }
    }
}

/// Merging twice with the same saved state gives what merging once gives.
pub proof fn lemma_merge_idempotent(fresh: Seq<TocDocView>, saved: Option<Seq<TocDocView>>)
    ensures
        merge_toc_spec(merge_toc_spec(fresh, saved), saved) == merge_toc_spec(fresh, saved),
{
    if saved is Some {
        let s = saved->0;
        let once = merge_toc_spec(fresh, saved);
        let twice = merge_toc_spec(once, saved);
        assert forall|i: int| 0 <= i < once.len() implies #[trigger] twice[i] == once[i] by {
            let d = fresh[i];
            assert(once[i] == merge_doc(d, s));
            assert(twice[i] == merge_doc(once[i], s));
            match first_index(doc_hrefs(s), d.href) {
                Some(j) => {
                    let a = once[i].items;
                    let b = twice[i].items;
                    assert forall|k: int| 0 <= k < a.len() implies #[trigger] b[k] == a[k] by {
                        assert(a[k] == merge_item(d.items[k], s[j].items));
                        assert(b[k] == merge_item(a[k], s[j].items));
                    }
                    assert(b =~= a);
                },
                None => {},
            }
        }
        assert(twice =~= once);
    }
}

/// No two chapters share an href, and no two headings of a chapter share a
/// level and anchor.
pub open spec fn keys_unique(docs: Seq<TocDocView>) -> bool {
    &&& forall|i: int, j: int| 0 <= i < j < docs.len() ==> (#[trigger] docs[i]).href != (#[trigger] docs[j]).href
    &&& forall|i: int| 0 <= i < docs.len() ==>
        forall|k: int, l: int| 0 <= k < l < (#[trigger] docs[i]).items.len() ==>
            (#[trigger] docs[i].items[k].level, docs[i].items[k].anchor) != (#[trigger] docs[i].items[l].level, docs[i].items[l].anchor)
}

/// A saved state of the same book, unchanged since, is restored: each chapter
/// and heading gets back the flag it was saved with.
pub proof fn lemma_merge_restores_saved(fresh: Seq<TocDocView>, saved: Seq<TocDocView>)
    requires
        same_structure(fresh, saved),
        keys_unique(saved),
    ensures
        merge_toc_spec(fresh, Some(saved)) == saved,
{
    let m = merge_toc_spec(fresh, Some(saved));
    assert forall|i: int| 0 <= i < m.len() implies #[trigger] m[i] == saved[i] by {
        let d = fresh[i];
        let hs = doc_hrefs(saved);
        lemma_first_index(hs, d.href);
        assert(hs[i] == d.href);
        match first_index(hs, d.href) {
            Some(j) => {
                if j != i {
                    if j < i { assert(saved[j].href != saved[i].href); } else { assert(saved[i].href != saved[j].href); }
                }
            },
            None => {},
        }
        assert(first_index(hs, d.href) == Some(i));
        let a = m[i].items;
        let s = saved[i].items;
        assert forall|k: int| 0 <= k < a.len() implies #[trigger] a[k] == s[k] by {
            let it = d.items[k];
            let ks = item_keys(s);
            lemma_first_index(ks, (it.level, it.anchor));
            assert(ks[k] == (it.level, it.anchor));
            match first_index(ks, (it.level, it.anchor)) {
                Some(q) => {
                    if q != k {
                        if q < k {
                            assert((saved[i].items[q].level, saved[i].items[q].anchor) != (saved[i].items[k].level, saved[i].items[k].anchor));
                        } else {
                            assert((saved[i].items[k].level, saved[i].items[k].anchor) != (saved[i].items[q].level, saved[i].items[q].anchor));
                        }
                    }
                },
                None => {},
            }
            assert(a[k] == merge_item(it, s));
        }
        assert(a =~= s);
    }
    assert(m =~= saved);
}

/// A choice of the preset menu of the table of contents.
#[derive(PartialEq, Eq, Structural, Clone, Copy)]
pub enum NavPreset {
    Placeholder,
    MarkAll,
    MarkLevel(u8),
    ClearAll,
}

/// Some heading of `items` has the level `level`.
pub open spec fn has_level(items: Seq<TocItemView>, level: u8) -> bool {
    exists|k: int| 0 <= k < items.len() && (#[trigger] items[k]).level == level
}

/// A heading after the preset `p`.
pub open spec fn preset_item(it: TocItemView, p: NavPreset) -> TocItemView {
    TocItemView {
        level: it.level,
        anchor: it.anchor,
        title: it.title,
        included: match p {
            NavPreset::Placeholder => it.included,
            NavPreset::MarkAll => true,
            NavPreset::MarkLevel(l) => it.level == l,
            NavPreset::ClearAll => false,
        },
    }
}

/// A chapter after the preset `p`: with `MarkLevel`, included when one of
/// its headings has that level.
pub open spec fn preset_doc(d: TocDocView, p: NavPreset) -> TocDocView {
    TocDocView {
        href: d.href,
        title: d.title,
        included: match p {
            NavPreset::Placeholder => d.included,
            NavPreset::MarkAll => true,
            NavPreset::MarkLevel(l) => has_level(d.items, l),
            NavPreset::ClearAll => false,
        },
        items: d.items.map_values(|it: TocItemView| preset_item(it, p)),
    }
}

/// The table of contents after the preset `p`.
pub open spec fn preset_spec(docs: Seq<TocDocView>, p: NavPreset) -> Seq<TocDocView> {
    docs.map_values(|d: TocDocView| preset_doc(d, p))
}

fn preset_doc_exec(d: &TocDoc, p: NavPreset) -> (r: TocDoc)
    ensures
        r@ == preset_doc(d@, p),
{
    let mut items: Vec<TocItem> = Vec::new();
    let mut any = false;
    let mut k: usize = 0;
    while k < d.items.len()
        invariant
            k <= d.items@.len(),
            items@.len() == k,
            forall|i: int| 0 <= i < k ==> (#[trigger] items@[i])@ == preset_item(d.items@[i]@, p),
            any == (exists|i: int| 0 <= i < k && (#[trigger] d.items@[i]).level == (match p { NavPreset::MarkLevel(l) => l, _ => 0u8 })),
        decreases d.items@.len() - k,
    {
        let it = &d.items[k];
        let inc = match p {
            NavPreset::Placeholder => it.included,
            NavPreset::MarkAll => true,
            NavPreset::MarkLevel(l) => it.level == l,
            NavPreset::ClearAll => false,
        };
        let target: u8 = match p { NavPreset::MarkLevel(l) => l, _ => 0u8 };
        if it.level == target {
            any = true;
        }
        items.push(copy_item(it, inc));
        k = k + 1;
    }
    let inc = match p {
        NavPreset::Placeholder => d.included,
        NavPreset::MarkAll => true,
        NavPreset::MarkLevel(_) => any,
        NavPreset::ClearAll => false,
    };
    let r = TocDoc { href: d.href.clone(), title: d.title.clone(), included: inc, items };
    proof {
        assert(r@.items =~= d@.items.map_values(|it: TocItemView| preset_item(it, p)));
        if let NavPreset::MarkLevel(l) = p {
            if any {
                let i = choose|i: int| 0 <= i < d.items@.len() && (#[trigger] d.items@[i]).level == l;
                assert(d@.items[i].level == l);
            }
            if has_level(d@.items, l) {
                let i = choose|i: int| 0 <= i < d@.items.len() && (#[trigger] d@.items[i]).level == l;
                assert(d.items@[i].level == l);
            }
        }
    }
    r
}

/// Applies a preset of the table of contents: mark everything, mark only the
/// headings of one level (and the chapters that have such a heading), or
/// clear everything; the placeholder changes nothing.
pub fn apply_nav_preset(data: &mut Vec<TocDoc>, preset: NavPreset)
    ensures
        toc_view(final(data)@) == preset_spec(toc_view(old(data)@), preset),
{
    if preset == NavPreset::Placeholder {
        proof {
            assert forall|i: int| 0 <= i < data@.len() implies #[trigger] preset_doc(toc_view(data@)[i], preset) == toc_view(data@)[i] by {
                let d = toc_view(data@)[i];
                assert(preset_doc(d, preset).items =~= d.items);
            }
            assert(preset_spec(toc_view(data@), preset) =~= toc_view(data@));
        }
        return;
    }
    let mut out: Vec<TocDoc> = Vec::new();
    let mut i: usize = 0;
    while i < data.len()
        invariant
            i <= data@.len(),
            out@.len() == i,
            forall|k: int| 0 <= k < i ==> (#[trigger] out@[k])@ == preset_doc(data@[k]@, preset),
        decreases data@.len() - i,
    {
        let d = preset_doc_exec(&data[i], preset);
        out.push(d);
        i = i + 1;
    }
    proof {
        assert(toc_view(out@) =~= preset_spec(toc_view(data@), preset));
    }
    *data = out;
}

/// A preset applied twice gives what it gives once.
pub proof fn lemma_preset_idempotent(docs: Seq<TocDocView>, p: NavPreset)
    ensures
        preset_spec(preset_spec(docs, p), p) == preset_spec(docs, p),
{
    let once = preset_spec(docs, p);
    let twice = preset_spec(once, p);
    assert forall|i: int| 0 <= i < once.len() implies #[trigger] twice[i] == once[i] by {
        let a = once[i].items;
        let b = twice[i].items;
        assert(b =~= a);
        if let NavPreset::MarkLevel(l) = p {
            if has_level(docs[i].items, l) {
                let k = choose|k: int| 0 <= k < docs[i].items.len() && (#[trigger] docs[i].items[k]).level == l;
                assert(a[k].level == l);
            }
            if has_level(a, l) {
                let k = choose|k: int| 0 <= k < a.len() && (#[trigger] a[k]).level == l;
                assert(docs[i].items[k].level == l);
            }
        }
    }
    assert(twice =~= once);
}

/// A preset keeps the chapters and headings and changes inclusion flags only.
pub proof fn lemma_preset_keeps_structure(docs: Seq<TocDocView>, p: NavPreset)
    ensures
        same_structure(preset_spec(docs, p), docs),
{
}

/// After marking one level, a chapter is included exactly when one of its
/// headings is, and a heading exactly when it has that level.
pub proof fn lemma_mark_level(docs: Seq<TocDocView>, level: u8)
    ensures
        forall|i: int| 0 <= i < docs.len() ==> {
            let d = #[trigger] preset_spec(docs, NavPreset::MarkLevel(level))[i];
            &&& d.included == (exists|k: int| 0 <= k < d.items.len() && (#[trigger] d.items[k]).included)
            &&& forall|k: int| 0 <= k < d.items.len() ==> (#[trigger] d.items[k]).included == (d.items[k].level == level)
        },
{
    assert forall|i: int| 0 <= i < docs.len() implies {
        let d = #[trigger] preset_spec(docs, NavPreset::MarkLevel(level))[i];
        &&& d.included == (exists|k: int| 0 <= k < d.items.len() && (#[trigger] d.items[k]).included)
        &&& forall|k: int| 0 <= k < d.items.len() ==> (#[trigger] d.items[k]).included == (d.items[k].level == level)
    } by {
        let d = preset_spec(docs, NavPreset::MarkLevel(level))[i];
        if d.included {
            let k = choose|k: int| 0 <= k < docs[i].items.len() && (#[trigger] docs[i].items[k]).level == level;
            assert(d.items[k].included);
        }
        if exists|k: int| 0 <= k < d.items.len() && (#[trigger] d.items[k]).included {
            let k = choose|k: int| 0 <= k < d.items.len() && (#[trigger] d.items[k]).included;
            assert(docs[i].items[k].level == level);
        }
    }
}

/// Some chapter of `docs` has a heading of level `l`.
pub open spec fn level_present(docs: Seq<TocDocView>, l: u8) -> bool {
    exists|i: int, k: int| 0 <= i < docs.len() && 0 <= k < docs[i].items.len() && (#[trigger] docs[i].items[k]).level == l
}

/// Some heading seen so far (all headings of the chapters before `i`, and the
/// first `k` of chapter `i`) has level `l`.
spec fn level_seen(docs: Seq<TocDocView>, i: int, k: int, l: u8) -> bool {
    exists|a: int, b: int| 0 <= a <= i && a < docs.len() && 0 <= b < docs[a].items.len() && (a < i || b < k)
        && (#[trigger] docs[a].items[b]).level == l
}

#[verifier::spinoff_prover]
fn insert_level(levels: &mut Vec<u8>, l: u8)
    requires
        forall|a: int, b: int| 0 <= a < b < old(levels)@.len() ==> old(levels)@[a] < old(levels)@[b],
    ensures
        forall|a: int, b: int| 0 <= a < b < final(levels)@.len() ==> final(levels)@[a] < final(levels)@[b],
        forall|x: u8| final(levels)@.contains(x) <==> (old(levels)@.contains(x) || x == l),
{
    let mut p: usize = 0;
    while p < levels.len() && levels[p] < l
        invariant
            p <= levels@.len(),
            levels@ == old(levels)@,
            forall|a: int| 0 <= a < p ==> levels@[a] < l,
        decreases levels@.len() - p,
    {
        p = p + 1;
    }
    if p < levels.len() && levels[p] == l {
        proof { assert(levels@[p as int] == l); }
    } else {
        let ghost old_v = levels@;
        levels.insert(p, l);
        proof {
            assert forall|x: u8| #[trigger] levels@.contains(x) <==> (old_v.contains(x) || x == l) by {
                if levels@.contains(x) {
                    let j = choose|j: int| 0 <= j < levels@.len() && levels@[j] == x;
                    if j < p { assert(old_v[j] == x); } else if j > p { assert(old_v[j - 1] == x); }
                }
                if old_v.contains(x) {
                    let j = choose|j: int| 0 <= j < old_v.len() && old_v[j] == x;
                    if j < p { assert(levels@[j] == x); } else { assert(levels@[j + 1] == x); }
                }
                if x == l { assert(levels@[p as int] == l); }
            }
            assert forall|a: int, b: int| 0 <= a < b < levels@.len() implies levels@[a] < levels@[b] by {
                if b < p { } else if a > p { assert(levels@[a] == old_v[a - 1]); assert(levels@[b] == old_v[b - 1]); }
                else if a == p { assert(levels@[b] == old_v[b - 1]); assert(p < old_v.len()); }
                else if b == p { assert(levels@[a] == old_v[a]); }
                else { assert(levels@[a] == old_v[a]); assert(levels@[b] == old_v[b - 1]); }
            }
        }
    }
}

/// The heading levels of the table of contents, each once, ascending (the
/// levels that the preset menu offers to mark).
pub fn heading_levels(data: &Vec<TocDoc>) -> (r: Vec<u8>)
    ensures
        forall|a: int, b: int| 0 <= a < b < r@.len() ==> r@[a] < r@[b],
        forall|l: u8| r@.contains(l) <==> level_present(toc_view(data@), l),
{
    let ghost dv = toc_view(data@);
    let mut levels: Vec<u8> = Vec::new();
    let mut i: usize = 0;
    while i < data.len()
        invariant
            i <= data@.len(),
            dv == toc_view(data@),
            forall|a: int, b: int| 0 <= a < b < levels@.len() ==> levels@[a] < levels@[b],
            forall|l: u8| levels@.contains(l) <==> level_seen(dv, i as int, 0, l),
        decreases data@.len() - i,
    {
        let doc = &data[i];
        let mut k: usize = 0;
        while k < doc.items.len()
            invariant
                i < data@.len(),
                doc == data@[i as int],
                k <= doc.items@.len(),
                dv == toc_view(data@),
                forall|a: int, b: int| 0 <= a < b < levels@.len() ==> levels@[a] < levels@[b],
                forall|l: u8| levels@.contains(l) <==> level_seen(dv, i as int, k as int, l),
            decreases doc.items@.len() - k,
        {
            let l = doc.items[k].level;
            insert_level(&mut levels, l);
            proof {
                assert(dv[i as int].items[k as int].level == l);
                assert forall|x: u8| levels@.contains(x) <==> level_seen(dv, i as int, k + 1, x) by {
                    if level_seen(dv, i as int, k + 1, x) && x != l {
                        let (a, b) = choose|a: int, b: int| 0 <= a <= i && a < dv.len() && 0 <= b < dv[a].items.len() && (a < i || b < k + 1)
                            && (#[trigger] dv[a].items[b]).level == x;
                        assert(level_seen(dv, i as int, k as int, x));
                    }
                    if level_seen(dv, i as int, k as int, x) {
                        let (a, b) = choose|a: int, b: int| 0 <= a <= i && a < dv.len() && 0 <= b < dv[a].items.len() && (a < i || b < k)
                            && (#[trigger] dv[a].items[b]).level == x;
                        assert(level_seen(dv, i as int, k + 1, x));
                    }
                }
            }
            k = k + 1;
        }
        proof {
            assert forall|x: u8| level_seen(dv, i as int, k as int, x) <==> level_seen(dv, i + 1, 0, x) by {
                if level_seen(dv, i as int, k as int, x) {
                    let (a, b) = choose|a: int, b: int| 0 <= a <= i && a < dv.len() && 0 <= b < dv[a].items.len() && (a < i || b < k)
                        && (#[trigger] dv[a].items[b]).level == x;
                    assert(level_seen(dv, i + 1, 0, x));
                }
                if level_seen(dv, i + 1, 0, x) {
                    let (a, b) = choose|a: int, b: int| 0 <= a <= i + 1 && a < dv.len() && 0 <= b < dv[a].items.len() && (a < i + 1 || b < 0)
                        && (#[trigger] dv[a].items[b]).level == x;
                    assert(level_seen(dv, i as int, k as int, x));
                }
            }
        }
        i = i + 1;
    }
    proof {
        assert forall|x: u8| level_seen(dv, i as int, 0, x) <==> level_present(dv, x) by {
            if level_present(dv, x) {
                let (a, b) = choose|a: int, b: int| 0 <= a < dv.len() && 0 <= b < dv[a].items.len() && (#[trigger] dv[a].items[b]).level == x;
                assert(level_seen(dv, i as int, 0, x));
            }
        }
    }
    levels
}

/// The entries of the preset menu, with their labels: the placeholder, mark
/// all, one entry per heading level present, and clear all.
pub fn nav_presets(data: &Vec<TocDoc>) -> (r: Vec<(NavPreset, String)>)
    ensures
        r@.len() >= 3,
        r@[0].0 == NavPreset::Placeholder && r@[0].1@ == tr_spec("nav.select_headings"@),
        r@[1].0 == NavPreset::MarkAll && r@[1].1@ == tr_spec("nav.mark_all"@),
        r@.last().0 == NavPreset::ClearAll && r@.last().1@ == tr_spec("nav.clear_all"@),
        forall|k: int| 2 <= k < r@.len() - 1 ==> (#[trigger] r@[k]).0 is MarkLevel
            && r@[k].1@ == "Marcar H"@ + decimal(r@[k].0->MarkLevel_0 as nat),
        forall|a: int, b: int| 2 <= a < b < r@.len() - 1 ==> (#[trigger] r@[a]).0->MarkLevel_0 < (#[trigger] r@[b]).0->MarkLevel_0,
        forall|l: u8| level_present(toc_view(data@), l)
            <==> exists|k: int| 2 <= k < r@.len() - 1 && (#[trigger] r@[k]).0 == NavPreset::MarkLevel(l),
{
    let levels = heading_levels(data);
    let mut r: Vec<(NavPreset, String)> = Vec::new();
    r.push((NavPreset::Placeholder, tr("nav.select_headings").to_string()));
    r.push((NavPreset::MarkAll, tr("nav.mark_all").to_string()));
    let mut k: usize = 0;
    while k < levels.len()
        invariant
            k <= levels@.len(),
            r@.len() == k + 2,
            r@[0].0 == NavPreset::Placeholder && r@[0].1@ == tr_spec("nav.select_headings"@),
            r@[1].0 == NavPreset::MarkAll && r@[1].1@ == tr_spec("nav.mark_all"@),
            forall|j: int| 0 <= j < k ==>
                (#[trigger] r@[j + 2]).0 == NavPreset::MarkLevel(levels@[j]) && r@[j + 2].1@ == "Marcar H"@ + decimal(levels@[j] as nat),
        decreases levels@.len() - k,
    {
        let label = concat_str("Marcar H", usize_to_string(levels[k] as usize).as_str());
        r.push((NavPreset::MarkLevel(levels[k]), label));
        k = k + 1;
    }
    r.push((NavPreset::ClearAll, tr("nav.clear_all").to_string()));
    proof {
        assert forall|l: u8| level_present(toc_view(data@), l)
            <==> exists|k: int| 2 <= k < r@.len() - 1 && (#[trigger] r@[k]).0 == NavPreset::MarkLevel(l) by {
            if level_present(toc_view(data@), l) {
                assert(levels@.contains(l));
                let j = choose|j: int| 0 <= j < levels@.len() && levels@[j] == l;
                assert(r@[j + 2].0 == NavPreset::MarkLevel(l));
            }
            if exists|k: int| 2 <= k < r@.len() - 1 && (#[trigger] r@[k]).0 == NavPreset::MarkLevel(l) {
                let k = choose|k: int| 2 <= k < r@.len() - 1 && (#[trigger] r@[k]).0 == NavPreset::MarkLevel(l);
                assert(r@[(k - 2) + 2] == r@[k]);
                assert(levels@[k - 2] == l);
                assert(levels@.contains(l));
            }
        }
        assert forall|a: int, b: int| 2 <= a < b < r@.len() - 1 implies (#[trigger] r@[a]).0->MarkLevel_0 < (#[trigger] r@[b]).0->MarkLevel_0 by {
            assert(r@[(a - 2) + 2] == r@[a]);
            assert(r@[(b - 2) + 2] == r@[b]);
        }
        assert forall|k: int| 2 <= k < r@.len() - 1 implies (#[trigger] r@[k]).0 is MarkLevel
            && r@[k].1@ == "Marcar H"@ + decimal(r@[k].0->MarkLevel_0 as nat) by {
            assert(r@[(k - 2) + 2] == r@[k]);
        }
    }
    r
}

/// The title shown for a chapter row: its title, or its href when it has none.
pub fn doc_row_title(doc: &TocDoc) -> (r: String)
    ensures
        r@ == (if doc.title@.len() == 0 { doc.href@ } else { doc.title@ }),
{
    if doc.title.unicode_len() == 0 { doc.href.clone() } else { doc.title.clone() }
}

/// The title shown for a heading row: its title, or the untitled text.
pub fn item_row_title(item: &TocItem) -> (r: String)
    ensures
        r@ == (if item.title@.len() == 0 { tr_spec("common.untitled"@) } else { item.title@ }),
{
    if item.title.unicode_len() == 0 { tr("common.untitled").to_string() } else { item.title.clone() }
}

/// The level column of a heading row, as `h2`.
pub fn level_label(level: u8) -> (r: String)
    ensures
        r@ == "h"@ + decimal(level as nat),
{
    concat_str("h", usize_to_string(level as usize).as_str())
}

/// The left margin of a heading row: deeper levels sit further right.
pub fn heading_indent(level: u8) -> (r: i32)
    ensures
        r == 24 + 12 * level,
{
    24 + 12 * (level as i32)
}

} // verus!
