use vstd::prelude::*;
use vstd::string::*;
use vstd::utf8::*;

use crate::manifest::{copy_item, find_manifest_item, manifest_ids, manifest_view, ManifestItem, ManifestItemView};
use crate::numbers::{decimal, usize_to_string};
use crate::ordering::{is_permutation, text_lt, text_order};
use crate::paths::{path_file_name, path_file_name_spec};
use crate::pattern::{compile_pattern, regex_compile_outcome, regex_find_spans, replace_all_literal, splice_spans};
use crate::selection::{entry_view, sel_view, Entry};
use crate::groups::{contains_text, has_text};
use crate::history::texts;
use crate::strings::{char_range, collect_chars, concat_str, contains_spec, is_first_occurrence, occurs_at, str_eq, str_find};
use crate::toc::first_index;

verus! {

broadcast use {vstd::string::group_string_axioms, vstd::utf8::encode_utf8_decode_utf8};

/// The state of a stylesheet's check box in the style manager: linked from
/// every selected chapter, from none, or from some.
#[derive(PartialEq, Eq, Structural, Clone, Copy)]
pub enum TriState {
    All,
    Absent,
    Mixed,
}

/// The state for a stylesheet linked from `count_with` of `total` chapters.
pub open spec fn tristate_spec(count_with: nat, total: nat) -> TriState {
    if count_with == 0 {
        TriState::Absent
    } else if count_with == total {
        TriState::All
    } else {
        TriState::Mixed
    }
}

/// The styles of each chapter as plain values.
pub open spec fn styles_view(chapters: Seq<Vec<String>>) -> Seq<Seq<Seq<char>>> {
    chapters.map_values(|v: Vec<String>| texts(v@))
}

/// How many of the chapters list the stylesheet `css_id`.
pub open spec fn chapters_with(chapters: Seq<Seq<Seq<char>>>, css_id: Seq<char>) -> nat
    decreases chapters.len(),
{
    if chapters.len() == 0 {
        0
    } else {
        chapters_with(chapters.drop_last(), css_id) + if has_text(chapters.last(), css_id) { 1nat } else { 0nat }
    }
}

proof fn lemma_chapters_with_bound(chapters: Seq<Seq<Seq<char>>>, css_id: Seq<char>)
    ensures
        chapters_with(chapters, css_id) <= chapters.len(),
    decreases chapters.len(),
{
    if chapters.len() > 0 {
        lemma_chapters_with_bound(chapters.drop_last(), css_id);
    }
}

/// The initial state of the check box of `css_id`, given the styles of each
/// selected chapter.
pub fn initial_tristate(chapter_styles: &Vec<Vec<String>>, css_id: &str) -> (r: TriState)
    ensures
        r == tristate_spec(chapters_with(styles_view(chapter_styles@), css_id@), chapter_styles@.len()),
{
    let ghost cs = styles_view(chapter_styles@);
    let mut count: usize = 0;
    let mut i: usize = 0;
    while i < chapter_styles.len()
        invariant
            i <= chapter_styles@.len(),
            cs == styles_view(chapter_styles@),
            count == chapters_with(cs.take(i as int), css_id@),
        decreases chapter_styles@.len() - i,
    {
        proof {
            assert(cs.take(i + 1).drop_last() =~= cs.take(i as int));
            assert(cs.take(i + 1).last() == texts(chapter_styles@[i as int]@));
            lemma_chapters_with_bound(cs.take(i as int), css_id@);
        }
        if contains_text(&chapter_styles[i], css_id) {
            count = count + 1;
        }
        i = i + 1;
    }
    proof { assert(cs.take(chapter_styles@.len() as int) =~= cs); }
    if count == 0 {
        TriState::Absent
    } else if count == chapter_styles.len() {
        TriState::All
    } else {
        TriState::Mixed
    }
}

/// The state after a click: a mixed or empty box becomes full, a full one
/// empty.
pub open spec fn next_tristate_spec(t: TriState) -> TriState {
    match t {
        TriState::Absent => TriState::All,
        TriState::All => TriState::Absent,
        TriState::Mixed => TriState::All,
    }
}

/// The state after clicking the check box or its row.
pub fn next_tristate(t: TriState) -> (r: TriState)
    ensures
        r == next_tristate_spec(t),
{
    match t {
        TriState::Absent => TriState::All,
        TriState::All => TriState::Absent,
        TriState::Mixed => TriState::All,
    }
}

/// A click never leaves a box mixed.
pub proof fn lemma_click_never_mixed(t: TriState)
    ensures
        next_tristate_spec(t) != TriState::Mixed,
{
}

/// Two clicks bring a full or empty box back; a mixed one ends empty.
pub proof fn lemma_click_twice(t: TriState)
    ensures
        t != TriState::Mixed ==> next_tristate_spec(next_tristate_spec(t)) == t,
        t == TriState::Mixed ==> next_tristate_spec(next_tristate_spec(t)) == TriState::Absent,
{
}

/// How the check box shows a state: `(active, inconsistent)`.
pub fn check_box_state(t: TriState) -> (r: (bool, bool))
    ensures
        r == (match t {
            TriState::All => (true, false),
            TriState::Absent => (false, false),
            TriState::Mixed => (false, true),
        }),
{
    match t {
        TriState::All => (true, false),
        TriState::Absent => (false, false),
        TriState::Mixed => (false, true),
    }
}

/// The title of the style manager for `n` selected chapters.
pub fn manager_title(n: usize) -> (r: String)
    ensures
        r@ == (if n == 1 { "Gestionar estilos"@ } else { "Gestionar estilos — "@ + decimal(n as nat) + " capítulos"@ }),
{
    if n == 1 {
        "Gestionar estilos".to_string()
    } else {
        let s = concat_str("Gestionar estilos — ", usize_to_string(n).as_str());
        concat_str(s.as_str(), " capítulos")
    }
}

/// The styles of a chapter with `css_id` added at the end, when it lacks it;
/// `None` when it already lists it (nothing to change).
pub fn styles_with(styles: &Vec<String>, css_id: &str) -> (r: Option<Vec<String>>)
    ensures
        has_text(texts(styles@), css_id@) ==> r is None,
        !has_text(texts(styles@), css_id@) ==> r is Some && texts(r->Some_0@) == texts(styles@).push(css_id@),
{
    if contains_text(styles, css_id) {
        return None;
    }
    let mut out: Vec<String> = Vec::new();
    let mut i: usize = 0;
    while i < styles.len()
        invariant
            i <= styles@.len(),
            texts(out@) == texts(styles@).take(i as int),
        decreases styles@.len() - i,
    {
        let ghost before = texts(out@);
        out.push(styles[i].clone());
        proof { assert(texts(out@) =~= before.push(styles@[i as int]@)); }
        i = i + 1;
        proof { assert(texts(out@) =~= texts(styles@).take(i as int)); }
    }
    proof { assert(texts(styles@).take(styles@.len() as int) =~= texts(styles@)); }
    let ghost before = texts(out@);
    out.push(css_id.to_string());
    proof { assert(texts(out@) =~= before.push(css_id@)); }
    Some(out)
}

/// The name shown for a stylesheet: its file name, or `fallback`.
pub open spec fn css_name(href: Seq<char>, fallback: Seq<char>) -> Seq<char> {
    match path_file_name_spec(href) {
        Some(n) => n,
        None => fallback,
    }
}

fn css_name_exec(href: &str, fallback: &str) -> (r: String)
    ensures
        r@ == css_name(href@, fallback@),
{
    match path_file_name(href) {
        Some(n) => n,
        None => fallback.to_string(),
    }
}

/// The stylesheets of the manifest, in manifest order, as `(id, name)`.
pub open spec fn css_rows(m: Seq<ManifestItemView>) -> Seq<Entry>
    decreases m.len(),
{
    if m.len() == 0 {
        Seq::empty()
    } else {
        let rest = css_rows(m.drop_last());
        let it = m.last();
        if it.media_type == "text/css"@ { rest.push((it.id, css_name(it.href, it.id))) } else { rest }
    }
}

/// `r` holds the entries of `e` sorted by name, equal names keeping their
/// order (`sort_by` on the name).
pub open spec fn sorted_by_name(e: Seq<Entry>, r: Seq<Entry>) -> bool {
    exists|perm: Seq<usize>| #[trigger] is_permutation(perm, e.len())
        && (forall|i: int, j: int| 0 <= i < j < perm.len() ==> !text_lt(#[trigger] e[perm[j] as int].1, #[trigger] e[perm[i] as int].1))
        && (forall|i: int, j: int| 0 <= i < j < perm.len() && !text_lt(e[perm[i] as int].1, e[perm[j] as int].1)
            ==> #[trigger] perm[i] < #[trigger] perm[j])
        && r.len() == perm.len()
        && (forall|k: int| 0 <= k < r.len() ==> #[trigger] r[k] == e[perm[k] as int])
}

/// The stylesheets that the style manager lists: `(id, name)`, sorted by
/// name.
pub fn css_entries(items: &Vec<ManifestItem>) -> (r: Vec<(String, String)>)
    ensures
        sorted_by_name(css_rows(manifest_view(items@)), sel_view(r@)),
{
    let ghost m = manifest_view(items@);
    let mut rows: Vec<(String, String)> = Vec::new();
    let mut names: Vec<String> = Vec::new();
    let mut i: usize = 0;
    while i < items.len()
        invariant
            i <= items@.len(),
            m == manifest_view(items@),
            sel_view(rows@) == css_rows(m.take(i as int)),
            names@.len() == rows@.len(),
            forall|k: int| 0 <= k < names@.len() ==> (#[trigger] names@[k])@ == rows@[k].1@,
        decreases items@.len() - i,
    {
        proof {
            assert(m.take(i + 1).drop_last() =~= m.take(i as int));
            assert(m.take(i + 1).last() == m[i as int]);
        }
        let it = &items[i];
        if str_eq(it.media_type.as_str(), "text/css") {
            let name = css_name_exec(it.href.as_str(), it.id.as_str());
            let ghost before = sel_view(rows@);
            rows.push((it.id.clone(), name.clone()));
            names.push(name);
            proof { assert(sel_view(rows@) =~= before.push((m[i as int].id, css_name(m[i as int].href, m[i as int].id)))); }
        }
        i = i + 1;
    }
    proof { assert(m.take(items@.len() as int) =~= m); }
    let order = text_order(&names);
    let ghost e = sel_view(rows@);
    let mut r: Vec<(String, String)> = Vec::new();
    let mut j: usize = 0;
    while j < order.len()
        invariant
            j <= order@.len(),
            is_permutation(order@, names@.len()),
            names@.len() == rows@.len(),
            e == sel_view(rows@),
            r@.len() == j,
            forall|k: int| 0 <= k < j ==> entry_view(#[trigger] r@[k]) == e[order@[k] as int],
        decreases order@.len() - j,
    {
        let row = &rows[order[j]];
        r.push((row.0.clone(), row.1.clone()));
        proof { assert(entry_view(r@[j as int]) == e[order@[j as int] as int]); }
        j = j + 1;
    }
    proof {
        let rv = sel_view(r@);
        assert forall|k: int| 0 <= k < rv.len() implies #[trigger] rv[k] == e[order@[k] as int] by {
            assert(rv[k] == entry_view(r@[k]));
        }
        assert forall|a: int| 0 <= a < names@.len() implies names@[a]@ == #[trigger] e[a].1 by {}
        assert(is_permutation(order@, e.len()));
    }
    r
}

/// A row of the default-styles list: id, name, checked.
pub type StyleRow = (String, String, bool);

/// A style row as plain values.
pub open spec fn style_row_view(r: StyleRow) -> (Seq<char>, Seq<char>, bool) {
    (r.0@, r.1@, r.2)
}

/// The default stylesheets that the manifest holds, in configured order,
/// checked.
pub open spec fn default_rows(defaults: Seq<Seq<char>>, m: Seq<ManifestItemView>) -> Seq<(Seq<char>, Seq<char>, bool)>
    decreases defaults.len(),
{
    if defaults.len() == 0 {
        Seq::empty()
    } else {
        let rest = default_rows(defaults.drop_last(), m);
        let d = defaults.last();
        match first_index(manifest_ids(m), d) {
            Some(j) => rest.push((d, css_name(m[j].href, d), true)),
            None => rest,
        }
    }
}

/// The other stylesheets of the manifest, in manifest order, unchecked.
pub open spec fn other_css_rows(defaults: Seq<Seq<char>>, m: Seq<ManifestItemView>) -> Seq<(Seq<char>, Seq<char>, bool)>
    decreases m.len(),
{
    if m.len() == 0 {
        Seq::empty()
    } else {
        let rest = other_css_rows(defaults, m.drop_last());
        let it = m.last();
        if it.media_type == "text/css"@ && !has_text(defaults, it.id) {
            rest.push((it.id, css_name(it.href, it.id), false))
        } else {
            rest
        }
    }
}

/// The rows of the default-styles popover: the default stylesheets first (in
/// configured order, as the cascade applies them), then the other stylesheets
/// of the manifest.
pub fn default_style_rows(defaults: &Vec<String>, items: &Vec<ManifestItem>) -> (r: Vec<StyleRow>)
    ensures
        r@.map_values(|x: StyleRow| style_row_view(x))
            == default_rows(texts(defaults@), manifest_view(items@)) + other_css_rows(texts(defaults@), manifest_view(items@)),
{
    let ghost m = manifest_view(items@);
    let ghost ds = texts(defaults@);
    let mut r: Vec<StyleRow> = Vec::new();
    let mut i: usize = 0;
    while i < defaults.len()
        invariant
            i <= defaults@.len(),
            m == manifest_view(items@),
            ds == texts(defaults@),
            r@.map_values(|x: StyleRow| style_row_view(x)) == default_rows(ds.take(i as int), m),
        decreases defaults@.len() - i,
    {
        proof {
            assert(ds.take(i + 1).drop_last() =~= ds.take(i as int));
            assert(ds.take(i + 1).last() == defaults@[i as int]@);
        }
        let d = &defaults[i];
        match find_manifest_item(items, d.as_str()) {
            Some(j) => {
                let name = css_name_exec(items[j].href.as_str(), d.as_str());
                let ghost before = r@.map_values(|x: StyleRow| style_row_view(x));
                r.push((d.clone(), name, true));
                proof {
                    assert(m[j as int].href == items@[j as int].href@);
                    assert(r@.map_values(|x: StyleRow| style_row_view(x)) =~= before.push((d@, css_name(m[j as int].href, d@), true)));
                }
            },
            None => {},
        }
        i = i + 1;
    }
    proof { assert(ds.take(defaults@.len() as int) =~= ds); }
    let ghost first_part = r@.map_values(|x: StyleRow| style_row_view(x));
    let mut k: usize = 0;
    while k < items.len()
        invariant
            k <= items@.len(),
            m == manifest_view(items@),
            ds == texts(defaults@),
            first_part == default_rows(ds, m),
            r@.map_values(|x: StyleRow| style_row_view(x)) == first_part + other_css_rows(ds, m.take(k as int)),
        decreases items@.len() - k,
    {
        proof {
            assert(m.take(k + 1).drop_last() =~= m.take(k as int));
            assert(m.take(k + 1).last() == m[k as int]);
        }
        let it = &items[k];
        if str_eq(it.media_type.as_str(), "text/css") && !contains_text(defaults, it.id.as_str()) {
            let name = css_name_exec(it.href.as_str(), it.id.as_str());
            let ghost before = r@.map_values(|x: StyleRow| style_row_view(x));
            r.push((it.id.clone(), name, false));
            proof {
                assert(r@.map_values(|x: StyleRow| style_row_view(x)) =~= before.push((m[k as int].id, css_name(m[k as int].href, m[k as int].id), false)));
                assert(first_part + other_css_rows(ds, m.take(k + 1)) =~= (first_part + other_css_rows(ds, m.take(k as int))).push((m[k as int].id, css_name(m[k as int].href, m[k as int].id), false)));
            }
        }
        k = k + 1;
    }
    proof { assert(m.take(items@.len() as int) =~= m); }
    r
}

/// The ids of the checked rows, in order: the new default styles.
pub fn checked_ids(rows: &Vec<StyleRow>) -> (r: Vec<String>)
    ensures
        texts(r@) == checked_spec(rows@.map_values(|x: StyleRow| style_row_view(x))),
{
    let ghost rv = rows@.map_values(|x: StyleRow| style_row_view(x));
    let mut r: Vec<String> = Vec::new();
    let mut i: usize = 0;
    while i < rows.len()
        invariant
            i <= rows@.len(),
            rv == rows@.map_values(|x: StyleRow| style_row_view(x)),
            texts(r@) == checked_spec(rv.take(i as int)),
        decreases rows@.len() - i,
    {
        proof {
            assert(rv.take(i + 1).drop_last() =~= rv.take(i as int));
            assert(rv.take(i + 1).last() == style_row_view(rows@[i as int]));
        }
        if rows[i].2 {
            let ghost before = texts(r@);
            r.push(rows[i].0.clone());
            proof { assert(texts(r@) =~= before.push(rows@[i as int].0@)); }
        }
        i = i + 1;
    }
    proof { assert(rv.take(rows@.len() as int) =~= rv); }
    r
}

/// The ids of the checked rows, in order.
pub open spec fn checked_spec(rows: Seq<(Seq<char>, Seq<char>, bool)>) -> Seq<Seq<char>>
    decreases rows.len(),
{
    if rows.len() == 0 {
        Seq::empty()
    } else {
        let rest = checked_spec(rows.drop_last());
        if rows.last().2 { rest.push(rows.last().0) } else { rest }
    }
}

/// Moves the row `i` one place up (swaps it with the row before).
pub fn move_row_up<T>(rows: &mut Vec<T>, i: usize)
    requires
        0 < i < old(rows)@.len(),
    ensures
        final(rows)@ == old(rows)@.update(i - 1, old(rows)@[i as int]).update(i as int, old(rows)@[i - 1]),
{
    let x = rows.remove(i);
    rows.insert(i - 1, x);
    proof {
        assert(final(rows)@ =~= old(rows)@.update(i - 1, old(rows)@[i as int]).update(i as int, old(rows)@[i - 1]));
    }
}

/// Moves the row `i` one place down (swaps it with the row after).
pub fn move_row_down<T>(rows: &mut Vec<T>, i: usize)
    requires
        i + 1 < old(rows)@.len(),
    ensures
        final(rows)@ == old(rows)@.update(i as int, old(rows)@[i + 1]).update(i + 1, old(rows)@[i as int]),
{
    let n = rows.len();
    let j = i + 1;
    let x = rows.remove(i);
    rows.insert(j, x);
    proof {
        assert(final(rows)@ =~= old(rows)@.update(i as int, old(rows)@[i + 1]).update(i + 1, old(rows)@[i as int]));
    }
}

/// Which move buttons the row `i` of `n` shows: `(up, down)`.
pub fn row_moves(i: usize, n: usize) -> (r: (bool, bool))
    ensures
        r == (i > 0, i + 1 < n),
{
    (i > 0, n > 0 && i < n - 1)
}

/// The stylesheet links of a chapter's head, self-closing or not: each with
/// its indentation and the line break after it.
pub const STYLESHEET_LINK_PATTERN: &'static str = r#"(?m)[ \t]*<link\b[^>]*\brel=["']stylesheet["'][^>]*>\r?\n?"#;

/// What comes before the href in a generated stylesheet link.
pub const LINK_HEAD: &'static str = "  <link rel=\"stylesheet\" type=\"text/css\" href=\"../";

/// What comes after the href in a generated stylesheet link.
pub const LINK_TAIL: &'static str = "\"/>";

/// The hrefs of the chapter's stylesheets: each style id that the manifest
/// holds as a CSS resource, in order.
pub open spec fn chapter_css_hrefs(style_ids: Seq<Seq<char>>, m: Seq<ManifestItemView>) -> Seq<Seq<char>>
    decreases style_ids.len(),
{
    if style_ids.len() == 0 {
        Seq::empty()
    } else {
        let rest = chapter_css_hrefs(style_ids.drop_last(), m);
        match first_index(manifest_ids(m), style_ids.last()) {
            Some(j) => if m[j].media_type == "text/css"@ { rest.push(m[j].href) } else { rest },
            None => rest,
        }
    }
}

/// The block of links to insert: a line break, then one link per href, the
/// links separated by line breaks.
pub open spec fn links_block(hrefs: Seq<Seq<char>>) -> Seq<char>
    decreases hrefs.len(),
{
    if hrefs.len() == 0 {
        Seq::empty()
    } else {
        links_block(hrefs.drop_last()) + seq!['\n'] + LINK_HEAD@ + hrefs.last() + LINK_TAIL@
    }
}

/// The chapter without its stylesheet links (every match of the link pattern
/// removed).
pub open spec fn without_links(content: Seq<char>) -> Seq<char> {
    decode_utf8(splice_spans(encode_utf8(content), regex_find_spans(STYLESHEET_LINK_PATTERN@, content), Seq::empty(), 0))
}

/// Position of the first occurrence of `p` in `s`.
pub open spec fn first_occurrence(s: Seq<char>, p: Seq<char>) -> Option<int> {
    if contains_spec(s, p) { Some(choose|i: int| is_first_occurrence(s, p, i)) } else { None }
}

/// `s` with `block` inserted right after the first `marker`, if there is one.
pub open spec fn insert_after(s: Seq<char>, marker: Seq<char>, block: Seq<char>) -> Option<Seq<char>> {
    match first_occurrence(s, marker) {
        Some(i) => Some(s.subrange(0, i + marker.len()) + block + s.subrange(i + marker.len(), s.len() as int)),
        None => None,
    }
}

/// The chapter with its stylesheet links replaced by those of `hrefs`: the
/// old links removed, and, when there are new ones, their block inserted
/// after `</title>`, else after `<head>`, else nowhere.
pub open spec fn synced_links(content: Seq<char>, hrefs: Seq<Seq<char>>) -> Seq<char> {
    let w = without_links(content);
    if hrefs.len() == 0 {
        w
    } else {
        match insert_after(w, "</title>"@, links_block(hrefs)) {
            Some(t) => t,
            None => match insert_after(w, "<head>"@, links_block(hrefs)) {
                Some(t) => t,
                None => w,
            },
        }
    }
}

proof fn lemma_first_occurrence(s: Seq<char>, p: Seq<char>, i: int)
    requires
        is_first_occurrence(s, p, i),
    ensures
        first_occurrence(s, p) == Some(i),
{
    assert(contains_spec(s, p));
    let j = choose|j: int| is_first_occurrence(s, p, j);
    if j < i { assert(!occurs_at(s, p, j)); }
    if j > i { assert(!occurs_at(s, p, i)); }
}

fn insert_after_exec(s: &str, marker: &str, block: &str) -> (r: Option<String>)
    ensures
        match insert_after(s@, marker@, block@) {
            Some(t) => r is Some && r->Some_0@ == t,
            None => r is None,
        },
{
    match str_find(s, marker) {
        Some(i) => {
            proof { lemma_first_occurrence(s@, marker@, i as int); }
            let chars = collect_chars(s);
            let ml = marker.unicode_len();
            let n = chars.len();
            proof { assert(i + ml <= n); }
            let at = i + ml;
            let head = char_range(&chars, 0, at);
            let tail = char_range(&chars, at, chars.len());
            let t = concat_str(head.as_str(), block);
            Some(concat_str(t.as_str(), tail.as_str()))
        },
        None => None,
    }
}

/// The hrefs of the chapter's CSS stylesheets.
fn css_hrefs_exec(style_ids: &Vec<String>, items: &Vec<ManifestItem>) -> (r: Vec<String>)
    ensures
        texts(r@) == chapter_css_hrefs(texts(style_ids@), manifest_view(items@)),
{
    let ghost ids = texts(style_ids@);
    let ghost m = manifest_view(items@);
    let mut r: Vec<String> = Vec::new();
    let mut i: usize = 0;
    while i < style_ids.len()
        invariant
            i <= style_ids@.len(),
            ids == texts(style_ids@),
            m == manifest_view(items@),
            texts(r@) == chapter_css_hrefs(ids.take(i as int), m),
        decreases style_ids@.len() - i,
    {
        proof {
            assert(ids.take(i + 1).drop_last() =~= ids.take(i as int));
            assert(ids.take(i + 1).last() == style_ids@[i as int]@);
        }
        match find_manifest_item(items, style_ids[i].as_str()) {
            Some(j) => {
                proof { assert(m[j as int] == items@[j as int]@); }
                if str_eq(items[j].media_type.as_str(), "text/css") {
                    let ghost before = texts(r@);
                    r.push(items[j].href.clone());
                    proof { assert(texts(r@) =~= before.push(m[j as int].href)); }
                }
            },
            None => {},
        }
        i = i + 1;
    }
    proof { assert(ids.take(style_ids@.len() as int) =~= ids); }
    r
}

fn links_block_exec(hrefs: &Vec<String>) -> (r: String)
    ensures
        r@ == links_block(texts(hrefs@)),
{
    let ghost hs = texts(hrefs@);
    let mut out = String::new();
    let mut i: usize = 0;
    while i < hrefs.len()
        invariant
            i <= hrefs@.len(),
            hs == texts(hrefs@),
            out@ == links_block(hs.take(i as int)),
        decreases hrefs@.len() - i,
    {
        proof {
            assert(hs.take(i + 1).drop_last() =~= hs.take(i as int));
            assert(hs.take(i + 1).last() == hrefs@[i as int]@);
        }
        let a = concat_str(out.as_str(), "\n");
        let b = concat_str(a.as_str(), LINK_HEAD);
        let c = concat_str(b.as_str(), hrefs[i].as_str());
        out = concat_str(c.as_str(), LINK_TAIL);
        proof {
            reveal_strlit("\n");
            assert(out@ =~= links_block(hs.take(i as int)) + seq!['\n'] + LINK_HEAD@ + hrefs@[i as int]@ + LINK_TAIL@);
        }
        i = i + 1;
    }
    proof { assert(hs.take(hrefs@.len() as int) =~= hs); }
    out
}

/// Replaces the stylesheet links of a chapter with those of its styles: every
/// link that the pattern finds is removed (with its indentation and line
/// break), then, when the chapter has CSS stylesheets (`style_ids` looked up
/// in the manifest), a block with one link each, `../href`, goes after
/// `</title>`, else after `<head>`. The rest of the content is untouched.
/// The error is that of the pattern, should it fail to compile.
pub fn sync_stylesheet_links(content: &str, style_ids: &Vec<String>, items: &Vec<ManifestItem>) -> (r: Result<String, String>)
    ensures
        match regex_compile_outcome(STYLESHEET_LINK_PATTERN@) {
            Ok(_) => r is Ok && r->Ok_0@ == synced_links(content@, chapter_css_hrefs(texts(style_ids@), manifest_view(items@))),
            Err(e) => r is Err && r->Err_0@ == e,
        },
{
    let re = match compile_pattern(STYLESHEET_LINK_PATTERN) {
        Ok(re) => re,
        Err(e) => return Err(e),
    };
    let without = replace_all_literal(&re, content, "");
    proof {
        reveal_strlit("");
        assert(encode_utf8(""@) =~= Seq::<u8>::empty());
        assert(without@ == decode_utf8(encode_utf8(without@)));
        assert(without@ == without_links(content@));
    }
    let hrefs = css_hrefs_exec(style_ids, items);
    if hrefs.len() == 0 {
        return Ok(without);
    }
    let block = links_block_exec(&hrefs);
    match insert_after_exec(without.as_str(), "</title>", block.as_str()) {
        Some(t) => Ok(t),
        None => match insert_after_exec(without.as_str(), "<head>", block.as_str()) {
            Some(t) => Ok(t),
            None => Ok(without),
        },
    }
}

/// A chapter without stylesheet links and without stylesheets comes out of
/// the sync unchanged.
pub proof fn lemma_sync_leaves_plain_chapter(content: Seq<char>)
    requires
        regex_find_spans(STYLESHEET_LINK_PATTERN@, content).len() == 0,
    ensures
        synced_links(content, Seq::empty()) == content,
{
    let b = encode_utf8(content);
    assert(b.subrange(0, b.len() as int) =~= b);
}

} // verus!
