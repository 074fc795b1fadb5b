use vstd::prelude::*;
use vstd::string::*;

use crate::groups::{contains_text, find_group_key, group_entry_view, group_key_index_spec, has_text, GroupEntry};
use crate::history::texts;
use crate::labels::{folder_display_name, folder_display_spec};
use crate::numbers::{decimal, usize_to_string};
use crate::ordering::{is_permutation, text_lt, text_order};
use crate::paths::{eq_ignore_ascii_case, eq_ignore_ascii_case_spec};
use crate::selection::{index_of, lemma_index_of, position_of, strings_view};
use crate::strings::{concat_str, str_eq};

verus! {

broadcast use vstd::string::group_string_axioms;

/// The preferences entry of a group: its key, its shown name, and whether it
/// is visible (not hidden).
pub open spec fn entry_for(key: Seq<char>, hidden: Seq<Seq<char>>) -> (Seq<char>, Seq<char>, bool) {
    (key, folder_display_spec(key), !has_text(hidden, key))
}

/// The key a core folder takes: the book's folder of the same name up to
/// ASCII case, if the book has one, else the core name.
pub open spec fn core_key(core: Seq<char>, groups: Seq<Seq<char>>) -> Seq<char> {
    match group_key_index_spec(groups, core) {
        Some(i) => groups[i],
        None => core,
    }
}

/// The book's folders that match no core folder up to ASCII case, in order.
pub open spec fn extra_groups(groups: Seq<Seq<char>>, core: Seq<Seq<char>>) -> Seq<Seq<char>>
    decreases groups.len(),
{
    if groups.len() == 0 {
        Seq::empty()
    } else {
        let rest = extra_groups(groups.drop_last(), core);
        let g = groups.last();
        if group_key_index_spec(core, g) is None { rest.push(g) } else { rest }
    }
}

/// `r` holds the texts of `e` in code-point order, equal ones keeping their
/// order (`sort_by` on the text).
pub open spec fn text_sorted(e: Seq<Seq<char>>, r: Seq<Seq<char>>) -> bool {
    exists|perm: Seq<usize>| #[trigger] is_permutation(perm, e.len())
        && (forall|i: int, j: int| 0 <= i < j < perm.len() ==> !text_lt(#[trigger] e[perm[j] as int], #[trigger] e[perm[i] as int]))
        && (forall|i: int, j: int| 0 <= i < j < perm.len() && !text_lt(e[perm[i] as int], e[perm[j] as int])
            ==> #[trigger] perm[i] < #[trigger] perm[j])
        && r.len() == perm.len()
        && (forall|k: int| 0 <= k < r.len() ==> #[trigger] r[k] == e[perm[k] as int])
}

/// Whether a core folder matches `g` up to ASCII case.
fn matches_core(core: &Vec<String>, g: &str) -> (r: bool)
    ensures
        r == (group_key_index_spec(texts(core@), g@) is Some),
{
    find_group_key(core, g).is_some()
}

fn entry_exec(key: &str, hidden: &Vec<String>) -> (r: GroupEntry)
    ensures
        group_entry_view(r) == entry_for(key@, texts(hidden@)),
{
    (key.to_string(), folder_display_name(key).to_string(), !contains_text(hidden, key))
}

/// The group entries of the preferences: the core folders first, in their
/// canonical order (each under the book's spelling when the book has it up to
/// ASCII case), then the book's other folders in code-point order.
pub fn preference_entries(core: &Vec<String>, manifest_groups: &Vec<String>, hidden: &Vec<String>) -> (r: Vec<GroupEntry>)
    ensures
        r@.len() >= core@.len(),
        forall|i: int| 0 <= i < core@.len() ==>
            group_entry_view(#[trigger] r@[i]) == entry_for(core_key(core@[i]@, texts(manifest_groups@)), texts(hidden@)),
        exists|extras: Seq<Seq<char>>| #[trigger] text_sorted(extra_groups(texts(manifest_groups@), texts(core@)), extras)
            && r@.len() == core@.len() + extras.len()
            && forall|k: int| 0 <= k < extras.len() ==>
                group_entry_view(#[trigger] r@[core@.len() + k]) == entry_for(extras[k], texts(hidden@)),
{
    let ghost gs = texts(manifest_groups@);
    let ghost cs = texts(core@);
    let ghost hs = texts(hidden@);
    let mut r: Vec<GroupEntry> = Vec::new();
    let mut i: usize = 0;
    while i < core.len()
        invariant
            i <= core@.len(),
            gs == texts(manifest_groups@),
            hs == texts(hidden@),
            r@.len() == i,
            forall|k: int| 0 <= k < i ==> group_entry_view(#[trigger] r@[k]) == entry_for(core_key(core@[k]@, gs), hs),
        decreases core@.len() - i,
    {
        let f = core[i].as_str();
        let e = match find_group_key(manifest_groups, f) {
            Some(j) => entry_exec(manifest_groups[j].as_str(), hidden),
            None => entry_exec(f, hidden),
        };
        r.push(e);
        i = i + 1;
    }
    // the book's other folders
    let mut extra: Vec<String> = Vec::new();
    let mut k: usize = 0;
    while k < manifest_groups.len()
        invariant
            k <= manifest_groups@.len(),
            gs == texts(manifest_groups@),
            cs == texts(core@),
            texts(extra@) == extra_groups(gs.take(k as int), cs),
        decreases manifest_groups@.len() - k,
    {
        proof {
            assert(gs.take(k + 1).drop_last() =~= gs.take(k as int));
            assert(gs.take(k + 1).last() == manifest_groups@[k as int]@);
        }
        if !matches_core(core, manifest_groups[k].as_str()) {
            let ghost before = texts(extra@);
            extra.push(manifest_groups[k].clone());
            proof { assert(texts(extra@) =~= before.push(manifest_groups@[k as int]@)); }
        }
        k = k + 1;
    }
    proof { assert(gs.take(manifest_groups@.len() as int) =~= gs); }
    let ghost ev = texts(extra@);
    let order = text_order(&extra);
    let ghost n0 = r@.len();
    let mut j: usize = 0;
    while j < order.len()
        invariant
            j <= order@.len(),
            n0 == core@.len(),
            ev == texts(extra@),
            hs == texts(hidden@),
            gs == texts(manifest_groups@),
            is_permutation(order@, extra@.len()),
            r@.len() == n0 + j,
            forall|q: int| 0 <= q < n0 ==> group_entry_view(#[trigger] r@[q]) == entry_for(core_key(core@[q]@, gs), hs),
            forall|q: int| 0 <= q < j ==> group_entry_view(#[trigger] r@[n0 + q]) == entry_for(ev[order@[q] as int], hs),
        decreases order@.len() - j,
    {
        let e = entry_exec(extra[order[j]].as_str(), hidden);
        r.push(e);
        proof { assert(group_entry_view(r@[n0 + j]) == entry_for(ev[order@[j as int] as int], hs)); }
        j = j + 1;
    }
    proof {
        let extras = Seq::new(order@.len(), |q: int| ev[order@[q] as int]);
        assert forall|a: int| 0 <= a < extra@.len() implies extra@[a]@ == #[trigger] ev[a] by {}
        assert(text_sorted(ev, extras));
        assert forall|q: int| 0 <= q < extras.len() implies
            group_entry_view(#[trigger] r@[core@.len() + q]) == entry_for(extras[q], hs) by {}
    }
    r
}

/// Sets the visibility of the first entry with the key `key`.
pub fn set_group_visible(entries: &mut Vec<GroupEntry>, key: &str, visible: bool)
    ensures
        final(entries)@.len() == old(entries)@.len(),
        forall|i: int| 0 <= i < old(entries)@.len() ==> {
            let e = #[trigger] final(entries)@[i];
            let o = old(entries)@[i];
            &&& e.0@ == o.0@
            &&& e.1@ == o.1@
            &&& e.2 == (if index_of(texts(old(entries)@.map_values(|x: GroupEntry| x.0)), key@) == Some(i) { visible } else { o.2 })
        },
{
    let mut keys: Vec<String> = Vec::new();
    let mut i: usize = 0;
    while i < entries.len()
        invariant
            i <= entries@.len(),
            entries@ == old(entries)@,
            keys@.len() == i,
            forall|k: int| 0 <= k < i ==> (#[trigger] keys@[k])@ == entries@[k].0@,
        decreases entries@.len() - i,
    {
        keys.push(entries[i].0.clone());
        i = i + 1;
    }
    proof {
        assert(strings_view(keys@) =~= texts(old(entries)@.map_values(|x: GroupEntry| x.0)));
    }
    proof { lemma_index_of(strings_view(keys@), key@); }
    match position_of(&keys, key) {
        Some(p) => {
            let old_e = entries.remove(p);
            entries.insert(p, (old_e.0, old_e.1, visible));
            proof {
                assert forall|i: int| 0 <= i < old(entries)@.len() implies {
                    let e = #[trigger] final(entries)@[i];
                    let o = old(entries)@[i];
                    &&& e.0@ == o.0@
                    &&& e.1@ == o.1@
                    &&& e.2 == (if index_of(texts(old(entries)@.map_values(|x: GroupEntry| x.0)), key@) == Some(i) { visible } else { o.2 })
                } by {
                    if i != p { assert(entries@[i] == old(entries)@[i]); }
                }
            }
        },
        None => {},
    }
}

/// Position of the saved model among the loaded ones, or the first.
pub fn model_position(models: &Vec<String>, saved: &str) -> (r: usize)
    ensures
        r == (match index_of(strings_view(models@), saved@) {
            Some(p) => p as usize,
            None => 0usize,
        }),
{
    match position_of(models, saved) {
        Some(p) => p,
        None => 0,
    }
}

/// The status line after loading the models.
pub fn models_loaded_text(n: usize) -> (r: String)
    ensures
        r@ == decimal(n as nat) + " modelo(s) cargado(s)"@,
{
    concat_str(usize_to_string(n).as_str(), " modelo(s) cargado(s)")
}

} // verus!
