use vstd::prelude::*;

use crate::strings::str_eq;

verus! {

/// Selected sidebar items, each as `(folder, id)`, and the anchor of the last
/// click.
pub struct SelectionState {
    pub selected: Vec<(String, String)>,
    pub last_clicked: Option<(String, String)>,
}

/// A selection entry as plain text: `(folder, id)`.
pub type Entry = (Seq<char>, Seq<char>);

/// The selection as plain text.
#[verifier::ext_equal]
pub struct SelectionView {
    pub selected: Seq<Entry>,
    pub last_clicked: Option<Entry>,
}

/// A `(folder, id)` pair as plain text.
pub open spec fn entry_view(e: (String, String)) -> Entry {
    (e.0@, e.1@)
}

impl View for SelectionState {
    type V = SelectionView;

    open spec fn view(&self) -> SelectionView {
        SelectionView {
            selected: self.selected@.map_values(|e: (String, String)| entry_view(e)),
            last_clicked: match self.last_clicked {
                Some(e) => Some(entry_view(e)),
                None => None,
            },
        }
    }
}

/// What the interface does after a click.
#[derive(PartialEq, Eq, Structural)]
pub enum ClickAction {
    Nothing,
    OpenItem,
    ShowContextMenu,
}

/// Index of the first entry of `sel` with the id `id`.
pub open spec fn index_of_id(sel: Seq<Entry>, id: Seq<char>) -> Option<int>
    decreases sel.len(),
{
    if sel.len() == 0 {
        None
    } else if sel.last().1 == id && index_of_id(sel.drop_last(), id) is None {
        Some(sel.len() - 1)
    } else {
        index_of_id(sel.drop_last(), id)
    }
}

/// Index of the first occurrence of `x` in `s`.
pub open spec fn index_of(s: Seq<Seq<char>>, x: Seq<char>) -> Option<int>
    decreases s.len(),
{
    if s.len() == 0 {
        None
    } else if s.last() == x && index_of(s.drop_last(), x) is None {
        Some(s.len() - 1)
    } else {
        index_of(s.drop_last(), x)
    }
}

/// Some entry of `sel` has the id `id`.
pub open spec fn has_id(sel: Seq<Entry>, id: Seq<char>) -> bool {
    exists|i: int| 0 <= i < sel.len() && (#[trigger] sel[i]).1 == id
}

/// Some entry of `sel` lies outside the folder `folder`.
pub open spec fn has_other_folder(sel: Seq<Entry>, folder: Seq<char>) -> bool {
    exists|i: int| 0 <= i < sel.len() && (#[trigger] sel[i]).0 != folder
}

/// Every entry of `sel` lies in the folder `folder`.
pub open spec fn all_in_folder(sel: Seq<Entry>, folder: Seq<char>) -> bool {
    forall|i: int| 0 <= i < sel.len() ==> (#[trigger] sel[i]).0 == folder
}

/// No two entries of `sel` share an id.
pub open spec fn ids_unique(sel: Seq<Entry>) -> bool {
    forall|i: int, j: int| 0 <= i < j < sel.len() ==> (#[trigger] sel[i]).1 != (#[trigger] sel[j]).1
}

/// All entries of `sel` lie in one folder.
pub open spec fn single_folder(sel: Seq<Entry>) -> bool {
    forall|i: int, j: int| 0 <= i < sel.len() && 0 <= j < sel.len() ==> (#[trigger] sel[i]).0 == (#[trigger] sel[j]).0
}

/// The entries of `sel` that lie in `folder`, in order.
pub open spec fn keep_folder(sel: Seq<Entry>, folder: Seq<char>) -> Seq<Entry>
    decreases sel.len(),
{
    if sel.len() == 0 {
        Seq::empty()
    } else if sel.last().0 == folder {
        keep_folder(sel.drop_last(), folder).push(sel.last())
    } else {
        keep_folder(sel.drop_last(), folder)
    }
}

/// `sel` with `(folder, id)` appended for each id of `ids`, in order, that no
/// entry has yet.
pub open spec fn add_missing(sel: Seq<Entry>, folder: Seq<char>, ids: Seq<Seq<char>>) -> Seq<Entry>
    decreases ids.len(),
{
    if ids.len() == 0 {
        sel
    } else {
        let before = add_missing(sel, folder, ids.drop_last());
        if has_id(before, ids.last()) {
            before
        } else {
            before.push((folder, ids.last()))
        }
    }
}

/// `sel` with `(folder, id)` appended, after clearing it when it holds an entry
/// of another folder.
pub open spec fn add_in_folder(sel: Seq<Entry>, folder: Seq<char>, id: Seq<char>) -> Seq<Entry> {
    (if has_other_folder(sel, folder) { Seq::empty() } else { sel }).push((folder, id))
}

/// The selection and action after a click with mouse `button` (1 left, 3
/// right) on the item `id` of `folder`, whose group lists the ids `group`.
///
/// Left with Ctrl toggles the item; left with Shift selects the range of the
/// group between the anchor and the item, when the anchor is in the same
/// folder, else selects the item alone; a plain left click clears the
/// selection and opens the item; a right click adds the item when it is not
/// selected and shows the context menu. Other buttons change nothing.
pub open spec fn click_spec(
    s: SelectionView,
    button: u32,
    ctrl: bool,
    shift: bool,
    folder: Seq<char>,
    id: Seq<char>,
    group: Seq<Seq<char>>,
) -> (SelectionView, ClickAction) {
    if button == 1 {
        if ctrl {
            let sel = match index_of_id(s.selected, id) {
                Some(p) => s.selected.remove(p),
                None => add_in_folder(s.selected, folder, id),
            };
            (SelectionView { selected: sel, last_clicked: Some((folder, id)) }, ClickAction::Nothing)
        } else if shift {
            match s.last_clicked {
                Some(anchor) if anchor.0 == folder => match (index_of(group, anchor.1), index_of(group, id)) {
                    (Some(pa), Some(pc)) => {
                        let lo = if pa <= pc { pa } else { pc };
                        let hi = if pa <= pc { pc } else { pa };
                        let sel = add_missing(keep_folder(s.selected, folder), folder, group.subrange(lo, hi + 1));
                        (SelectionView { selected: sel, last_clicked: s.last_clicked }, ClickAction::Nothing)
                    },
                    _ => (s, ClickAction::Nothing),
                },
                _ => (
                    SelectionView { selected: seq![(folder, id)], last_clicked: Some((folder, id)) },
                    ClickAction::Nothing,
                ),
            }
        } else {
            (SelectionView { selected: Seq::empty(), last_clicked: Some((folder, id)) }, ClickAction::OpenItem)
        }
    } else if button == 3 {
        if has_id(s.selected, id) {
            (s, ClickAction::ShowContextMenu)
        } else {
            (
                SelectionView { selected: add_in_folder(s.selected, folder, id), last_clicked: Some((folder, id)) },
                ClickAction::ShowContextMenu,
            )
        }
    } else {
        (s, ClickAction::Nothing)
    }
}


/// `v` as plain-text entries.
pub open spec fn sel_view(v: Seq<(String, String)>) -> Seq<Entry> {
    v.map_values(|e: (String, String)| entry_view(e))
}

/// `v` as plain text.
pub open spec fn strings_view(v: Seq<String>) -> Seq<Seq<char>> {
    v.map_values(|s: String| s@)
}

proof fn lemma_index_of_id(sel: Seq<Entry>, id: Seq<char>)
    ensures
        match index_of_id(sel, id) {
            Some(p) => 0 <= p < sel.len() && sel[p].1 == id && forall|k: int| 0 <= k < p ==> (#[trigger] sel[k]).1 != id,
            None => !has_id(sel, id),
        },
    decreases sel.len(),
{
    if sel.len() > 0 {
        lemma_index_of_id(sel.drop_last(), id);
        if index_of_id(sel.drop_last(), id) is None {
            assert forall|k: int| 0 <= k < sel.len() - 1 implies (#[trigger] sel[k]).1 != id by {
                assert(sel.drop_last()[k] == sel[k]);
            }
        } else {
            let p = index_of_id(sel.drop_last(), id)->0;
            assert(sel.drop_last()[p] == sel[p]);
            assert forall|k: int| 0 <= k < p implies (#[trigger] sel[k]).1 != id by {
                assert(sel.drop_last()[k] == sel[k]);
            }
        }
    }
}

pub(crate) proof fn lemma_index_of(s: Seq<Seq<char>>, x: Seq<char>)
    ensures
        match index_of(s, x) {
            Some(p) => 0 <= p < s.len() && s[p] == x && forall|k: int| 0 <= k < p ==> s[k] != x,
            None => forall|k: int| 0 <= k < s.len() ==> s[k] != x,
        },
    decreases s.len(),
{
    if s.len() > 0 {
        lemma_index_of(s.drop_last(), x);
        if index_of(s.drop_last(), x) is None {
            assert forall|k: int| 0 <= k < s.len() - 1 implies s[k] != x by {
                assert(s.drop_last()[k] == s[k]);
            }
        } else {
            let p = index_of(s.drop_last(), x)->0;
            assert(s.drop_last()[p] == s[p]);
            assert forall|k: int| 0 <= k < p implies s[k] != x by {
                assert(s.drop_last()[k] == s[k]);
            }
        }
    }
}

/// Position of the first entry of `sel` with the id `id`.
fn find_id(sel: &Vec<(String, String)>, id: &str) -> (r: Option<usize>)
    ensures
        match r {
            Some(p) => index_of_id(sel_view(sel@), id@) == Some(p as int),
            None => index_of_id(sel_view(sel@), id@) is None,
        },
{
    proof { lemma_index_of_id(sel_view(sel@), id@); }
    let mut i: usize = 0;
    while i < sel.len()
        invariant
            i <= sel@.len(),
            forall|k: int| 0 <= k < i ==> (#[trigger] sel_view(sel@)[k]).1 != id@,
        decreases sel@.len() - i,
    {
        if str_eq(sel[i].1.as_str(), id) {
            proof {
                let v = sel_view(sel@);
                lemma_index_of_id(v, id@);
                match index_of_id(v, id@) {
                    Some(p) => {
                        if p < i { assert(v[p].1 != id@); }
                        if p > i { assert(v[i as int].1 == id@); }
                    },
                    None => { assert(v[i as int].1 == id@); }
                }
            }
            return Some(i);
        }
        i = i + 1;
    }
    proof {
        let v = sel_view(sel@);
        lemma_index_of_id(v, id@);
        if index_of_id(v, id@) is Some {
            let p = index_of_id(v, id@)->0;
            assert(v[p].1 == id@);
        }
    }
    None
}

/// Some entry of `sel` has the id `id`.
pub(crate) fn contains_id(sel: &Vec<(String, String)>, id: &str) -> (r: bool)
    ensures
        r == has_id(sel_view(sel@), id@),
{
    let found = find_id(sel, id);
    proof { lemma_index_of_id(sel_view(sel@), id@); }
    found.is_some()
}

/// Some entry of `sel` lies outside `folder`.
fn any_other_folder(sel: &Vec<(String, String)>, folder: &str) -> (r: bool)
    ensures
        r == has_other_folder(sel_view(sel@), folder@),
{
    let mut i: usize = 0;
    while i < sel.len()
        invariant
            i <= sel@.len(),
            forall|k: int| 0 <= k < i ==> (#[trigger] sel_view(sel@)[k]).0 == folder@,
        decreases sel@.len() - i,
    {
        if !str_eq(sel[i].0.as_str(), folder) {
            proof { assert(sel_view(sel@)[i as int].0 != folder@); }
            return true;
        }
        i = i + 1;
    }
    false
}

/// Position of the first `x` in `v`.
pub(crate) fn position_of(v: &Vec<String>, x: &str) -> (r: Option<usize>)
    ensures
        match r {
            Some(p) => index_of(strings_view(v@), x@) == Some(p as int),
            None => index_of(strings_view(v@), x@) is None,
        },
{
    proof { lemma_index_of(strings_view(v@), x@); }
    let mut i: usize = 0;
    while i < v.len()
        invariant
            i <= v@.len(),
            forall|k: int| 0 <= k < i ==> strings_view(v@)[k] != x@,
        decreases v@.len() - i,
    {
        if str_eq(v[i].as_str(), x) {
            proof {
                let w = strings_view(v@);
                lemma_index_of(w, x@);
                match index_of(w, x@) {
                    Some(p) => {
                        if p < i { assert(w[p] != x@); }
                        if p > i { assert(w[i as int] == x@); }
                    },
                    None => { assert(w[i as int] == x@); }
                }
            }
            return Some(i);
        }
        i = i + 1;
    }
    proof {
        let w = strings_view(v@);
        lemma_index_of(w, x@);
        if index_of(w, x@) is Some {
            let p = index_of(w, x@)->0;
            assert(w[p] == x@);
        }
    }
    None
}


/// Appends `(folder, id)` to `sel`, after clearing it when it holds an entry
/// of another folder.
fn push_in_folder(sel: &mut Vec<(String, String)>, folder: &str, id: &str)
    ensures
        sel_view(final(sel)@) == add_in_folder(sel_view(old(sel)@), folder@, id@),
{
    if any_other_folder(sel, folder) {
        sel.clear();
    }
    sel.push((folder.to_string(), id.to_string()));
    proof {
        let old_v = sel_view(old(sel)@);
        let base = if has_other_folder(old_v, folder@) { Seq::<Entry>::empty() } else { old_v };
        assert(sel_view(sel@) =~= base.push((folder@, id@)));
    }
}

/// The entries of `sel` that lie in `folder`, in order.
fn keep_in_folder(sel: &Vec<(String, String)>, folder: &str) -> (r: Vec<(String, String)>)
    ensures
        sel_view(r@) == keep_folder(sel_view(sel@), folder@),
{
    let mut r: Vec<(String, String)> = Vec::new();
    let mut i: usize = 0;
    while i < sel.len()
        invariant
            i <= sel@.len(),
            sel_view(r@) == keep_folder(sel_view(sel@).take(i as int), folder@),
        decreases sel@.len() - i,
    {
        let ghost before = r@;
        proof {
            assert(sel_view(sel@).take(i + 1).drop_last() =~= sel_view(sel@).take(i as int));
        }
        if str_eq(sel[i].0.as_str(), folder) {
            r.push((sel[i].0.clone(), sel[i].1.clone()));
            proof { assert(sel_view(r@) =~= sel_view(before).push(sel_view(sel@)[i as int])); }
        }
        i = i + 1;
    }
    proof { assert(sel_view(sel@).take(sel@.len() as int) =~= sel_view(sel@)); }
    r
}

/// Appends `(folder, ids[j])` for each `j` from `lo` to `hi`, in order, whose
/// id no entry has yet.
fn push_missing(sel: &mut Vec<(String, String)>, folder: &str, ids: &Vec<String>, lo: usize, hi: usize)
    requires
        lo <= hi < ids@.len(),
    ensures
        sel_view(final(sel)@) == add_missing(sel_view(old(sel)@), folder@, strings_view(ids@).subrange(lo as int, hi + 1)),
{
    let ghost base = sel_view(sel@);
    let n = ids.len();
    let mut j: usize = lo;
    assert(strings_view(ids@).subrange(lo as int, lo as int) =~= Seq::<Seq<char>>::empty());
    while j <= hi
        invariant
            lo <= j <= hi + 1,
            hi < ids@.len(),
            n == ids@.len(),
            sel_view(sel@) == add_missing(base, folder@, strings_view(ids@).subrange(lo as int, j as int)),
        decreases hi + 1 - j,
    {
        let ghost before = sel_view(sel@);
        proof {
            let w = strings_view(ids@);
            assert(w.subrange(lo as int, j + 1).drop_last() =~= w.subrange(lo as int, j as int));
            assert(w.subrange(lo as int, j + 1).last() == ids@[j as int]@);
        }
        if !contains_id(sel, ids[j].as_str()) {
            sel.push((folder.to_string(), ids[j].clone()));
            proof { assert(sel_view(sel@) =~= before.push((folder@, ids@[j as int]@))); }
        }
        j = j + 1;
    }
}

/// Applies a click with mouse `button` (1 left, 3 right), with Ctrl or Shift
/// held, on the sidebar item `item_id` of `folder`, whose group lists
/// `group_ids`, to the selection `state`, and says what to do next.
pub fn sidebar_click(
    state: &mut SelectionState,
    button: u32,
    ctrl: bool,
    shift: bool,
    folder: &str,
    item_id: &str,
    group_ids: &Vec<String>,
) -> (action: ClickAction)
    ensures
        ({
            let r = click_spec(old(state)@, button, ctrl, shift, folder@, item_id@, strings_view(group_ids@));
            final(state)@ == r.0 && action == r.1
        }),
{
    let ghost s0 = state@;
    if button == 1 {
        if ctrl {
            match find_id(&state.selected, item_id) {
                Some(pos) => {
                    proof { lemma_index_of_id(s0.selected, item_id@); }
                    state.selected.remove(pos);
                    proof { assert(sel_view(state.selected@) =~= s0.selected.remove(pos as int)); }
                },
                None => {
                    push_in_folder(&mut state.selected, folder, item_id);
                },
            }
            state.last_clicked = Some((folder.to_string(), item_id.to_string()));
            ClickAction::Nothing
        } else if shift {
            let same_folder_anchor: Option<String> = match &state.last_clicked {
                Some(anchor) => if str_eq(anchor.0.as_str(), folder) { Some(anchor.1.clone()) } else { None },
                None => None,
            };
            match same_folder_anchor {
                Some(anchor_id) => {
                    let pa = position_of(group_ids, anchor_id.as_str());
                    let pc = position_of(group_ids, item_id);
                    match (pa, pc) {
                        (Some(pa), Some(pc)) => {
                            proof {
                                lemma_index_of(strings_view(group_ids@), anchor_id@);
                                lemma_index_of(strings_view(group_ids@), item_id@);
                            }
                            let lo = if pa <= pc { pa } else { pc };
                            let hi = if pa <= pc { pc } else { pa };
                            let mut sel = keep_in_folder(&state.selected, folder);
                            push_missing(&mut sel, folder, group_ids, lo, hi);
                            state.selected = sel;
                        },
                        _ => {},
                    }
                },
                None => {
                    let mut sel: Vec<(String, String)> = Vec::new();
                    sel.push((folder.to_string(), item_id.to_string()));
                    state.selected = sel;
                    state.last_clicked = Some((folder.to_string(), item_id.to_string()));
                    proof { assert(sel_view(state.selected@) =~= seq![(folder@, item_id@)]); }
                },
            }
            ClickAction::Nothing
        } else {
            state.selected.clear();
            state.last_clicked = Some((folder.to_string(), item_id.to_string()));
            proof { assert(sel_view(state.selected@) =~= Seq::<Entry>::empty()); }
            ClickAction::OpenItem
        }
    } else if button == 3 {
        if !contains_id(&state.selected, item_id) {
            push_in_folder(&mut state.selected, folder, item_id);
            state.last_clicked = Some((folder.to_string(), item_id.to_string()));
        }
        ClickAction::ShowContextMenu
    } else {
        ClickAction::Nothing
    }
}


proof fn lemma_keep_folder(sel: Seq<Entry>, folder: Seq<char>)
    ensures
        all_in_folder(keep_folder(sel, folder), folder),
        forall|id: Seq<char>| has_id(keep_folder(sel, folder), id) ==> has_id(sel, id),
        ids_unique(sel) ==> ids_unique(keep_folder(sel, folder)),
    decreases sel.len(),
{
    if sel.len() > 0 {
        let rest = sel.drop_last();
        lemma_keep_folder(rest, folder);
        let k = keep_folder(rest, folder);
        assert forall|id: Seq<char>| has_id(rest, id) implies has_id(sel, id) by {
            let i = choose|i: int| 0 <= i < rest.len() && (#[trigger] rest[i]).1 == id;
            assert(sel[i] == rest[i]);
        }
        if sel.last().0 == folder {
            let k2 = k.push(sel.last());
            assert forall|id: Seq<char>| has_id(k2, id) implies has_id(sel, id) by {
                let i = choose|i: int| 0 <= i < k2.len() && (#[trigger] k2[i]).1 == id;
                if i < k.len() {
                    assert(k[i] == k2[i]);
                    assert(has_id(k, id));
                } else {
                    assert(sel[sel.len() - 1].1 == id);
                }
            }
            if ids_unique(sel) {
                assert(ids_unique(rest)) by {
                    assert forall|i: int, j: int| 0 <= i < j < rest.len() implies (#[trigger] rest[i]).1 != (#[trigger] rest[j]).1 by {
                        assert(rest[i] == sel[i] && rest[j] == sel[j]);
                    }
                }
                if has_id(k, sel.last().1) {
                    assert(has_id(rest, sel.last().1));
                    let i = choose|i: int| 0 <= i < rest.len() && (#[trigger] rest[i]).1 == sel.last().1;
                    assert(sel[i] == rest[i]);
                    assert(sel[i].1 == sel[sel.len() - 1].1);
                    assert(false);
                }
                assert forall|i: int, j: int| 0 <= i < j < k2.len() implies (#[trigger] k2[i]).1 != (#[trigger] k2[j]).1 by {
                    if j == k.len() {
                        assert(k2[i] == k[i]);
                        if k[i].1 == sel.last().1 { assert(has_id(k, sel.last().1)); }
                    } else {
                        assert(k2[i] == k[i] && k2[j] == k[j]);
                    }
                }
            }
        } else {
            if ids_unique(sel) {
                assert(ids_unique(rest)) by {
                    assert forall|i: int, j: int| 0 <= i < j < rest.len() implies (#[trigger] rest[i]).1 != (#[trigger] rest[j]).1 by {
                        assert(rest[i] == sel[i] && rest[j] == sel[j]);
                    }
                }
            }
        }
    }
}

proof fn lemma_add_missing(sel: Seq<Entry>, folder: Seq<char>, ids: Seq<Seq<char>>)
    ensures
        all_in_folder(sel, folder) ==> all_in_folder(add_missing(sel, folder, ids), folder),
        ids_unique(sel) ==> ids_unique(add_missing(sel, folder, ids)),
        forall|k: int| 0 <= k < ids.len() ==> has_id(add_missing(sel, folder, ids), #[trigger] ids[k]),
    decreases ids.len(),
{
    if ids.len() > 0 {
        let rest = ids.drop_last();
        lemma_add_missing(sel, folder, rest);
        let before = add_missing(sel, folder, rest);
        let last = ids.last();
        if !has_id(before, last) {
            let after = before.push((folder, last));
            if ids_unique(before) {
                assert forall|i: int, j: int| 0 <= i < j < after.len() implies (#[trigger] after[i]).1 != (#[trigger] after[j]).1 by {
                    if j == before.len() {
                        assert(after[i] == before[i]);
                    } else {
                        assert(after[i] == before[i] && after[j] == before[j]);
                    }
                }
            }
            assert forall|k: int| 0 <= k < ids.len() implies has_id(after, #[trigger] ids[k]) by {
                if k < ids.len() - 1 {
                    assert(rest[k] == ids[k]);
                    assert(has_id(before, rest[k]));
                    let i = choose|i: int| 0 <= i < before.len() && (#[trigger] before[i]).1 == rest[k];
                    assert(after[i] == before[i]);
                } else {
                    assert(after[before.len() as int].1 == last);
                }
            }
        } else {
            assert forall|k: int| 0 <= k < ids.len() implies has_id(before, #[trigger] ids[k]) by {
                if k < ids.len() - 1 {
                    assert(rest[k] == ids[k]);
                }
            }
        }
    }
}

proof fn lemma_add_in_folder(sel: Seq<Entry>, folder: Seq<char>, id: Seq<char>)
    requires
        !has_id(sel, id),
        ids_unique(sel),
    ensures
        all_in_folder(add_in_folder(sel, folder, id), folder),
        ids_unique(add_in_folder(sel, folder, id)),
{
    let base = if has_other_folder(sel, folder) { Seq::<Entry>::empty() } else { sel };
    let after = base.push((folder, id));
    assert forall|i: int| 0 <= i < after.len() implies (#[trigger] after[i]).0 == folder by {
        if i < base.len() {
            assert(after[i] == base[i]);
            if base[i].0 != folder { assert(has_other_folder(sel, folder)); }
        }
    }
    assert forall|i: int, j: int| 0 <= i < j < after.len() implies (#[trigger] after[i]).1 != (#[trigger] after[j]).1 by {
        assert(after[i] == base[i]);
        if j == base.len() {
            if base[i].1 == id { assert(has_id(sel, id)); }
        } else {
            assert(after[j] == base[j]);
        }
    }
}

proof fn lemma_remove_keeps(sel: Seq<Entry>, p: int)
    requires
        0 <= p < sel.len(),
        single_folder(sel),
        ids_unique(sel),
    ensures
        single_folder(sel.remove(p)),
        ids_unique(sel.remove(p)),
{
    let r = sel.remove(p);
    assert forall|i: int| 0 <= i < r.len() implies #[trigger] r[i] == sel[if i < p { i } else { i + 1 }] by {}
    assert forall|i: int, j: int| 0 <= i < r.len() && 0 <= j < r.len() implies (#[trigger] r[i]).0 == (#[trigger] r[j]).0 by {
        assert(r[i] == sel[if i < p { i } else { i + 1 }]);
        assert(r[j] == sel[if j < p { j } else { j + 1 }]);
    }
    assert forall|i: int, j: int| 0 <= i < j < r.len() implies (#[trigger] r[i]).1 != (#[trigger] r[j]).1 by {
        assert(r[i] == sel[if i < p { i } else { i + 1 }]);
        assert(r[j] == sel[if j < p { j } else { j + 1 }]);
    }
}

/// Every click keeps the selection within one folder, with each item at most
/// once.
pub proof fn lemma_click_keeps_selection_well_formed(
    s: SelectionView,
    button: u32,
    ctrl: bool,
    shift: bool,
    folder: Seq<char>,
    id: Seq<char>,
    group: Seq<Seq<char>>,
)
    requires
        single_folder(s.selected),
        ids_unique(s.selected),
    ensures
        single_folder(click_spec(s, button, ctrl, shift, folder, id, group).0.selected),
        ids_unique(click_spec(s, button, ctrl, shift, folder, id, group).0.selected),
{
    let r = click_spec(s, button, ctrl, shift, folder, id, group).0.selected;
    lemma_index_of_id(s.selected, id);
    if button == 1 && ctrl {
        match index_of_id(s.selected, id) {
            Some(p) => { lemma_remove_keeps(s.selected, p); },
            None => { lemma_add_in_folder(s.selected, folder, id); },
        }
    } else if button == 1 && shift {
        match s.last_clicked {
            Some(anchor) => {
                if anchor.0 == folder {
                    lemma_keep_folder(s.selected, folder);
                    lemma_index_of(group, anchor.1);
                    lemma_index_of(group, id);
                    match (index_of(group, anchor.1), index_of(group, id)) {
                        (Some(pa), Some(pc)) => {
                            let lo = if pa <= pc { pa } else { pc };
                            let hi = if pa <= pc { pc } else { pa };
                            lemma_add_missing(keep_folder(s.selected, folder), folder, group.subrange(lo, hi + 1));
                        },
                        _ => {},
                    }
                }
            },
            None => {},
        }
    } else if button == 3 && !has_id(s.selected, id) {
        lemma_add_in_folder(s.selected, folder, id);
    }
    if all_in_folder(r, folder) {
        assert forall|i: int, j: int| 0 <= i < r.len() && 0 <= j < r.len() implies (#[trigger] r[i]).0 == (#[trigger] r[j]).0 by {}
    }
}

/// A right click leaves the clicked item selected.
pub proof fn lemma_right_click_selects(
    s: SelectionView,
    folder: Seq<char>,
    id: Seq<char>,
    group: Seq<Seq<char>>,
)
    ensures
        has_id(click_spec(s, 3, false, false, folder, id, group).0.selected, id),
        click_spec(s, 3, false, false, folder, id, group).1 == ClickAction::ShowContextMenu,
{
    if !has_id(s.selected, id) {
        let base = if has_other_folder(s.selected, folder) { Seq::<Entry>::empty() } else { s.selected };
        let after = base.push((folder, id));
        assert(after[base.len() as int].1 == id);
    }
}

/// A Shift click on an item of the anchor's folder selects every item of the
/// group between the anchor and the clicked item.
pub proof fn lemma_shift_click_selects_range(
    s: SelectionView,
    folder: Seq<char>,
    id: Seq<char>,
    group: Seq<Seq<char>>,
    k: int,
)
    requires
        s.last_clicked is Some,
        (s.last_clicked->0).0 == folder,
        index_of(group, (s.last_clicked->0).1) is Some,
        index_of(group, id) is Some,
        (index_of(group, (s.last_clicked->0).1)->0 <= k <= index_of(group, id)->0)
            || (index_of(group, id)->0 <= k <= index_of(group, (s.last_clicked->0).1)->0),
    ensures
        has_id(click_spec(s, 1, false, true, folder, id, group).0.selected, group[k]),
{
    let anchor = s.last_clicked->0;
    let pa = index_of(group, anchor.1)->0;
    let pc = index_of(group, id)->0;
    lemma_index_of(group, anchor.1);
    lemma_index_of(group, id);
    let lo = if pa <= pc { pa } else { pc };
    let hi = if pa <= pc { pc } else { pa };
    let ids = group.subrange(lo, hi + 1);
    lemma_add_missing(keep_folder(s.selected, folder), folder, ids);
    assert(ids[k - lo] == group[k]);
}

/// Two Ctrl clicks on an unselected item, when the selection lies in the
/// item's folder, give back the selection as it was.
pub proof fn lemma_ctrl_click_twice_restores(
    s: SelectionView,
    folder: Seq<char>,
    id: Seq<char>,
    group: Seq<Seq<char>>,
)
    requires
        all_in_folder(s.selected, folder),
        !has_id(s.selected, id),
    ensures
        click_spec(click_spec(s, 1, true, false, folder, id, group).0, 1, true, false, folder, id, group).0.selected
            == s.selected,
{
    lemma_index_of_id(s.selected, id);
    if has_other_folder(s.selected, folder) {
        let i = choose|i: int| 0 <= i < s.selected.len() && (#[trigger] s.selected[i]).0 != folder;
        assert(false);
    }
    let once = s.selected.push((folder, id));
    lemma_index_of_id(once, id);
    let p = index_of_id(once, id)->0;
    if p < s.selected.len() {
        assert(once[p] == s.selected[p]);
        assert(false);
    }
    assert(once.remove(p) =~= s.selected);
}

} // verus!
