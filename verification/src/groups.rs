use vstd::prelude::*;
use vstd::string::*;

use crate::history::texts;
use crate::labels::{folder_display_name, folder_display_spec};
use crate::paths::{eq_ignore_ascii_case, eq_ignore_ascii_case_spec, path_parent, path_parent_spec};
use crate::strings::{str_eq, str_starts_with, starts_with_spec, byte_substring, byte_slice};

verus! {

broadcast use vstd::string::group_string_axioms;

/// `x` is one of the entries of `s`.
pub open spec fn has_text(s: Seq<Seq<char>>, x: Seq<char>) -> bool {
    exists|i: int| 0 <= i < s.len() && s[i] == x
}

/// Whether `x` is one of the entries of `v`.
pub fn contains_text(v: &Vec<String>, x: &str) -> (r: bool)
    ensures
        r == has_text(texts(v@), x@),
{
    let mut i: usize = 0;
    while i < v.len()
        invariant
            i <= v@.len(),
            forall|k: int| 0 <= k < i ==> texts(v@)[k] != x@,
        decreases v@.len() - i,
    {
        if str_eq(v[i].as_str(), x) {
            proof { assert(texts(v@)[i as int] == x@); }
            return true;
        }
        i = i + 1;
    }
    false
}

/// The folders of the manifest hrefs `hrefs`: the parent of each href that
/// has a non-empty one, each folder once, in order of first appearance.
pub open spec fn manifest_groups_spec(hrefs: Seq<Seq<char>>) -> Seq<Seq<char>>
    decreases hrefs.len(),
{
    if hrefs.len() == 0 {
        Seq::empty()
    } else {
        let before = manifest_groups_spec(hrefs.drop_last());
        match path_parent_spec(hrefs.last()) {
            Some(p) => if p.len() > 0 && !has_text(before, p) { before.push(p) } else { before },
            None => before,
        }
    }
}

/// The resource folders named by the manifest hrefs `hrefs`.
pub fn manifest_groups(hrefs: &Vec<String>) -> (r: Vec<String>)
    ensures
        texts(r@) == manifest_groups_spec(texts(hrefs@)),
{
    let mut r: Vec<String> = Vec::new();
    let mut i: usize = 0;
    while i < hrefs.len()
        invariant
            i <= hrefs@.len(),
            texts(r@) == manifest_groups_spec(texts(hrefs@).take(i as int)),
        decreases hrefs@.len() - i,
    {
        let ghost before = texts(r@);
        proof { assert(texts(hrefs@).take(i + 1).drop_last() =~= texts(hrefs@).take(i as int)); }
        match path_parent(hrefs[i].as_str()) {
            Some(p) => {
                if p.as_str().unicode_len() > 0 && !contains_text(&r, p.as_str()) {
                    r.push(p);
                    proof { assert(texts(r@) =~= before.push(r@[r@.len() - 1]@)); }
                }
            },
            None => {},
        }
        i = i + 1;
    }
    proof { assert(texts(hrefs@).take(hrefs@.len() as int) =~= texts(hrefs@)); }
    r
}

/// The configured sidebar groups after adding, in order, each group of
/// `groups` that is neither configured yet nor hidden.
pub open spec fn merge_groups_spec(configured: Seq<Seq<char>>, hidden: Seq<Seq<char>>, groups: Seq<Seq<char>>) -> Seq<Seq<char>>
    decreases groups.len(),
{
    if groups.len() == 0 {
        configured
    } else {
        let before = merge_groups_spec(configured, hidden, groups.drop_last());
        let g = groups.last();
        if !has_text(before, g) && !has_text(hidden, g) { before.push(g) } else { before }
    }
}

/// Adds to `configured` each group of `manifest_groups` that is neither
/// configured nor hidden; says whether any was added.
pub fn merge_configured_groups(configured: &mut Vec<String>, hidden: &Vec<String>, manifest_groups: &Vec<String>) -> (changed: bool)
    ensures
        texts(final(configured)@) == merge_groups_spec(texts(old(configured)@), texts(hidden@), texts(manifest_groups@)),
        changed == (final(configured)@.len() != old(configured)@.len()),
{
    let ghost start = texts(configured@);
    let ghost n0 = configured@.len();
    let mut changed = false;
    let mut i: usize = 0;
    while i < manifest_groups.len()
        invariant
            i <= manifest_groups@.len(),
            texts(configured@) == merge_groups_spec(start, texts(hidden@), texts(manifest_groups@).take(i as int)),
            configured@.len() >= n0,
            changed == (configured@.len() != n0),
        decreases manifest_groups@.len() - i,
    {
        let ghost before = texts(configured@);
        proof { assert(texts(manifest_groups@).take(i + 1).drop_last() =~= texts(manifest_groups@).take(i as int)); }
        let g = manifest_groups[i].as_str();
        if !contains_text(configured, g) && !contains_text(hidden, g) {
            configured.push(manifest_groups[i].clone());
            changed = true;
            proof { assert(texts(configured@) =~= before.push(manifest_groups@[i as int]@)); }
        }
        i = i + 1;
    }
    proof { assert(texts(manifest_groups@).take(manifest_groups@.len() as int) =~= texts(manifest_groups@)); }
    changed
}

/// `configured` without the groups of `hidden`, in order.
pub open spec fn visible_groups_spec(configured: Seq<Seq<char>>, hidden: Seq<Seq<char>>) -> Seq<Seq<char>>
    decreases configured.len(),
{
    if configured.len() == 0 {
        configured
    } else {
        let before = visible_groups_spec(configured.drop_last(), hidden);
        if has_text(hidden, configured.last()) { before } else { before.push(configured.last()) }
    }
}

/// The sidebar groups to show: the configured ones that are not hidden.
pub fn visible_groups(configured: &Vec<String>, hidden: &Vec<String>) -> (r: Vec<String>)
    ensures
        texts(r@) == visible_groups_spec(texts(configured@), texts(hidden@)),
{
    let mut r: Vec<String> = Vec::new();
    let mut i: usize = 0;
    while i < configured.len()
        invariant
            i <= configured@.len(),
            texts(r@) == visible_groups_spec(texts(configured@).take(i as int), texts(hidden@)),
        decreases configured@.len() - i,
    {
        let ghost before = texts(r@);
        proof { assert(texts(configured@).take(i + 1).drop_last() =~= texts(configured@).take(i as int)); }
        if !contains_text(hidden, configured[i].as_str()) {
            r.push(configured[i].clone());
            proof { assert(texts(r@) =~= before.push(configured@[i as int]@)); }
        }
        i = i + 1;
    }
    proof { assert(texts(configured@).take(configured@.len() as int) =~= texts(configured@)); }
    r
}

/// A group entry of the preferences: key, shown name, visible.
pub type GroupEntry = (String, String, bool);

/// A group entry as plain values.
pub open spec fn group_entry_view(e: GroupEntry) -> (Seq<char>, Seq<char>, bool) {
    (e.0@, e.1@, e.2)
}

/// The keys of `entries`, and the keys of the hidden ones, in order.
pub open spec fn saved_groups_spec(entries: Seq<GroupEntry>) -> (Seq<Seq<char>>, Seq<Seq<char>>)
    decreases entries.len(),
{
    if entries.len() == 0 {
        (Seq::empty(), Seq::empty())
    } else {
        let (all, hidden) = saved_groups_spec(entries.drop_last());
        let e = entries.last();
        (all.push(e.0@), if e.2 { hidden } else { hidden.push(e.0@) })
    }
}

/// The two lists that the preferences save: every group key in order, and
/// the keys of the groups switched off.
pub fn save_groups(entries: &Vec<GroupEntry>) -> (r: (Vec<String>, Vec<String>))
    ensures
        (texts(r.0@), texts(r.1@)) == saved_groups_spec(entries@),
{
    let mut all: Vec<String> = Vec::new();
    let mut hidden: Vec<String> = Vec::new();
    let mut i: usize = 0;
    while i < entries.len()
        invariant
            i <= entries@.len(),
            (texts(all@), texts(hidden@)) == saved_groups_spec(entries@.take(i as int)),
        decreases entries@.len() - i,
    {
        let ghost a0 = texts(all@);
        let ghost h0 = texts(hidden@);
        proof { assert(entries@.take(i + 1).drop_last() =~= entries@.take(i as int)); }
        all.push(entries[i].0.clone());
        proof { assert(texts(all@) =~= a0.push(entries@[i as int].0@)); }
        if !entries[i].2 {
            hidden.push(entries[i].0.clone());
            proof { assert(texts(hidden@) =~= h0.push(entries@[i as int].0@)); }
        }
        i = i + 1;
    }
    proof { assert(entries@.take(entries@.len() as int) =~= entries@); }
    (all, hidden)
}

/// Prefix of the content folders of an EPUB.
pub const CONTENT_PREFIX: &'static str = "OEBPS/";

/// The folders of `folders` under `OEBPS/`, with that prefix taken off.
pub open spec fn content_folders_spec(folders: Seq<Seq<char>>) -> Seq<Seq<char>>
    decreases folders.len(),
{
    if folders.len() == 0 {
        Seq::empty()
    } else {
        let before = content_folders_spec(folders.drop_last());
        let f = folders.last();
        if starts_with_spec(f, CONTENT_PREFIX@) { before.push(f.subrange(CONTENT_PREFIX@.len() as int, f.len() as int)) } else { before }
    }
}

/// The canonical content folder names from the base folders of a book, with
/// the `OEBPS/` prefix taken off (folders outside it are left out).
pub fn core_content_folders(base_folders: &Vec<String>) -> (r: Vec<String>)
    ensures
        texts(r@) == content_folders_spec(texts(base_folders@)),
{
    let mut r: Vec<String> = Vec::new();
    let mut i: usize = 0;
    proof { reveal_strlit("OEBPS/"); }
    while i < base_folders.len()
        invariant
            i <= base_folders@.len(),
            CONTENT_PREFIX@.len() == 6,
            texts(r@) == content_folders_spec(texts(base_folders@).take(i as int)),
        decreases base_folders@.len() - i,
    {
        let ghost before = texts(r@);
        proof { assert(texts(base_folders@).take(i + 1).drop_last() =~= texts(base_folders@).take(i as int)); }
        let f = base_folders[i].as_str();
        if str_starts_with(f, CONTENT_PREFIX) {
            let rest = strip_ascii_prefix(f, 6);
            r.push(rest);
            proof { assert(texts(r@) =~= before.push(f@.subrange(6, f@.len() as int))); }
        }
        i = i + 1;
    }
    proof { assert(texts(base_folders@).take(base_folders@.len() as int) =~= texts(base_folders@)); }
    r
}

/// `s` without its first `n` characters.
fn strip_ascii_prefix(s: &str, n: usize) -> (r: String)
    requires
        n <= s@.len(),
    ensures
        r@ == s@.subrange(n as int, s@.len() as int),
{
    let chars = crate::strings::collect_chars(s);
    let mut out = String::new();
    let mut i = n;
    while i < chars.len()
        invariant
            n <= i <= chars@.len(),
            chars@ == s@,
            out@ == s@.subrange(n as int, i as int),
        decreases chars@.len() - i,
    {
        crate::strings::push_char(&mut out, chars[i]);
        i = i + 1;
        proof { assert(out@ =~= s@.subrange(n as int, i as int)); }
    }
    out
}

/// Index of the first key of `keys` equal to `folder` up to ASCII case.
pub open spec fn group_key_index_spec(keys: Seq<Seq<char>>, folder: Seq<char>) -> Option<int>
    decreases keys.len(),
{
    if keys.len() == 0 {
        None
    } else {
        match group_key_index_spec(keys.drop_last(), folder) {
            Some(i) => Some(i),
            None => if eq_ignore_ascii_case_spec(keys.last(), folder) { Some(keys.len() - 1) } else { None },
        }
    }
}

/// Position of the first key of `keys` that equals `folder` up to ASCII case
/// (how a configured group finds the book's folder of another casing).
pub fn find_group_key(keys: &Vec<String>, folder: &str) -> (r: Option<usize>)
    ensures
        match r {
            Some(i) => i < keys@.len() && group_key_index_spec(texts(keys@), folder@) == Some(i as int),
            None => group_key_index_spec(texts(keys@), folder@) is None,
        },
{
    let mut i: usize = 0;
    while i < keys.len()
        invariant
            i <= keys@.len(),
            group_key_index_spec(texts(keys@).take(i as int), folder@) is None,
        decreases keys@.len() - i,
    {
        proof { assert(texts(keys@).take(i + 1).drop_last() =~= texts(keys@).take(i as int)); }
        if eq_ignore_ascii_case(keys[i].as_str(), folder) {
            proof { lemma_group_key_prefix(texts(keys@), folder@, i as int + 1); }
            return Some(i);
        }
        i = i + 1;
    }
    proof { assert(texts(keys@).take(keys@.len() as int) =~= texts(keys@)); }
    None
}

proof fn lemma_group_key_prefix(keys: Seq<Seq<char>>, folder: Seq<char>, n: int)
    requires
        0 <= n <= keys.len(),
        group_key_index_spec(keys.take(n), folder) is Some,
    ensures
        group_key_index_spec(keys, folder) == group_key_index_spec(keys.take(n), folder),
    decreases keys.len() - n,
{
    if n < keys.len() {
        assert(keys.take(n + 1).drop_last() =~= keys.take(n));
        lemma_group_key_prefix(keys, folder, n + 1);
    } else {
        assert(keys.take(n) =~= keys);
    }
}

} // verus!
