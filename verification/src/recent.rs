use vstd::prelude::*;
use vstd::string::*;

use crate::history::texts;
use crate::paths::{path_file_name, path_file_name_spec};
use crate::search::{lowercase_spec, to_lowercase};
use crate::strings::{contains_spec, ends_with_spec, str_contains, str_ends_with};

verus! {

broadcast use vstd::string::group_string_axioms;

/// How many recent projects the open popover lists at most.
pub const RECENT_LIMIT: usize = 10;

/// The name shown for a recent project: the last component of its path, or
/// the path.
pub open spec fn recent_name(path: Seq<char>) -> Seq<char> {
    match path_file_name_spec(path) {
        Some(n) => n,
        None => path,
    }
}

/// A recent project passes the filter (already in lower case) when the
/// filter is empty or the lower-cased path or name holds it.
pub open spec fn recent_matches(path: Seq<char>, filter: Seq<char>) -> bool {
    filter.len() == 0 || contains_spec(lowercase_spec(path), filter)
        || contains_spec(lowercase_spec(recent_name(path)), filter)
}

/// The filter of the recent list for the search text `search`: none for an
/// empty search, else the search text in lower case.
pub open spec fn search_filter(search: Seq<char>) -> Seq<char> {
    if search.len() == 0 { Seq::empty() } else { lowercase_spec(search) }
}

/// The recent projects that pass the filter, in history order.
pub open spec fn matching_recent(history: Seq<Seq<char>>, filter: Seq<char>) -> Seq<Seq<char>>
    decreases history.len(),
{
    if history.len() == 0 {
        Seq::empty()
    } else {
        let rest = matching_recent(history.drop_last(), filter);
        if recent_matches(history.last(), filter) { rest.push(history.last()) } else { rest }
    }
}

/// A row of the recent-projects list.
pub struct RecentEntry {
    pub path: String,
    pub name: String,
    pub is_epub: bool,
}

/// A row of the recent-projects list as plain values.
pub struct RecentEntryView {
    pub path: Seq<char>,
    pub name: Seq<char>,
    pub is_epub: bool,
}

impl View for RecentEntry {
    type V = RecentEntryView;

    open spec fn view(&self) -> RecentEntryView {
        RecentEntryView { path: self.path@, name: self.name@, is_epub: self.is_epub }
    }
}

/// The row of a recent project: its path, its name, and whether it is an
/// EPUB file (its lower-cased path ends in `.epub`) rather than a folder.
pub open spec fn recent_entry(path: Seq<char>) -> RecentEntryView {
    RecentEntryView { path, name: recent_name(path), is_epub: ends_with_spec(lowercase_spec(path), ".epub"@) }
}

proof fn lemma_matching_len(history: Seq<Seq<char>>, filter: Seq<char>)
    ensures
        matching_recent(history, filter).len() <= history.len(),
    decreases history.len(),
{
    if history.len() > 0 {
        lemma_matching_len(history.drop_last(), filter);
    }
}

proof fn lemma_matching_prefix(history: Seq<Seq<char>>, filter: Seq<char>, i: int, j: int)
    requires
        0 <= i <= j <= history.len(),
    ensures
        matching_recent(history.take(i), filter).len() <= matching_recent(history.take(j), filter).len(),
        matching_recent(history.take(j), filter).take(matching_recent(history.take(i), filter).len() as int)
            == matching_recent(history.take(i), filter),
    decreases j - i,
{
    if i < j {
        lemma_matching_prefix(history, filter, i, j - 1);
        assert(history.take(j).drop_last() =~= history.take(j - 1));
        let a = matching_recent(history.take(i), filter);
        let b = matching_recent(history.take(j - 1), filter);
        let c = matching_recent(history.take(j), filter);
        assert(c.take(a.len() as int) =~= b.take(a.len() as int));
    } else {
        let a = matching_recent(history.take(i), filter);
        assert(a.take(a.len() as int) =~= a);
    }
}

/// The rows of the open popover's recent list: the projects of the history
/// that pass the search text (compared in lower case), in history order, at
/// most `RECENT_LIMIT` of them.
pub fn recent_entries(history: &Vec<String>, search: &str) -> (r: Vec<RecentEntry>)
    ensures
        ({
            let m = matching_recent(texts(history@), search_filter(search@));
            let n = if m.len() < RECENT_LIMIT { m.len() } else { RECENT_LIMIT as nat };
            &&& r@.len() == n
            &&& forall|k: int| 0 <= k < n ==> (#[trigger] r@[k])@ == recent_entry(m[k])
        }),
{
    let filter = if search.unicode_len() == 0 { String::new() } else { to_lowercase(search) };
    let ghost hs = texts(history@);
    let ghost f = filter@;
    let filter_empty = filter.unicode_len() == 0;
    let mut r: Vec<RecentEntry> = Vec::new();
    let mut i: usize = 0;
    while i < history.len()
        invariant
            i <= history@.len(),
            hs == texts(history@),
            f == filter@,
            filter_empty == (f.len() == 0),
            r@.len() <= RECENT_LIMIT,
            r@.len() == matching_recent(hs.take(i as int), f).len(),
            forall|k: int| 0 <= k < r@.len() ==> (#[trigger] r@[k])@ == recent_entry(matching_recent(hs.take(i as int), f)[k]),
        ensures
            i == history@.len() || r@.len() >= RECENT_LIMIT,
        decreases history@.len() - i,
    {
        if r.len() >= RECENT_LIMIT {
            break;
        }
        proof {
            assert(hs.take(i + 1).drop_last() =~= hs.take(i as int));
            assert(hs.take(i + 1).last() == history@[i as int]@);
        }
        let path = &history[i];
        let name = match path_file_name(path.as_str()) {
            Some(n) => n,
            None => path.clone(),
        };
        let lower_path = to_lowercase(path.as_str());
        let keep = filter_empty || str_contains(lower_path.as_str(), filter.as_str()) || {
            let lower_name = to_lowercase(name.as_str());
            str_contains(lower_name.as_str(), filter.as_str())
        };
        if keep {
            let is_epub = str_ends_with(lower_path.as_str(), ".epub");
            r.push(RecentEntry { path: path.clone(), name, is_epub });
        }
        i = i + 1;
    }
    proof {
        let m = matching_recent(hs, f);
        lemma_matching_prefix(hs, f, i as int, hs.len() as int);
        assert(hs.take(hs.len() as int) =~= hs);
        let mi = matching_recent(hs.take(i as int), f);
        if i < hs.len() {
            assert(r@.len() == RECENT_LIMIT);
        }
        assert forall|k: int| 0 <= k < r@.len() implies (#[trigger] r@[k])@ == recent_entry(m[k]) by {
            assert(m.take(mi.len() as int)[k] == m[k]);
        }
    }
    r
}

/// The recent project opened by the shortcut with number `n` (1 to 5): the
/// `n`-th of the history, if there is one.
pub fn recent_project(history: &Vec<String>, n: usize) -> (r: Option<String>)
    requires
        1 <= n,
    ensures
        n <= history@.len() ==> r is Some && r->Some_0@ == history@[n - 1]@,
        n > history@.len() ==> r is None,
{
    if n <= history.len() { Some(history[n - 1].clone()) } else { None }
}

} // verus!
