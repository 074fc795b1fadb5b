use vstd::prelude::*;
use vstd::string::*;

use crate::strings::str_eq;

verus! {

broadcast use vstd::string::group_string_axioms;

/// How many recent projects the history keeps.
pub const HISTORY_LIMIT: usize = 100;

/// `v` as plain text.
pub open spec fn texts(v: Seq<String>) -> Seq<Seq<char>> {
    v.map_values(|s: String| s@)
}

/// `s` without the entries equal to `x`, in order.
pub open spec fn without(s: Seq<Seq<char>>, x: Seq<char>) -> Seq<Seq<char>>
    decreases s.len(),
{
    if s.len() == 0 {
        s
    } else if s.last() == x {
        without(s.drop_last(), x)
    } else {
        without(s.drop_last(), x).push(s.last())
    }
}

/// The history after opening `path`: `path` first, then the other entries in
/// their order, at most `HISTORY_LIMIT` in all.
pub open spec fn history_after_open(history: Seq<Seq<char>>, path: Seq<char>) -> Seq<Seq<char>> {
    let all = seq![path] + without(history, path);
    if all.len() > HISTORY_LIMIT { all.take(HISTORY_LIMIT as int) } else { all }
}

/// The entries of `history` other than `path`, in order.
pub fn history_without(history: &Vec<String>, path: &str) -> (r: Vec<String>)
    ensures
        texts(r@) == without(texts(history@), path@),
{
    let mut r: Vec<String> = Vec::new();
    let mut i: usize = 0;
    while i < history.len()
        invariant
            i <= history@.len(),
            texts(r@) == without(texts(history@).take(i as int), path@),
        decreases history@.len() - i,
    {
        let ghost before = texts(r@);
        proof { assert(texts(history@).take(i + 1).drop_last() =~= texts(history@).take(i as int)); }
        if !str_eq(history[i].as_str(), path) {
            r.push(history[i].clone());
            proof { assert(texts(r@) =~= before.push(history@[i as int]@)); }
        }
        i = i + 1;
    }
    proof { assert(texts(history@).take(history@.len() as int) =~= texts(history@)); }
    r
}

/// The recent-projects history after opening `path` (`history` newest first).
pub fn add_to_history(history: &Vec<String>, path: &str) -> (r: Vec<String>)
    ensures
        texts(r@) == history_after_open(texts(history@), path@),
{
    let rest = history_without(history, path);
    let mut r: Vec<String> = Vec::new();
    r.push(path.to_string());
    let mut i: usize = 0;
    while i < rest.len() && r.len() < HISTORY_LIMIT
        invariant
            i <= rest@.len(),
            r@.len() == i + 1,
            r@.len() <= HISTORY_LIMIT,
            texts(r@) == (seq![path@] + texts(rest@)).take(i + 1),
        decreases rest@.len() - i,
    {
        let ghost before = texts(r@);
        r.push(rest[i].clone());
        i = i + 1;
        proof { assert(texts(r@) =~= (seq![path@] + texts(rest@)).take(i + 1)); }
    }
    proof {
        let all = seq![path@] + texts(rest@);
        if i == rest@.len() {
            assert(all.take(i + 1) =~= all);
        }
    }
    r
}

proof fn lemma_without(s: Seq<Seq<char>>, x: Seq<char>)
    ensures
        forall|i: int| 0 <= i < without(s, x).len() ==> without(s, x)[i] != x,
        without(without(s, x), x) == without(s, x),
    decreases s.len(),
{
    if s.len() > 0 {
        lemma_without(s.drop_last(), x);
        let w = without(s.drop_last(), x);
        if s.last() != x {
            let w2 = w.push(s.last());
            assert(w2.drop_last() =~= w);
            assert forall|i: int| 0 <= i < w2.len() implies w2[i] != x by {
                if i < w.len() { assert(w2[i] == w[i]); }
            }
        }
    }
}

/// After opening a project, it is first in the history and there only once,
/// and the history holds at most `HISTORY_LIMIT` entries.
pub proof fn lemma_history_front_unique(history: Seq<Seq<char>>, path: Seq<char>)
    ensures
        history_after_open(history, path).len() >= 1,
        history_after_open(history, path)[0] == path,
        forall|i: int| 1 <= i < history_after_open(history, path).len() ==> history_after_open(history, path)[i] != path,
        history_after_open(history, path).len() <= HISTORY_LIMIT,
{
    lemma_without(history, path);
    let all = seq![path] + without(history, path);
    assert forall|i: int| 1 <= i < history_after_open(history, path).len() implies history_after_open(history, path)[i] != path by {
        assert(all[i] == without(history, path)[i - 1]);
    }
}

/// Opening the same project twice in a row leaves the history as after the
/// first time.
pub proof fn lemma_history_reopen_idempotent(history: Seq<Seq<char>>, path: Seq<char>)
    ensures
        history_after_open(history_after_open(history, path), path) == history_after_open(history, path),
{
    lemma_without(history, path);
    let w = without(history, path);
    let all = seq![path] + w;
    let h1 = history_after_open(history, path);
    assert(h1 =~= all.take(h1.len() as int));
    let tail = h1.drop_first();
    assert(tail =~= w.take(h1.len() - 1));
    assert forall|i: int| 0 <= i < tail.len() implies tail[i] != path by {
        assert(tail[i] == w[i]);
    }
    lemma_without_all_differ(tail, path);
    assert(h1 =~= seq![path] + tail);
    assert(without(h1, path) == without(tail, path)) by {
        lemma_without_concat(seq![path], tail, path);
        assert(without(seq![path], path) =~= Seq::<Seq<char>>::empty()) by {
            assert(seq![path].drop_last() =~= Seq::<Seq<char>>::empty());
            assert(seq![path].last() == path);
            assert(without(Seq::<Seq<char>>::empty(), path) =~= Seq::<Seq<char>>::empty());
        }
        assert(Seq::<Seq<char>>::empty() + without(tail, path) =~= without(tail, path));
    }
    assert(seq![path] + tail =~= h1);
}

proof fn lemma_without_all_differ(s: Seq<Seq<char>>, x: Seq<char>)
    requires
        forall|i: int| 0 <= i < s.len() ==> s[i] != x,
    ensures
        without(s, x) == s,
    decreases s.len(),
{
    if s.len() > 0 {
        lemma_without_all_differ(s.drop_last(), x);
        assert(s.drop_last().push(s.last()) =~= s);
    }
}

proof fn lemma_without_concat(a: Seq<Seq<char>>, b: Seq<Seq<char>>, x: Seq<char>)
    ensures
        without(a + b, x) == without(a, x) + without(b, x),
    decreases b.len(),
{
    if b.len() == 0 {
        assert(a + b =~= a);
        assert(without(a, x) + without(b, x) =~= without(a, x));
    } else {
        lemma_without_concat(a, b.drop_last(), x);
        assert((a + b).drop_last() =~= a + b.drop_last());
        if b.last() != x {
            assert(without(a, x) + without(b.drop_last(), x).push(b.last()) =~= (without(a, x) + without(b.drop_last(), x)).push(b.last()));
        }
    }
}

} // verus!
