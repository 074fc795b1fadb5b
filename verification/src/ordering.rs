use vstd::prelude::*;

use crate::selection::{index_of, lemma_index_of, position_of, sel_view, strings_view, Entry};
use crate::strings::collect_chars;

verus! {

/// `a` comes before `b` when their characters are compared one by one by code
/// point, a proper prefix coming first (the order of `str::cmp`).
pub open spec fn text_lt(a: Seq<char>, b: Seq<char>) -> bool
    decreases a.len(),
{
    if a.len() == 0 {
        b.len() > 0
    } else if b.len() == 0 {
        false
    } else if a[0] != b[0] {
        (a[0] as int) < (b[0] as int)
    } else {
        text_lt(a.drop_first(), b.drop_first())
    }
}

/// No text comes before itself.
pub proof fn lemma_text_lt_irreflexive(a: Seq<char>)
    ensures
        !text_lt(a, a),
    decreases a.len(),
{
    if a.len() > 0 {
        lemma_text_lt_irreflexive(a.drop_first());
    }
}

/// The text order is transitive.
pub proof fn lemma_text_lt_transitive(a: Seq<char>, b: Seq<char>, c: Seq<char>)
    requires
        text_lt(a, b),
        text_lt(b, c),
    ensures
        text_lt(a, c),
    decreases a.len(),
{
    if a.len() > 0 && b.len() > 0 && c.len() > 0 && a[0] == b[0] && b[0] == c[0] {
        lemma_text_lt_transitive(a.drop_first(), b.drop_first(), c.drop_first());
    }
}

/// Of two different texts, one comes before the other.
pub proof fn lemma_text_lt_total(a: Seq<char>, b: Seq<char>)
    ensures
        a == b || text_lt(a, b) || text_lt(b, a),
    decreases a.len(),
{
    if a.len() == 0 && b.len() == 0 {
        assert(a =~= b);
    } else if a.len() > 0 && b.len() > 0 && a[0] == b[0] {
        lemma_text_lt_total(a.drop_first(), b.drop_first());
        if a.drop_first() == b.drop_first() {
            assert(a.len() == b.len());
            assert forall|i: int| 0 <= i < a.len() implies a[i] == b[i] by {
                if i > 0 {
                    assert(a[i] == a.drop_first()[i - 1]);
                    assert(b[i] == b.drop_first()[i - 1]);
                    assert(a.drop_first()[i - 1] == b.drop_first()[i - 1]);
                }
            }
            assert(a =~= b);
        }
    }
}

/// Whether `a` comes before `b` in the order of code points (`a < b` on `str`).
pub fn text_less(a: &str, b: &str) -> (r: bool)
    ensures
        r == text_lt(a@, b@),
{
    let x = collect_chars(a);
    let y = collect_chars(b);
    let mut i: usize = 0;
    proof {
        assert(a@.skip(0) =~= a@);
        assert(b@.skip(0) =~= b@);
    }
    while i < x.len() && i < y.len()
        invariant
            x@ == a@,
            y@ == b@,
            i <= x@.len(),
            i <= y@.len(),
            text_lt(a@, b@) == text_lt(a@.skip(i as int), b@.skip(i as int)),
        decreases x@.len() - i,
    {
        if x[i] != y[i] {
            proof {
                assert(a@.skip(i as int)[0] == x@[i as int]);
                assert(b@.skip(i as int)[0] == y@[i as int]);
            }
            return x[i] < y[i];
        }
        proof {
            assert(a@.skip(i as int).drop_first() =~= a@.skip(i + 1));
            assert(b@.skip(i as int).drop_first() =~= b@.skip(i + 1));
            assert(a@.skip(i as int)[0] == b@.skip(i as int)[0]);
        }
        i = i + 1;
    }
    i == x.len() && i < y.len()
}

/// With a reading order `spine`, the entry `a` (an id and a text that breaks
/// ties) comes before `b`: an id in the spine comes before one that is not,
/// two ids in the spine come in spine order, and two ids that are not come in
/// the order of their texts.
pub open spec fn spine_before(spine: Seq<Seq<char>>, a: Entry, b: Entry) -> bool {
    match (index_of(spine, a.0), index_of(spine, b.0)) {
        (Some(pa), Some(pb)) => pa < pb,
        (Some(_), None) => true,
        (None, Some(_)) => false,
        (None, None) => text_lt(a.1, b.1),
    }
}

/// No entry comes before itself.
pub proof fn lemma_spine_before_irreflexive(spine: Seq<Seq<char>>, a: Entry)
    ensures
        !spine_before(spine, a, a),
{
    lemma_text_lt_irreflexive(a.1);
}

/// The spine order is transitive.
pub proof fn lemma_spine_before_transitive(spine: Seq<Seq<char>>, a: Entry, b: Entry, c: Entry)
    requires
        spine_before(spine, a, b),
        spine_before(spine, b, c),
    ensures
        spine_before(spine, a, c),
{
    if index_of(spine, a.0) is None {
        lemma_text_lt_transitive(a.1, b.1, c.1);
    }
}

/// When `a` comes before `c`, any `b` comes after `a` or before `c`.
pub proof fn lemma_spine_before_weak(spine: Seq<Seq<char>>, a: Entry, b: Entry, c: Entry)
    requires
        spine_before(spine, a, c),
    ensures
        spine_before(spine, a, b) || spine_before(spine, b, c),
{
    lemma_text_lt_total(a.1, b.1);
    if text_lt(b.1, a.1) && text_lt(a.1, c.1) {
        lemma_text_lt_transitive(b.1, a.1, c.1);
    }
}

/// `r` lists each of `0..n` once.
pub open spec fn is_permutation(r: Seq<usize>, n: nat) -> bool {
    &&& r.len() == n
    &&& forall|i: int| 0 <= i < r.len() ==> #[trigger] r[i] < n
    &&& forall|i: int, j: int| 0 <= i < j < r.len() ==> #[trigger] r[i] != #[trigger] r[j]
}

/// `r` lists the indices of `keys` so that no entry comes before one listed
/// earlier, and entries that neither comes before the other keep their order.
pub open spec fn spine_sorted(spine: Seq<Seq<char>>, keys: Seq<Entry>, r: Seq<usize>) -> bool {
    &&& forall|i: int, j: int| 0 <= i < j < r.len() ==>
        !spine_before(spine, #[trigger] keys[r[j] as int], #[trigger] keys[r[i] as int])
    &&& forall|i: int, j: int| 0 <= i < j < r.len() && !spine_before(spine, keys[r[i] as int], keys[r[j] as int])
        ==> #[trigger] r[i] < #[trigger] r[j]
}

/// How a position found by a search stands for an index of the spec.
pub open spec fn position_matches(p: Option<usize>, q: Option<int>) -> bool {
    match p {
        Some(x) => q == Some(x as int),
        None => q is None,
    }
}

fn before_at(pos: &Vec<Option<usize>>, keys: &Vec<(String, String)>, a: usize, b: usize, Ghost(spine): Ghost<Seq<Seq<char>>>) -> (r: bool)
    requires
        pos@.len() == keys@.len(),
        a < keys@.len(),
        b < keys@.len(),
        forall|i: int| 0 <= i < pos@.len() ==> position_matches(#[trigger] pos@[i], index_of(spine, keys@[i].0@)),
    ensures
        r == spine_before(spine, sel_view(keys@)[a as int], sel_view(keys@)[b as int]),
{
    proof {
        assert(position_matches(pos@[a as int], index_of(spine, keys@[a as int].0@)));
        assert(position_matches(pos@[b as int], index_of(spine, keys@[b as int].0@)));
    }
    match (pos[a], pos[b]) {
        (Some(x), Some(y)) => x < y,
        (Some(_), None) => true,
        (None, Some(_)) => false,
        (None, None) => text_less(keys[a].1.as_str(), keys[b].1.as_str()),
    }
}

/// The order in which to list `keys`, each an id and a text that breaks ties:
/// by position of the id in `spine`, ids outside it last, ordered by their
/// texts; a stable sort, as `sort_by` with that comparison.
pub fn spine_order(keys: &Vec<(String, String)>, spine: &Vec<String>) -> (r: Vec<usize>)
    ensures
        is_permutation(r@, keys@.len()),
        spine_sorted(strings_view(spine@), sel_view(keys@), r@),
{
    let ghost sp = strings_view(spine@);
    let ghost ks = sel_view(keys@);
    let mut pos: Vec<Option<usize>> = Vec::new();
    let mut k: usize = 0;
    while k < keys.len()
        invariant
            k <= keys@.len(),
            pos@.len() == k,
            sp == strings_view(spine@),
            forall|i: int| 0 <= i < pos@.len() ==> position_matches(#[trigger] pos@[i], index_of(sp, keys@[i].0@)),
        decreases keys@.len() - k,
    {
        let p = position_of(spine, keys[k].0.as_str());
        pos.push(p);
        proof {
            assert(position_matches(pos@[k as int], index_of(sp, keys@[k as int].0@)));
        }
        k = k + 1;
    }
    let mut r: Vec<usize> = Vec::new();
    let mut n: usize = 0;
    while n < keys.len()
        invariant
            n <= keys@.len(),
            pos@.len() == keys@.len(),
            ks == sel_view(keys@),
            forall|i: int| 0 <= i < pos@.len() ==> position_matches(#[trigger] pos@[i], index_of(sp, keys@[i].0@)),
            is_permutation(r@, n as nat),
            spine_sorted(sp, ks, r@),
        decreases keys@.len() - n,
    {
        let mut p: usize = 0;
        while p < r.len() && !before_at(&pos, keys, n, r[p], Ghost(sp))
            invariant
                p <= r@.len(),
                n < keys@.len(),
                pos@.len() == keys@.len(),
                ks == sel_view(keys@),
                forall|i: int| 0 <= i < pos@.len() ==> position_matches(#[trigger] pos@[i], index_of(sp, keys@[i].0@)),
                is_permutation(r@, n as nat),
                forall|i: int| 0 <= i < p ==> !spine_before(sp, ks[n as int], #[trigger] ks[r@[i] as int]),
            decreases r@.len() - p,
        {
            p = p + 1;
        }
        let ghost old_r = r@;
        r.insert(p, n);
        proof { lemma_insert_sorted(sp, ks, old_r, n, p as int); }
        n = n + 1;
    }
    r
}

proof fn lemma_insert_sorted(sp: Seq<Seq<char>>, ks: Seq<Entry>, r: Seq<usize>, n: usize, p: int)
    requires
        0 <= n < ks.len(),
        0 <= p <= r.len(),
        is_permutation(r, n as nat),
        spine_sorted(sp, ks, r),
        forall|i: int| 0 <= i < p ==> !spine_before(sp, ks[n as int], #[trigger] ks[r[i] as int]),
        p < r.len() ==> spine_before(sp, ks[n as int], ks[r[p] as int]),
    ensures
        is_permutation(r.insert(p, n), (n + 1) as nat),
        spine_sorted(sp, ks, r.insert(p, n)),
{
    let s = r.insert(p, n);
    assert(s[p] == n);
    assert forall|i: int| 0 <= i < s.len() implies #[trigger] s[i] < n + 1 by {
        if i < p { assert(s[i] == r[i]); } else if i > p { assert(s[i] == r[i - 1]); }
    }
    assert forall|i: int, j: int| 0 <= i < j < s.len() implies #[trigger] s[i] != #[trigger] s[j] by {
        if i != p && j != p {
            let oi = if i < p { i } else { i - 1 };
            let oj = if j < p { j } else { j - 1 };
            assert(s[i] == r[oi]);
            assert(s[j] == r[oj]);
        } else if i == p {
            assert(s[j] == r[j - 1]);
            assert(r[j - 1] < n);
        } else {
            assert(s[i] == r[i]);
            assert(r[i] < n);
        }
    }
    // every later entry of the old listing comes after the new one
    assert forall|j: int| p <= j < r.len() implies spine_before(sp, ks[n as int], #[trigger] ks[r[j] as int]) by {
        if j > p {
            lemma_spine_before_weak(sp, ks[n as int], ks[r[j] as int], ks[r[p] as int]);
        }
    }
    assert forall|i: int, j: int| 0 <= i < j < s.len() implies
        !spine_before(sp, #[trigger] ks[s[j] as int], #[trigger] ks[s[i] as int]) by {
        if i != p && j != p {
            let oi = if i < p { i } else { i - 1 };
            let oj = if j < p { j } else { j - 1 };
            assert(s[i] == r[oi]);
            assert(s[j] == r[oj]);
        } else if i == p {
            assert(s[j] == r[j - 1]);
            assert(spine_before(sp, ks[n as int], ks[r[j - 1] as int]));
            if spine_before(sp, ks[r[j - 1] as int], ks[n as int]) {
                lemma_spine_before_transitive(sp, ks[n as int], ks[r[j - 1] as int], ks[n as int]);
                lemma_spine_before_irreflexive(sp, ks[n as int]);
            }
        } else {
            assert(s[i] == r[i]);
        }
    }
    assert forall|i: int, j: int| 0 <= i < j < s.len() && !spine_before(sp, ks[s[i] as int], ks[s[j] as int])
        implies #[trigger] s[i] < #[trigger] s[j] by {
        if i != p && j != p {
            let oi = if i < p { i } else { i - 1 };
            let oj = if j < p { j } else { j - 1 };
            assert(s[i] == r[oi]);
            assert(s[j] == r[oj]);
        } else if i == p {
            assert(s[j] == r[j - 1]);
            assert(spine_before(sp, ks[n as int], ks[r[j - 1] as int]));
        } else {
            assert(s[i] == r[i]);
            assert(r[i] < n);
        }
    }
}

/// The order in which to list `texts`: ascending by code points, equal texts
/// keeping their order (`sort_by(|a, b| a.cmp(b))`).
pub fn text_order(texts: &Vec<String>) -> (r: Vec<usize>)
    ensures
        is_permutation(r@, texts@.len()),
        forall|i: int, j: int| 0 <= i < j < r@.len() ==>
            !text_lt(#[trigger] texts@[r@[j] as int]@, #[trigger] texts@[r@[i] as int]@),
        forall|i: int, j: int| 0 <= i < j < r@.len() && !text_lt(texts@[r@[i] as int]@, texts@[r@[j] as int]@)
            ==> #[trigger] r@[i] < #[trigger] r@[j],
{
    let mut keys: Vec<(String, String)> = Vec::new();
    let mut k: usize = 0;
    while k < texts.len()
        invariant
            k <= texts@.len(),
            keys@.len() == k,
            forall|i: int| 0 <= i < k ==> (#[trigger] keys@[i]).1@ == texts@[i]@,
        decreases texts@.len() - k,
    {
        keys.push((String::new(), texts[k].clone()));
        k = k + 1;
    }
    let spine: Vec<String> = Vec::new();
    let r = spine_order(&keys, &spine);
    proof {
        let sp = strings_view(spine@);
        let ks = sel_view(keys@);
        assert(sp.len() == 0);
        assert forall|x: Seq<char>| index_of(sp, x) is None by {
            lemma_index_of(sp, x);
        }
        assert forall|i: int, j: int| 0 <= i < j < r@.len() implies
            !text_lt(#[trigger] texts@[r@[j] as int]@, #[trigger] texts@[r@[i] as int]@) by {
            assert(!spine_before(sp, ks[r@[j] as int], ks[r@[i] as int]));
            assert(index_of(sp, ks[r@[j] as int].0) is None);
            assert(index_of(sp, ks[r@[i] as int].0) is None);
        }
        assert forall|i: int, j: int| 0 <= i < j < r@.len() && !text_lt(texts@[r@[i] as int]@, texts@[r@[j] as int]@)
            implies #[trigger] r@[i] < #[trigger] r@[j] by {
            assert(index_of(sp, ks[r@[j] as int].0) is None);
            assert(index_of(sp, ks[r@[i] as int].0) is None);
            assert(!spine_before(sp, ks[r@[i] as int], ks[r@[j] as int]));
        }
    }
    r
}

} // verus!
