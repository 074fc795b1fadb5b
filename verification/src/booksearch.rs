use vstd::prelude::*;
use vstd::string::*;
use vstd::utf8::*;

use crate::manifest::{copy_item, in_reading_order, manifest_view, sort_items_by_spine, ManifestItem, ManifestItemView};
use crate::paths::{path_file_name, path_file_name_spec};
use crate::pattern::{compile_pattern, escape, find_spans, regex_compile_outcome, regex_escape_spec, regex_find_spans, replace_all_literal, splice_spans, Pattern};
use crate::search::{chars_before_byte, document_match_offsets, document_match_snippets, lemma_chars_before_byte_bound, lemma_match_offsets_len, lemma_strip_len, snippet_spec, strip_html_spec, MAX_SEARCH_RESULTS, SNIPPET_CONTEXT};
use crate::selection::strings_view;
use crate::strings::{concat_str, contains_spec, str_contains};

verus! {

broadcast use vstd::string::group_string_axioms;

/// The chapters of the manifest (media type naming HTML), in manifest order.
pub open spec fn html_items(m: Seq<ManifestItemView>) -> Seq<ManifestItemView>
    decreases m.len(),
{
    if m.len() == 0 {
        Seq::empty()
    } else {
        let rest = html_items(m.drop_last());
        if contains_spec(m.last().media_type, "html"@) { rest.push(m.last()) } else { rest }
    }
}

/// The chapters that a book search goes through, in reading order (spine
/// first, the others by id).
pub fn book_search_items(items: &Vec<ManifestItem>, spine: &Vec<String>) -> (r: Vec<ManifestItem>)
    ensures
        in_reading_order(html_items(manifest_view(items@)), strings_view(spine@), false, manifest_view(r@)),
{
    let ghost m = manifest_view(items@);
    let mut chapters: Vec<ManifestItem> = Vec::new();
    let mut i: usize = 0;
    while i < items.len()
        invariant
            i <= items@.len(),
            m == manifest_view(items@),
            manifest_view(chapters@) == html_items(m.take(i as int)),
        decreases items@.len() - i,
    {
        proof {
            assert(m.take(i + 1).drop_last() =~= m.take(i as int));
            assert(m.take(i + 1).last() == m[i as int]);
        }
        if str_contains(items[i].media_type.as_str(), "html") {
            let ghost before = manifest_view(chapters@);
            chapters.push(copy_item(&items[i]));
            proof { assert(manifest_view(chapters@) =~= before.push(m[i as int])); }
        }
        i = i + 1;
    }
    proof { assert(m.take(items@.len() as int) =~= m); }
    sort_items_by_spine(&chapters, spine, false)
}

/// The subtitle of a search result: the chapter's file name, or its id.
pub fn result_subtitle(item: &ManifestItem) -> (r: String)
    ensures
        r@ == (match path_file_name_spec(item.href@) { Some(n) => n, None => item.id@ }),
{
    match path_file_name(item.href.as_str()) {
        Some(n) => n,
        None => item.id.clone(),
    }
}

/// A search starts from a query of two bytes.
pub fn has_search_query(query: &str) -> (r: bool)
    ensures
        r == (encode_utf8(query@).len() >= 2),
{
    query.as_bytes().len() >= 2
}

/// The pattern with which "replace all in the book" finds the query: the
/// query taken literally, ignoring case unless `case_sensitive`.
pub fn book_replace_pattern(query: &str, case_sensitive: bool) -> (r: String)
    ensures
        r@ == (if case_sensitive { regex_escape_spec(query@) } else { "(?i)"@ + regex_escape_spec(query@) }),
{
    let escaped = escape(query);
    if case_sensitive { escaped } else { concat_str("(?i)", escaped.as_str()) }
}

/// Replaces every match of `re` in a chapter with the literal `replacement`:
/// the number of matches, and the new content when there was one.
pub fn replace_in_document(re: &Pattern, raw: &str, replacement: &str) -> (r: (usize, Option<String>))
    ensures
        r.0 == regex_find_spans(re.source(), raw@).len(),
        r.0 == 0 ==> r.1 is None,
        r.0 > 0 ==> r.1 is Some && encode_utf8(r.1->Some_0@)
            == splice_spans(encode_utf8(raw@), regex_find_spans(re.source(), raw@), encode_utf8(replacement@), 0),
{
    let spans = find_spans(re, raw);
    let count = spans.len();
    if count == 0 {
        return (0, None);
    }
    (count, Some(replace_all_literal(re, raw, replacement)))
}

/// The pattern text for a book-wide replace.
pub open spec fn book_pattern_spec(query: Seq<char>, case_sensitive: bool) -> Seq<char> {
    if case_sensitive { regex_escape_spec(query) } else { "(?i)"@ + regex_escape_spec(query) }
}

/// The compiled pattern of a book-wide replace, or the error of the regex
/// crate (the replace is then abandoned).
pub fn compile_book_pattern(query: &str, case_sensitive: bool) -> (r: Result<Pattern, String>)
    ensures
        match regex_compile_outcome(book_pattern_spec(query@, case_sensitive)) {
            Ok(_) => r is Ok && r->Ok_0.source() == book_pattern_spec(query@, case_sensitive),
            Err(m) => r is Err && r->Err_0@ == m,
        },
{
    let text = book_replace_pattern(query, case_sensitive);
    compile_pattern(text.as_str())
}

/// The snippets of the matches of `query` in the chapter `raw`, at most
/// `limit` of them, as `document_match_snippets` gives them.
pub open spec fn doc_snippets(raw: Seq<char>, query: Seq<char>, case_sensitive: bool, limit: nat) -> Seq<Seq<char>> {
    let offs = document_match_offsets(raw, query, case_sensitive, limit);
    Seq::new(offs.len(), |k: int| snippet_spec(strip_html_spec(raw), offs[k], query.len() as int, SNIPPET_CONTEXT as int))
}

/// A chapter's text and the query are short enough to count the characters
/// of a snippet in a `usize` (two texts in memory always are).
pub open spec fn search_fits(raw: Seq<char>, query: Seq<char>) -> bool {
    raw.len() + query.len() + SNIPPET_CONTEXT / 2 <= usize::MAX
}

/// The result rows of a book search from the chapter `i` on, while `left`
/// rows may still be listed: each row the chapter's index and a snippet, the
/// chapters in order and the matches of each in order; an unreadable chapter
/// (`None`) gives none.
pub open spec fn book_rows_from(docs: Seq<Option<Seq<char>>>, i: int, query: Seq<char>, case_sensitive: bool, left: nat) -> Seq<(usize, Seq<char>)>
    decreases docs.len() - i,
{
    if i < 0 || i >= docs.len() || left == 0 {
        Seq::empty()
    } else {
        match docs[i] {
            None => book_rows_from(docs, i + 1, query, case_sensitive, left),
            Some(raw) => if !search_fits(raw, query) {
                book_rows_from(docs, i + 1, query, case_sensitive, left)
            } else {
                let rows = doc_snippets(raw, query, case_sensitive, left);
                rows.map(|k: int, sn: Seq<char>| (i as usize, sn))
                    + book_rows_from(docs, i + 1, query, case_sensitive, if rows.len() < left { (left - rows.len()) as nat } else { 0 })
            },
        }
    }
}

/// The chapters' texts as plain values.
pub open spec fn docs_view(docs: Seq<Option<String>>) -> Seq<Option<Seq<char>>> {
    docs.map_values(|d: Option<String>| match d { Some(t) => Some(t@), None => None })
}

/// Result rows as plain values.
pub open spec fn rows_view(rows: Seq<(usize, String)>) -> Seq<(usize, Seq<char>)> {
    rows.map_values(|x: (usize, String)| (x.0, x.1@))
}

/// The rows of a book search over the chapters' texts `docs` (in reading
/// order, `None` for a chapter that could not be read, and a chapter too long
/// for `search_fits` giving no rows): every match of
/// `query` in each chapter's plain text, chapter after chapter, each with the
/// chapter's index and its snippet, up to `MAX_SEARCH_RESULTS` rows; and
/// whether the list stopped at that limit.
pub fn book_search_rows(docs: &Vec<Option<String>>, query: &str, case_sensitive: bool) -> (r: (Vec<(usize, String)>, bool))
    ensures
        rows_view(r.0@) == book_rows_from(docs_view(docs@), 0, query@, case_sensitive, MAX_SEARCH_RESULTS as nat),
        r.1 == (r.0@.len() == MAX_SEARCH_RESULTS),
{
    let ghost dv = docs_view(docs@);
    let ghost all = book_rows_from(dv, 0, query@, case_sensitive, MAX_SEARCH_RESULTS as nat);
    let mut rows: Vec<(usize, String)> = Vec::new();
    let mut i: usize = 0;
    proof { assert(rows_view(rows@) + all =~= all); }
    while i < docs.len() && rows.len() < MAX_SEARCH_RESULTS
        invariant
            i <= docs@.len(),
            rows@.len() <= MAX_SEARCH_RESULTS,
            dv == docs_view(docs@),
            all == book_rows_from(dv, 0, query@, case_sensitive, MAX_SEARCH_RESULTS as nat),
            rows_view(rows@) + book_rows_from(dv, i as int, query@, case_sensitive, (MAX_SEARCH_RESULTS - rows@.len()) as nat) == all,
        decreases docs@.len() - i,
    {
        let left: usize = MAX_SEARCH_RESULTS - rows.len();
        match &docs[i] {
            None => {
                proof { assert(dv[i as int] is None); }
            },
            Some(raw) => {
                proof { assert(dv[i as int] == Some(raw@)); }
                let raw_len = raw.unicode_len();
                let query_len = query.unicode_len();
                if raw_len > usize::MAX - query_len || raw_len + query_len > usize::MAX - SNIPPET_CONTEXT / 2 {
                    i = i + 1;
                    continue;
                }
                proof {
                    let offs = document_match_offsets(raw@, query@, case_sensitive, left as nat);
                    lemma_strip_len(raw@);
                    assert forall|k: int| 0 <= k < offs.len() implies
                        chars_before_byte(strip_html_spec(raw@), #[trigger] offs[k]) + query@.len() + SNIPPET_CONTEXT / 2 <= usize::MAX by {
                        lemma_chars_before_byte_bound(strip_html_spec(raw@), offs[k]);
                    }
                }
                let snippets = document_match_snippets(raw.as_str(), query, case_sensitive, left);
                let ghost sn = doc_snippets(raw@, query@, case_sensitive, left as nat);
                proof {
                    lemma_match_offsets_len(
                        vstd::utf8::encode_utf8(crate::search::searched_text(strip_html_spec(raw@), case_sensitive)),
                        vstd::utf8::encode_utf8(crate::search::searched_text(query@, case_sensitive)),
                        0, left as nat);
                    assert(snippets@.len() == sn.len());
                }
                let ghost before = rows_view(rows@);
                let mut k: usize = 0;
                while k < snippets.len()
                    invariant
                        k <= snippets@.len(),
                        snippets@.len() == sn.len(),
                        sn.len() <= left,
                        left == MAX_SEARCH_RESULTS - before.len(),
                        forall|m: int| 0 <= m < snippets@.len() ==> (#[trigger] snippets@[m])@ == sn[m],
                        rows_view(rows@) == before + sn.take(k as int).map(|q: int, t: Seq<char>| (i as usize, t)),
                    decreases snippets@.len() - k,
                {
                    let ghost prev = rows_view(rows@);
                    rows.push((i, snippets[k].clone()));
                    proof {
                        assert(sn.take(k + 1).map(|q: int, t: Seq<char>| (i as usize, t))
                            =~= sn.take(k as int).map(|q: int, t: Seq<char>| (i as usize, t)).push((i, sn[k as int])));
                        assert(rows_view(rows@) =~= prev.push((i, sn[k as int])));
                    }
                    k = k + 1;
                }
                proof {
                    assert(sn.take(sn.len() as int) =~= sn);
                    assert(rows_view(rows@) == before + sn.map(|q: int, t: Seq<char>| (i as usize, t)));
                }
            },
        }
        i = i + 1;
    }
    proof {
        assert(book_rows_from(dv, i as int, query@, case_sensitive, (MAX_SEARCH_RESULTS - rows@.len()) as nat) =~= Seq::empty());
        assert(rows_view(rows@) + Seq::<(usize, Seq<char>)>::empty() =~= rows_view(rows@));
    }
    let capped = rows.len() == MAX_SEARCH_RESULTS;
    (rows, capped)
}

} // verus!
