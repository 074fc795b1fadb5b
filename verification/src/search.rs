use vstd::prelude::*;
use vstd::string::*;
use vstd::utf8::*;

use crate::offsets::{byte_offset, char_width, lemma_byte_offset_mono, lemma_byte_offset_step, width_of};
use crate::strings::{push_char, string_from_chars, collect_chars};

verus! {

broadcast use vstd::string::group_string_axioms;

/// `c` may stand in the name of an entity reference: an XML name character
/// (letters, digits, `_`, `-`, `.`, `:` and the XML name ranges beyond
/// ASCII), or the `#` of a character reference (`amp`, `#160`, `#xA0`).
pub open spec fn is_entity_char(c: char) -> bool {
    c == ':' || ('A' <= c && c <= 'Z') || c == '_' || ('a' <= c && c <= 'z') || c == '-' || c == '.'
        || ('0' <= c && c <= '9') || c == '#' || c == '\u{b7}'
        || ('\u{c0}' <= c && c <= '\u{d6}') || ('\u{d8}' <= c && c <= '\u{f6}') || ('\u{f8}' <= c && c <= '\u{37d}')
        || ('\u{37f}' <= c && c <= '\u{1fff}') || ('\u{200c}' <= c && c <= '\u{200d}') || ('\u{203f}' <= c && c <= '\u{2040}')
        || ('\u{2070}' <= c && c <= '\u{218f}') || ('\u{2c00}' <= c && c <= '\u{2fef}') || ('\u{3001}' <= c && c <= '\u{d7ff}')
        || ('\u{f900}' <= c && c <= '\u{fdcf}') || ('\u{fdf0}' <= c && c <= '\u{fffd}') || ('\u{10000}' <= c && c <= '\u{effff}')
}

/// Whether `c` may stand in the name of an entity reference.
fn entity_char(c: char) -> (r: bool)
    ensures
        r == is_entity_char(c),
{
    c == ':' || ('A' <= c && c <= 'Z') || c == '_' || ('a' <= c && c <= 'z') || c == '-' || c == '.'
        || ('0' <= c && c <= '9') || c == '#' || c == '\u{b7}'
        || ('\u{c0}' <= c && c <= '\u{d6}') || ('\u{d8}' <= c && c <= '\u{f6}') || ('\u{f8}' <= c && c <= '\u{37d}')
        || ('\u{37f}' <= c && c <= '\u{1fff}') || ('\u{200c}' <= c && c <= '\u{200d}') || ('\u{203f}' <= c && c <= '\u{2040}')
        || ('\u{2070}' <= c && c <= '\u{218f}') || ('\u{2c00}' <= c && c <= '\u{2fef}') || ('\u{3001}' <= c && c <= '\u{d7ff}')
        || ('\u{f900}' <= c && c <= '\u{fdcf}') || ('\u{fdf0}' <= c && c <= '\u{fffd}') || ('\u{10000}' <= c && c <= '\u{effff}')
}

/// How many name characters of an entity reference follow from `i` on.
pub open spec fn name_run(s: Seq<char>, i: int) -> nat
    decreases s.len() - i,
{
    if 0 <= i < s.len() && is_entity_char(s[i]) { 1 + name_run(s, i + 1) } else { 0 }
}

/// An entity reference starts at `i`: `&`, a non-empty name, and `;`.
pub open spec fn entity_at(s: Seq<char>, i: int) -> bool {
    &&& 0 <= i < s.len()
    &&& s[i] == '&'
    &&& name_run(s, i + 1) > 0
    &&& i + 1 + name_run(s, i + 1) < s.len()
    &&& s[i + 1 + name_run(s, i + 1)] == ';'
}

/// The plain text of `s` from `i` on, `in_tag` telling whether `i` lies
/// inside a tag: each `<` becomes a space and the tag up to `>` is dropped;
/// each entity reference outside a tag becomes a space; any other character
/// outside a tag is kept (a `&` that opens no entity reference among them).
pub open spec fn strip_from(s: Seq<char>, i: int, in_tag: bool) -> Seq<char>
    decreases s.len() - i,
{
    if i < 0 || i >= s.len() {
        Seq::empty()
    } else {
        let ch = s[i];
        if ch == '<' {
            seq![' '] + strip_from(s, i + 1, true)
        } else if ch == '>' {
            strip_from(s, i + 1, false)
        } else if in_tag {
            strip_from(s, i + 1, true)
        } else if entity_at(s, i) {
            seq![' '] + strip_from(s, i + 2 + name_run(s, i + 1), false)
        } else {
            seq![ch] + strip_from(s, i + 1, false)
        }
    }
}

/// `html` with its tags and entity references taken out.
pub open spec fn strip_html_spec(html: Seq<char>) -> Seq<char> {
    strip_from(html, 0, false)
}

/// The number of entity-name characters of `chars` from `i` on.
fn entity_name_len(chars: &Vec<char>, i: usize) -> (n: usize)
    requires
        i <= chars@.len(),
    ensures
        n == name_run(chars@, i as int),
        i + n <= chars@.len(),
{
    let mut j = i;
    while j < chars.len() && entity_char(chars[j])
        invariant
            i <= j <= chars@.len(),
            name_run(chars@, i as int) == (j - i) + name_run(chars@, j as int),
        decreases chars@.len() - j,
    {
        j = j + 1;
    }
    j - i
}

/// Strips HTML/XML tags and entity references from `html`, leaving plain text.
pub fn strip_html_for_search(html: &str) -> (out: String)
    ensures
        out@ == strip_html_spec(html@),
{
    let chars = collect_chars(html);
    let mut out = String::new();
    let mut in_tag = false;
    let mut i: usize = 0;
    while i < chars.len()
        invariant
            chars@ == html@,
            i <= chars@.len(),
            out@ + strip_from(html@, i as int, in_tag) == strip_html_spec(html@),
        decreases chars@.len() - i,
    {
        let ch = chars[i];
        let ghost before = out@;
        if ch == '<' {
            push_char(&mut out, ' ');
            proof { assert(before + (seq![' '] + strip_from(html@, i + 1, true)) =~= out@ + strip_from(html@, i + 1, true)); }
            in_tag = true;
            i = i + 1;
        } else if ch == '>' {
            in_tag = false;
            i = i + 1;
        } else if in_tag {
            i = i + 1;
        } else {
            let n = if ch == '&' { entity_name_len(&chars, i + 1) } else { 0 };
            if ch == '&' && n > 0 && i + 1 + n < chars.len() && chars[i + 1 + n] == ';' {
                proof { assert(entity_at(html@, i as int)); }
                push_char(&mut out, ' ');
                proof {
                    assert(before + (seq![' '] + strip_from(html@, i + 2 + n, false)) =~= out@ + strip_from(html@, i + 2 + n, false));
                }
                i = i + 2 + n;
            } else {
                proof {
                    if ch == '&' { assert(name_run(html@, i + 1) == n); }
                    assert(!entity_at(html@, i as int));
                }
                push_char(&mut out, ch);
                proof { assert(before + (seq![ch] + strip_from(html@, i + 1, false)) =~= out@ + strip_from(html@, i + 1, false)); }
                i = i + 1;
            }
        }
    }
    proof { assert(out@ + strip_from(html@, i as int, in_tag) =~= out@); }
    out
}

proof fn lemma_strip_from_no_angles(s: Seq<char>, i: int, in_tag: bool)
    ensures
        forall|k: int| 0 <= k < strip_from(s, i, in_tag).len() ==>
            strip_from(s, i, in_tag)[k] != '<' && strip_from(s, i, in_tag)[k] != '>',
    decreases s.len() - i,
{
    let cur = strip_from(s, i, in_tag);
    if 0 <= i < s.len() {
        let ch = s[i];
        if ch == '<' {
            let rest = strip_from(s, i + 1, true);
            lemma_strip_from_no_angles(s, i + 1, true);
            assert(cur == seq![' '] + rest);
            assert forall|k: int| 0 <= k < cur.len() implies cur[k] != '<' && cur[k] != '>' by {
                if k > 0 { assert(cur[k] == rest[k - 1]); }
            }
        } else if ch == '>' {
            lemma_strip_from_no_angles(s, i + 1, false);
            assert(cur == strip_from(s, i + 1, false));
        } else if in_tag {
            lemma_strip_from_no_angles(s, i + 1, true);
            assert(cur == strip_from(s, i + 1, true));
        } else if entity_at(s, i) {
            let rest = strip_from(s, i + 2 + name_run(s, i + 1), false);
            lemma_strip_from_no_angles(s, i + 2 + name_run(s, i + 1), false);
            assert(cur == seq![' '] + rest);
            assert forall|k: int| 0 <= k < cur.len() implies cur[k] != '<' && cur[k] != '>' by {
                if k > 0 { assert(cur[k] == rest[k - 1]); }
            }
        } else {
            let rest = strip_from(s, i + 1, false);
            lemma_strip_from_no_angles(s, i + 1, false);
            assert(cur == seq![ch] + rest);
            assert forall|k: int| 0 <= k < cur.len() implies cur[k] != '<' && cur[k] != '>' by {
                if k > 0 { assert(cur[k] == rest[k - 1]); }
            }
        }
    } else {
        assert(cur.len() == 0);
    }
}

/// The plain text of a search never holds an angle bracket.
pub proof fn lemma_stripped_text_has_no_angle_brackets(html: Seq<char>)
    ensures
        forall|i: int| 0 <= i < strip_html_spec(html).len() ==>
            strip_html_spec(html)[i] != '<' && strip_html_spec(html)[i] != '>',
{
    lemma_strip_from_no_angles(html, 0, false);
}

proof fn lemma_strip_from_plain(text: Seq<char>, i: int)
    requires
        0 <= i <= text.len(),
        forall|k: int| 0 <= k < text.len() ==> text[k] != '<' && text[k] != '>' && text[k] != '&',
    ensures
        strip_from(text, i, false) == text.subrange(i, text.len() as int),
    decreases text.len() - i,
{
    if i < text.len() {
        lemma_strip_from_plain(text, i + 1);
        assert(seq![text[i]] + text.subrange(i + 1, text.len() as int) =~= text.subrange(i, text.len() as int));
    } else {
        assert(text.subrange(i, text.len() as int) =~= Seq::<char>::empty());
    }
}

proof fn lemma_strip_from_no_semicolon(text: Seq<char>, i: int)
    requires
        0 <= i <= text.len(),
        forall|k: int| 0 <= k < text.len() ==> text[k] != '<' && text[k] != '>' && text[k] != ';',
    ensures
        strip_from(text, i, false) == text.subrange(i, text.len() as int),
    decreases text.len() - i,
{
    if i < text.len() {
        if text[i] == '&' && name_run(text, i + 1) > 0 && i + 1 + name_run(text, i + 1) < text.len() {
            assert(text[i + 1 + name_run(text, i + 1)] != ';');
        }
        assert(!entity_at(text, i));
        lemma_strip_from_no_semicolon(text, i + 1);
        assert(seq![text[i]] + text.subrange(i + 1, text.len() as int) =~= text.subrange(i, text.len() as int));
    } else {
        assert(text.subrange(i, text.len() as int) =~= Seq::<char>::empty());
    }
}

/// Text with no `<`, `>` or `;` passes through unchanged: with no `;`, no
/// `&` in it opens an entity reference, so every `&` is kept as text.
pub proof fn lemma_text_without_semicolons_unchanged(text: Seq<char>)
    requires
        forall|i: int| 0 <= i < text.len() ==> text[i] != '<' && text[i] != '>' && text[i] != ';',
    ensures
        strip_html_spec(text) == text,
{
    lemma_strip_from_no_semicolon(text, 0);
    assert(text.subrange(0, text.len() as int) =~= text);
}

/// Text with no `<`, `>` or `&` passes through unchanged.
pub proof fn lemma_plain_text_unchanged(text: Seq<char>)
    requires
        forall|i: int| 0 <= i < text.len() ==> text[i] != '<' && text[i] != '>' && text[i] != '&',
    ensures
        strip_html_spec(text) == text,
{
    lemma_strip_from_plain(text, 0);
    assert(text.subrange(0, text.len() as int) =~= text);
}

proof fn lemma_strip_from_len(s: Seq<char>, i: int, in_tag: bool)
    requires
        0 <= i,
    ensures
        strip_from(s, i, in_tag).len() <= if i <= s.len() { s.len() - i } else { 0 },
    decreases s.len() - i,
{
    if 0 <= i < s.len() {
        let ch = s[i];
        if ch == '<' {
            lemma_strip_from_len(s, i + 1, true);
        } else if ch == '>' {
            lemma_strip_from_len(s, i + 1, false);
        } else if in_tag {
            lemma_strip_from_len(s, i + 1, true);
        } else if entity_at(s, i) {
            lemma_strip_from_len(s, i + 2 + name_run(s, i + 1), false);
        } else {
            lemma_strip_from_len(s, i + 1, false);
        }
    }
}

/// `c` has the Unicode `White_Space` property (`char::is_whitespace`).
pub open spec fn is_unicode_whitespace(c: char) -> bool {
    ('\u{9}' <= c && c <= '\u{d}') || c == ' ' || c == '\u{85}' || c == '\u{a0}' || c == '\u{1680}'
        || ('\u{2000}' <= c && c <= '\u{200a}') || c == '\u{2028}' || c == '\u{2029}' || c == '\u{202f}'
        || c == '\u{205f}' || c == '\u{3000}'
}

/// Whether `c` is white space (`char::is_whitespace`).
pub fn char_is_whitespace(c: char) -> (r: bool)
    ensures
        r == is_unicode_whitespace(c),
{
    ('\u{9}' <= c && c <= '\u{d}') || c == ' ' || c == '\u{85}' || c == '\u{a0}' || c == '\u{1680}'
        || ('\u{2000}' <= c && c <= '\u{200a}') || c == '\u{2028}' || c == '\u{2029}' || c == '\u{202f}'
        || c == '\u{205f}' || c == '\u{3000}'
}

/// The words of `s` written so far, one space between two words, and whether
/// white space has come after the last word.
pub open spec fn collapse_run(s: Seq<char>) -> (Seq<char>, bool)
    decreases s.len(),
{
    if s.len() == 0 {
        (Seq::empty(), false)
    } else {
        let (out, gap) = collapse_run(s.drop_last());
        let c = s.last();
        if is_unicode_whitespace(c) {
            (out, out.len() > 0)
        } else if gap {
            (out.push(' ').push(c), false)
        } else {
            (out.push(c), false)
        }
    }
}

/// The words of `s` (runs of characters that are not white space), joined by
/// single spaces.
pub open spec fn collapse_whitespace(s: Seq<char>) -> Seq<char> {
    collapse_run(s).0
}

/// Every white space of `t` is a single space between two characters that
/// are not white space.
pub open spec fn single_spaced(t: Seq<char>) -> bool {
    forall|i: int| 0 <= i < t.len() && is_unicode_whitespace(#[trigger] t[i]) ==>
        t[i] == ' ' && 0 < i < t.len() - 1 && !is_unicode_whitespace(t[i - 1]) && !is_unicode_whitespace(t[i + 1])
}

proof fn lemma_collapse_run_single_spaced(s: Seq<char>)
    ensures
        single_spaced(collapse_run(s).0),
        collapse_run(s).1 ==> collapse_run(s).0.len() > 0,
    decreases s.len(),
{
    if s.len() > 0 {
        lemma_collapse_run_single_spaced(s.drop_last());
        let (out, gap) = collapse_run(s.drop_last());
        let c = s.last();
        let r = collapse_run(s).0;
        if !is_unicode_whitespace(c) {
            assert forall|i: int| 0 <= i < r.len() && is_unicode_whitespace(#[trigger] r[i]) implies
                r[i] == ' ' && 0 < i < r.len() - 1 && !is_unicode_whitespace(r[i - 1]) && !is_unicode_whitespace(r[i + 1]) by {
                if i < out.len() {
                    assert(r[i] == out[i]);
                    if i + 1 < out.len() { assert(r[i + 1] == out[i + 1]); }
                    assert(r[i - 1] == out[i - 1]);
                } else if gap && i == out.len() {
                    assert(r[i] == ' ');
                    assert(r[i + 1] == c);
                    assert(out.len() > 0);
                    assert(r[i - 1] == out[out.len() - 1]);
                    assert(!is_unicode_whitespace(out[out.len() - 1]));
                }
            }
        }
    }
}

/// Collapsing white space leaves single spaces between words only: no white
/// space at either end, none but `' '`, never two in a row.
pub proof fn lemma_collapsed_is_single_spaced(s: Seq<char>)
    ensures
        single_spaced(collapse_whitespace(s)),
{
    lemma_collapse_run_single_spaced(s);
}

proof fn lemma_collapse_run_no_whitespace(s: Seq<char>)
    requires
        forall|i: int| 0 <= i < s.len() ==> !is_unicode_whitespace(#[trigger] s[i]),
    ensures
        collapse_run(s) == (s, false),
    decreases s.len(),
{
    if s.len() > 0 {
        lemma_collapse_run_no_whitespace(s.drop_last());
        assert(s.drop_last().push(s.last()) =~= s);
    }
}

/// Text without white space is left as it is by the collapsing.
pub proof fn lemma_collapse_keeps_words(s: Seq<char>)
    requires
        forall|i: int| 0 <= i < s.len() ==> !is_unicode_whitespace(#[trigger] s[i]),
    ensures
        collapse_whitespace(s) == s,
{
    lemma_collapse_run_no_whitespace(s);
}

/// Number of characters of `s` before its byte offset `b`, when a character
/// starts there (or `b` is the end); else 0.
pub open spec fn chars_before_byte(s: Seq<char>, b: int) -> int {
    if exists|k: int| 0 <= k <= s.len() && byte_offset(s, k) == b {
        choose|k: int| 0 <= k <= s.len() && byte_offset(s, k) == b
    } else {
        0
    }
}

/// The snippet for a match at byte `match_byte` of `text`, `query_len`
/// characters long: about `context` characters around it, white space
/// collapsed, with `…` where text was cut at either end.
pub open spec fn snippet_spec(text: Seq<char>, match_byte: int, query_len: int, context: int) -> Seq<char> {
    let prefix = chars_before_byte(text, match_byte);
    let total = text.len() as int;
    let half = context / 2;
    let start = if prefix >= half { prefix - half } else { 0 };
    let end = if prefix + query_len + half < total { prefix + query_len + half } else { total };
    (if start > 0 { "…"@ } else { Seq::empty() }) + collapse_whitespace(text.subrange(start, end)) + (if end < total {
        "…"@
    } else {
        Seq::empty()
    })
}

proof fn lemma_byte_offset_strict(s: Seq<char>, i: int, j: int)
    requires
        0 <= i < j <= s.len(),
    ensures
        byte_offset(s, i) < byte_offset(s, j),
{
    lemma_byte_offset_step(s, i);
    vstd::utf8::char_is_scalar(s[i]);
    assert(char_width(s[i]) >= 1);
    lemma_byte_offset_mono(s, i + 1, j);
}

/// Number of characters of `chars` before the byte `b`, when one starts
/// there; else 0.
fn count_chars_before_byte(chars: &Vec<char>, b: usize) -> (r: usize)
    ensures
        r == chars_before_byte(chars@, b as int),
{
    let mut k: usize = 0;
    let mut pos: usize = 0;
    while k < chars.len() && pos < b
        invariant
            k <= chars@.len(),
            pos == byte_offset(chars@, k as int),
            pos <= b || k == 0,
            forall|m: int| 0 <= m < k ==> byte_offset(chars@, m) < b,
        decreases chars@.len() - k,
    {
        proof {
            lemma_byte_offset_step(chars@, k as int);
        }
        let w = width_of(chars[k]);
        if w > b - pos {
            proof {
                assert forall|m: int| 0 <= m <= chars@.len() implies byte_offset(chars@, m) != b by {
                    if m > k {
                        lemma_byte_offset_mono(chars@, k + 1, m);
                    } else if m < k {
                    }
                }
            }
            return 0;
        }
        pos = pos + w;
        k = k + 1;
    }
    if pos == b {
        proof {
            let c = choose|m: int| 0 <= m <= chars@.len() && byte_offset(chars@, m) == b as int;
            if c < k { lemma_byte_offset_strict(chars@, c, k as int); }
            if c > k { lemma_byte_offset_strict(chars@, k as int, c); }
        }
        k
    } else {
        proof {
            assert forall|m: int| 0 <= m <= chars@.len() implies byte_offset(chars@, m) != b by {
                if m > k {
                    lemma_byte_offset_strict(chars@, k as int, m);
                }
            }
        }
        0
    }
}

/// Words of `chars[start..end]` joined by single spaces.
fn collapse_range(chars: &Vec<char>, start: usize, end: usize) -> (r: String)
    requires
        start <= end <= chars@.len(),
    ensures
        r@ == collapse_whitespace(chars@.subrange(start as int, end as int)),
{
    let mut out = String::new();
    let mut gap = false;
    let mut i = start;
    assert(chars@.subrange(start as int, start as int) =~= Seq::<char>::empty());
    while i < end
        invariant
            start <= i <= end <= chars@.len(),
            collapse_run(chars@.subrange(start as int, i as int)) == (out@, gap),
        decreases end - i,
    {
        proof {
            assert(chars@.subrange(start as int, i + 1).drop_last() =~= chars@.subrange(start as int, i as int));
        }
        let c = chars[i];
        if char_is_whitespace(c) {
            gap = out.as_str().unicode_len() > 0;
        } else {
            if gap {
                push_char(&mut out, ' ');
            }
            push_char(&mut out, c);
            gap = false;
        }
        i = i + 1;
    }
    out
}

/// Extracts about `context_chars` characters of `text` centred on the match
/// at byte `match_byte`, `query_char_len` characters long.
pub fn build_snippet(text: &str, match_byte: usize, query_char_len: usize, context_chars: usize) -> (r: String)
    requires
        chars_before_byte(text@, match_byte as int) + query_char_len + context_chars / 2 <= usize::MAX,
    ensures
        r@ == snippet_spec(text@, match_byte as int, query_char_len as int, context_chars as int),
{
    let chars = collect_chars(text);
    let prefix_chars = count_chars_before_byte(&chars, match_byte);
    let total_chars = chars.len();
    proof {
        if exists|k: int| 0 <= k <= text@.len() && byte_offset(text@, k) == match_byte as int {
            let c = choose|k: int| 0 <= k <= text@.len() && byte_offset(text@, k) == match_byte as int;
            assert(prefix_chars == c);
        }
    }
    let half = context_chars / 2;
    let start_char = if prefix_chars >= half { prefix_chars - half } else { 0 };
    let end_char = if prefix_chars + query_char_len + half < total_chars { prefix_chars + query_char_len + half } else { total_chars };
    let body = collapse_range(&chars, start_char, end_char);
    let mut out = String::new();
    if start_char > 0 {
        out.append("…");
    }
    out.append(body.as_str());
    if end_char < total_chars {
        out.append("…");
    }
    out
}


/// The characters of `s` in lower case (`str::to_lowercase`).
pub uninterp spec fn lowercase_spec(s: Seq<char>) -> Seq<char>;

/// Every character of `s` is ASCII.
pub open spec fn is_ascii_text(s: Seq<char>) -> bool {
    forall|i: int| 0 <= i < s.len() ==> (#[trigger] s[i]) <= '\u{7f}'
}

/// An ASCII upper-case letter in lower case; any other character as it is.
pub open spec fn ascii_lower_char(c: char) -> char {
    if 'A' <= c && c <= 'Z' { ((c as int) + 32) as char } else { c }
}

/// An ASCII lower-case letter in upper case; any other character as it is.
pub open spec fn ascii_upper_char(c: char) -> char {
    if 'a' <= c && c <= 'z' { ((c as int) - 32) as char } else { c }
}

/// `s` with its ASCII letters in lower case (`str::to_ascii_lowercase`).
pub open spec fn ascii_lower_text(s: Seq<char>) -> Seq<char> {
    s.map_values(|c: char| ascii_lower_char(c))
}

/// `s` with its ASCII letters in upper case (`str::to_ascii_uppercase`).
pub open spec fn ascii_upper_text(s: Seq<char>) -> Seq<char> {
    s.map_values(|c: char| ascii_upper_char(c))
}

/// `s` in lower case, by Unicode rules (`str::to_lowercase`). The Unicode
/// lower-case mapping takes each ASCII upper-case letter to its ASCII
/// lower-case letter and leaves every other ASCII character as it is, so an
/// ASCII text comes out as its ASCII lower case (an empty one stays empty).
/// Of other texts only the name of the result is stated.
#[verifier::external_body]
pub(crate) fn to_lowercase(s: &str) -> (r: String)
    ensures
        r@ == lowercase_spec(s@),
        is_ascii_text(s@) ==> r@ == ascii_lower_text(s@),
{
    s.to_lowercase()
}

/// `needle` occurs in `hay` at byte `i`.
pub open spec fn bytes_match_at(hay: Seq<u8>, needle: Seq<u8>, i: int) -> bool {
    0 <= i && i + needle.len() <= hay.len() && hay.subrange(i, i + needle.len()) == needle
}

/// The first byte offset at or after `from` where `needle` occurs in `hay`
/// (what `str::find` gives on the text from `from` on, shifted by `from`).
pub open spec fn first_match_from(hay: Seq<u8>, needle: Seq<u8>, from: int) -> Option<int>
    decreases hay.len() + 1 - from,
{
    if from < 0 || from + needle.len() > hay.len() {
        None
    } else if bytes_match_at(hay, needle, from) {
        Some(from)
    } else {
        first_match_from(hay, needle, from + 1)
    }
}

/// The byte offsets of at most `limit` successive matches of `needle` in
/// `hay` from `from` on, each search going on after the end of the last match
/// (at least one byte further).
pub open spec fn match_offsets(hay: Seq<u8>, needle: Seq<u8>, from: int, limit: nat) -> Seq<int>
    decreases limit,
{
    if limit == 0 {
        Seq::empty()
    } else {
        match first_match_from(hay, needle, from) {
            None => Seq::empty(),
            Some(i) => seq![i] + match_offsets(hay, needle, i + if needle.len() > 0 { needle.len() as int } else { 1 }, (limit - 1) as nat),
        }
    }
}

/// At most `limit` offsets are listed.
pub(crate) proof fn lemma_match_offsets_len(hay: Seq<u8>, needle: Seq<u8>, from: int, limit: nat)
    ensures
        match_offsets(hay, needle, from, limit).len() <= limit,
    decreases limit,
{
    if limit > 0 {
        if let Some(i) = first_match_from(hay, needle, from) {
            lemma_match_offsets_len(hay, needle, i + if needle.len() > 0 { needle.len() as int } else { 1 }, (limit - 1) as nat);
        }
    }
}

/// The characters before a byte are at most all of them.
pub(crate) proof fn lemma_chars_before_byte_bound(s: Seq<char>, b: int)
    ensures
        0 <= chars_before_byte(s, b) <= s.len(),
{
}

proof fn lemma_first_match_from(hay: Seq<u8>, needle: Seq<u8>, from: int)
    ensures
        first_match_from(hay, needle, from) matches Some(i) ==> from <= i && bytes_match_at(hay, needle, i),
    decreases hay.len() + 1 - from,
{
    if !(from < 0 || from + needle.len() > hay.len()) && !bytes_match_at(hay, needle, from) {
        lemma_first_match_from(hay, needle, from + 1);
    }
}

/// First byte offset at or after `from` where `needle` occurs in `hay`.
fn find_bytes_from(hay: &[u8], needle: &[u8], from: usize) -> (r: Option<usize>)
    ensures
        match r {
            Some(i) => first_match_from(hay@, needle@, from as int) == Some(i as int),
            None => first_match_from(hay@, needle@, from as int) is None,
        },
{
    let n = needle.len();
    let h = hay.len();
    if n > h {
        return None;
    }
    let mut i = from;
    while i <= h - n
        invariant
            from <= i,
            n == needle@.len(),
            h == hay@.len(),
            n <= h,
            first_match_from(hay@, needle@, from as int) == first_match_from(hay@, needle@, i as int),
        decreases h - i,
    {
        let mut j: usize = 0;
        while j < n && hay[i + j] == needle[j]
            invariant
                j <= n,
                i + n <= h,
                n == needle@.len(),
                h == hay@.len(),
                forall|m: int| 0 <= m < j ==> hay@[i + m] == needle@[m],
            decreases n - j,
        {
            j = j + 1;
        }
        if j == n {
            proof { assert(hay@.subrange(i as int, i + n) =~= needle@); }
            return Some(i);
        }
        proof {
            if hay@.subrange(i as int, i + n) == needle@ {
                assert(hay@.subrange(i as int, i + n)[j as int] == needle@[j as int]);
            }
        }
        i = i + 1;
    }
    None
}

/// `v` as integers.
pub open spec fn ints(v: Seq<usize>) -> Seq<int> {
    v.map_values(|x: usize| x as int)
}

/// Byte offsets of at most `limit` successive matches of `needle` in `hay`.
fn match_offsets_exec(hay: &[u8], needle: &[u8], limit: usize) -> (r: Vec<usize>)
    ensures
        ints(r@) == match_offsets(hay@, needle@, 0, limit as nat),
{
    let mut r: Vec<usize> = Vec::new();
    let mut pos: usize = 0;
    let step = if needle.len() > 0 { needle.len() } else { 1 };
    let ghost all = match_offsets(hay@, needle@, 0, limit as nat);
    assert(ints(r@) =~= Seq::<int>::empty());
    while r.len() < limit
        invariant
            step == (if needle@.len() > 0 { needle@.len() as int } else { 1 }),
            r@.len() <= limit,
            all == match_offsets(hay@, needle@, 0, limit as nat),
            all == ints(r@) + match_offsets(hay@, needle@, pos as int, (limit - r@.len()) as nat),
        decreases limit - r@.len(),
    {
        match find_bytes_from(hay, needle, pos) {
            None => {
                assert(all =~= ints(r@));
                return r;
            }
            Some(i) => {
                let ghost before = ints(r@);
                let ghost next = match_offsets(hay@, needle@, i + step, (limit - r@.len() - 1) as nat);
                proof {
                    lemma_first_match_from(hay@, needle@, pos as int);
                    let rest = match_offsets(hay@, needle@, pos as int, (limit - r@.len()) as nat);
                    assert(rest =~= seq![i as int] + next);
                }
                r.push(i);
                proof { assert(ints(r@) =~= before.push(i as int)); assert(all =~= ints(r@) + next); }
                if step > hay.len() - i {
                    proof {
                        if (limit - r@.len()) as nat > 0 {
                            assert(first_match_from(hay@, needle@, i + step) is None);
                        }
                        assert(next.len() == 0);
                        assert(all =~= ints(r@));
                    }
                    return r;
                }
                pos = i + step;
            }
        }
    }
    proof { assert(all =~= ints(r@)); }
    r
}


/// Characters of context around a match in a search result.
pub const SNIPPET_CONTEXT: usize = 80;

/// The most results that a book search lists.
pub const MAX_SEARCH_RESULTS: usize = 200;

pub(crate) proof fn lemma_strip_len(html: Seq<char>)
    ensures
        strip_html_spec(html).len() <= html.len(),
{
    lemma_strip_from_len(html, 0, false);
}

/// The text searched in, from the plain text `plain`: as it is, or in lower
/// case when the search ignores case.
pub open spec fn searched_text(plain: Seq<char>, case_sensitive: bool) -> Seq<char> {
    if case_sensitive { plain } else { lowercase_spec(plain) }
}

/// The byte offsets, in the searched text, of the results for `query` in the
/// XHTML `raw`: at most `limit` successive matches.
pub open spec fn document_match_offsets(raw: Seq<char>, query: Seq<char>, case_sensitive: bool, limit: nat) -> Seq<int> {
    match_offsets(
        encode_utf8(searched_text(strip_html_spec(raw), case_sensitive)),
        encode_utf8(searched_text(query, case_sensitive)),
        0,
        limit,
    )
}

/// Snippets of at most `limit` matches of `query` in the plain text of the
/// XHTML document `raw`, in order, ignoring case unless `case_sensitive`.
pub fn document_match_snippets(raw: &str, query: &str, case_sensitive: bool, limit: usize) -> (r: Vec<String>)
    requires
        forall|k: int| 0 <= k < document_match_offsets(raw@, query@, case_sensitive, limit as nat).len() ==>
            chars_before_byte(strip_html_spec(raw@), #[trigger] document_match_offsets(raw@, query@, case_sensitive, limit as nat)[k])
                + query@.len() + SNIPPET_CONTEXT / 2 <= usize::MAX,
    ensures
        r@.len() == document_match_offsets(raw@, query@, case_sensitive, limit as nat).len(),
        forall|k: int| 0 <= k < r@.len() ==> (#[trigger] r@[k])@ == snippet_spec(
            strip_html_spec(raw@),
            document_match_offsets(raw@, query@, case_sensitive, limit as nat)[k],
            query@.len() as int,
            SNIPPET_CONTEXT as int,
        ),
{
    let plain = strip_html_for_search(raw);
    let query_chars = query.unicode_len();
    let offsets = if case_sensitive {
        match_offsets_exec(plain.as_str().as_bytes(), query.as_bytes(), limit)
    } else {
        let hay = to_lowercase(plain.as_str());
        let needle = to_lowercase(query);
        match_offsets_exec(hay.as_str().as_bytes(), needle.as_str().as_bytes(), limit)
    };
    let ghost offs = document_match_offsets(raw@, query@, case_sensitive, limit as nat);
    let mut r: Vec<String> = Vec::new();
    let mut k: usize = 0;
    while k < offsets.len()
        invariant
            ints(offsets@) == offs,
            plain@ == strip_html_spec(raw@),
            forall|m: int| 0 <= m < offs.len() ==>
                chars_before_byte(plain@, #[trigger] offs[m]) + query_chars + SNIPPET_CONTEXT / 2 <= usize::MAX,
            query_chars == query@.len(),
            k <= offsets@.len(),
            r@.len() == k,
            forall|m: int| 0 <= m < k ==> (#[trigger] r@[m])@ == snippet_spec(plain@, offs[m], query_chars as int, SNIPPET_CONTEXT as int),
        decreases offsets@.len() - k,
    {
        proof {
            assert(offs[k as int] == offsets@[k as int] as int);
            assert(chars_before_byte(plain@, offs[k as int]) + query_chars + SNIPPET_CONTEXT / 2 <= usize::MAX);
        }
        let snippet = build_snippet(plain.as_str(), offsets[k], query_chars, SNIPPET_CONTEXT);
        r.push(snippet);
        k = k + 1;
    }
    r
}

/// The index of the character that starts at byte `b` of `chars`, if one
/// does (the end counts as a start).
fn char_at_byte(chars: &Vec<char>, b: usize) -> (r: Option<usize>)
    ensures
        match r {
            Some(k) => k <= chars@.len() && byte_offset(chars@, k as int) == b,
            None => forall|m: int| 0 <= m <= chars@.len() ==> byte_offset(chars@, m) != b,
        },
{
    let mut k: usize = 0;
    let mut pos: usize = 0;
    while k < chars.len() && pos < b
        invariant
            k <= chars@.len(),
            pos == byte_offset(chars@, k as int),
            pos <= b || k == 0,
            forall|m: int| 0 <= m < k ==> byte_offset(chars@, m) < b,
        decreases chars@.len() - k,
    {
        proof {
            lemma_byte_offset_step(chars@, k as int);
        }
        let w = width_of(chars[k]);
        if w > b - pos {
            proof {
                assert forall|m: int| 0 <= m <= chars@.len() implies byte_offset(chars@, m) != b by {
                    if m > k {
                        lemma_byte_offset_mono(chars@, k + 1, m);
                    }
                }
            }
            return None;
        }
        pos = pos + w;
        k = k + 1;
    }
    if pos == b {
        Some(k)
    } else {
        proof {
            assert forall|m: int| 0 <= m <= chars@.len() implies byte_offset(chars@, m) != b by {
                if m > k {
                    lemma_byte_offset_strict(chars@, k as int, m);
                }
            }
        }
        None
    }
}

/// Some character of `s` starts at byte `b` (or `b` is its end).
pub open spec fn starts_char(s: Seq<char>, b: int) -> bool {
    exists|k: int| 0 <= k <= s.len() && byte_offset(s, k) == b
}

/// The characters that a match of `query_len` characters at byte `b` of
/// `raw` covers: from the number of characters before `b`.
pub fn match_char_range(raw: &str, b: usize, query_len: usize) -> (r: (usize, usize))
    requires
        starts_char(raw@, b as int),
        raw@.len() + query_len <= usize::MAX,
    ensures
        byte_offset(raw@, r.0 as int) == b,
        r.0 <= raw@.len(),
        r.1 == r.0 + query_len,
{
    let chars = collect_chars(raw);
    match char_at_byte(&chars, b) {
        Some(k) => (k, k + query_len),
        None => {
            proof {
                let k = choose|k: int| 0 <= k <= raw@.len() && byte_offset(raw@, k) == b as int;
                assert(byte_offset(chars@, k) != b);
            }
            (0, query_len)
        },
    }
}

/// The byte at which the first match of `query` starts in `raw`, both
/// compared as they are or in lower case.
pub open spec fn first_match_byte(raw: Seq<char>, query: Seq<char>, case_sensitive: bool) -> Option<int> {
    first_match_from(encode_utf8(searched_text(raw, case_sensitive)), encode_utf8(searched_text(query, case_sensitive)), 0)
}

/// The characters of the first match of `query` in the editor text `raw`,
/// to select it: its start and its end, in characters. Nothing when there is
/// no match, or when the match found in the lower-cased text does not start
/// on a character of `raw` (lower-casing changed the byte lengths).
pub fn first_match_range(raw: &str, query: &str, case_sensitive: bool) -> (r: Option<(usize, usize)>)
    requires
        raw@.len() + query@.len() <= usize::MAX,
    ensures
        match first_match_byte(raw@, query@, case_sensitive) {
            Some(p) => if starts_char(raw@, p) {
                r is Some && byte_offset(raw@, r->Some_0.0 as int) == p && r->Some_0.0 <= raw@.len()
                    && r->Some_0.1 == r->Some_0.0 + query@.len()
            } else {
                r is None
            },
            None => r is None,
        },
{
    let found = if case_sensitive {
        find_bytes_from(raw.as_bytes(), query.as_bytes(), 0)
    } else {
        let hay = to_lowercase(raw);
        let needle = to_lowercase(query);
        find_bytes_from(hay.as_str().as_bytes(), needle.as_str().as_bytes(), 0)
    };
    match found {
        None => None,
        Some(p) => {
            let chars = collect_chars(raw);
            match char_at_byte(&chars, p) {
                None => None,
                Some(_) => Some(match_char_range(raw, p, query.unicode_len())),
            }
        },
    }
}

/// `chars_before_byte` counts the characters before the byte at which a
/// character starts.
proof fn lemma_chars_before_char_start(s: Seq<char>, p: int)
    requires
        0 <= p <= s.len(),
    ensures
        chars_before_byte(s, byte_offset(s, p) as int) == p,
{
    let b = byte_offset(s, p) as int;
    assert(0 <= p <= s.len() && byte_offset(s, p) == b);
    let c = choose|k: int| 0 <= k <= s.len() && byte_offset(s, k) == b;
    if c < p {
        lemma_byte_offset_strict(s, c, p);
    }
    if c > p {
        lemma_byte_offset_strict(s, p, c);
    }
}

/// A snippet is centred on the match by characters: for a match of `q`
/// characters that starts at the character `p` of `text` (at whatever byte
/// that character starts), the snippet shows the characters from `p - ctx/2`
/// to `p + q + ctx/2`, cut to the text, white space collapsed, with `…` on a
/// side where text was left out. The whole match lies in that window.
pub proof fn lemma_snippet_window(text: Seq<char>, p: int, q: int, ctx: int)
    requires
        0 <= p,
        p + q <= text.len(),
        0 <= q,
        0 <= ctx,
    ensures
        ({
            let start = if p >= ctx / 2 { p - ctx / 2 } else { 0 };
            let end = if p + q + ctx / 2 < text.len() { p + q + ctx / 2 } else { text.len() as int };
            &&& start <= p
            &&& p + q <= end
            &&& snippet_spec(text, byte_offset(text, p) as int, q, ctx)
                == (if start > 0 { "…"@ } else { Seq::empty() }) + collapse_whitespace(text.subrange(start, end))
                    + (if end < text.len() { "…"@ } else { Seq::empty() })
        }),
{
    lemma_chars_before_char_start(text, p);
}

proof fn lemma_name_run_of_name(name: Seq<char>, i: int)
    requires
        1 <= i <= name.len() + 1,
        forall|k: int| 0 <= k < name.len() ==> {
            let c = #[trigger] name[k];
            ('A' <= c && c <= 'Z') || ('a' <= c && c <= 'z') || ('0' <= c && c <= '9')
                || c == '#' || c == '_' || c == '-' || c == '.' || c == ':'
        },
    ensures
        name_run(seq!['&'] + name + seq![';'], i) == name.len() + 1 - i,
    decreases name.len() + 1 - i,
{
    let s = seq!['&'] + name + seq![';'];
    if i <= name.len() {
        lemma_name_run_of_name(name, i + 1);
        assert(s[i] == name[i - 1]);
    } else {
        assert(s[i] == ';');
    }
}

/// An entity reference whose name is made of letters, digits and the XML
/// name marks `#`, `_`, `-`, `.`, `:` is taken out whole and leaves a single
/// space.
pub proof fn lemma_entity_becomes_space(name: Seq<char>)
    requires
        name.len() > 0,
        forall|k: int| 0 <= k < name.len() ==> {
            let c = #[trigger] name[k];
            ('A' <= c && c <= 'Z') || ('a' <= c && c <= 'z') || ('0' <= c && c <= '9')
                || c == '#' || c == '_' || c == '-' || c == '.' || c == ':'
        },
    ensures
        strip_html_spec(seq!['&'] + name + seq![';']) == seq![' '],
{
    let s = seq!['&'] + name + seq![';'];
    let n = name.len() as int;
    assert(s.len() == n + 2);
    assert(s[n + 1] == ';');
    assert(name_run(s, n + 1) == 0);
    lemma_name_run_of_name(name, 1);
    assert(name_run(s, 1) == n);
    assert(s[0] == '&');
    assert(entity_at(s, 0));
    assert(strip_from(s, n + 2, false) == Seq::<char>::empty());
    assert(strip_from(s, 0, false) == seq![' '] + strip_from(s, n + 2, false));
    assert(seq![' '] + Seq::<char>::empty() =~= seq![' ']);
}

} // verus!
