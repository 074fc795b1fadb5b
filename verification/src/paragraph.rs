use vstd::prelude::*;
use vstd::string::*;
use vstd::utf8::*;
use crate::pattern::{span_in, spans_in};

use crate::offsets::{byte_offset, char_offset_to_byte, text_offset_in_xhtml_fragment, xhtml_text_offset};
use crate::pattern::{regex_compile_outcome, regex_captures, regex_captures_all, regex_find_spans, regex_first_span, compile_pattern, captures, captures_all, find_spans, first_span};
use crate::strings::{byte_slice, byte_substring};

verus! {

broadcast use vstd::string::group_string_axioms;

/// Pattern of an `id` attribute, with the value in group 1 (double quotes) or
/// group 2 (single quotes).
pub const ID_ATTR_PATTERN: &'static str = r#"(?is)\bid\s*=\s*(?:"([^"]+)"|'([^']+)')"#;

/// Pattern of an opening `<p>` tag.
pub const PARAGRAPH_OPEN_PATTERN: &'static str = r#"(?is)<p\b[^>]*>"#;

/// Pattern of a closing `</p>` tag.
pub const PARAGRAPH_CLOSE_PATTERN: &'static str = r#"(?is)</p\s*>"#;

/// The group with index `k` of `groups`, when there is one and it took part.
pub open spec fn group_at(groups: Seq<Option<(usize, usize)>>, k: int) -> Option<(usize, usize)> {
    if 0 <= k < groups.len() { groups[k] } else { None }
}

/// The value of the `id` attribute of `tag`: the first match of
/// `ID_ATTR_PATTERN`, group 1 or else group 2; `None` when the pattern does
/// not compile or nothing matches.
pub open spec fn id_attr_spec(tag: Seq<char>) -> Option<Seq<char>> {
    match regex_compile_outcome(ID_ATTR_PATTERN@) {
        Err(_) => None,
        Ok(_) => match regex_captures(ID_ATTR_PATTERN@, tag) {
            None => None,
            Some(g) => match (if group_at(g, 1) is Some { group_at(g, 1) } else { group_at(g, 2) }) {
                None => None,
                Some(sp) => Some(byte_slice(tag, sp.0 as int, sp.1 as int)),
            },
        },
    }
}

/// The value of the `id` attribute in `tag`.
pub fn extract_id_attr(tag: &str) -> (r: Option<String>)
    ensures
        match id_attr_spec(tag@) {
            None => r is None,
            Some(v) => r is Some && r->Some_0@ == v,
        },
{
    let re = match compile_pattern(ID_ATTR_PATTERN) {
        Ok(re) => re,
        Err(_) => { return None; }
    };
    let caps = match captures(&re, tag) {
        Some(c) => c,
        None => { return None; }
    };
    let g1: Option<(usize, usize)> = if 1 < caps.len() { caps[1] } else { None };
    let g = if g1.is_some() { g1 } else if 2 < caps.len() { caps[2] } else { None };
    match g {
        None => None,
        Some(sp) => {
            proof {
                let k: int = if g1.is_some() { 1 } else { 2 };
                assert(caps@[k] is Some);
            }
            Some(byte_substring(tag, sp.0, sp.1).to_string())
        }
    }
}


/// Message when the paragraph under the cursor has no `id` attribute.
pub const NO_PARAGRAPH_ID_MESSAGE: &'static str = "El párrafo bajo el cursor no tiene atributo id.";

/// Message when the cursor stands inside a tag of the paragraph.
pub const CURSOR_IN_TAG_MESSAGE: &'static str = "El cursor está dentro de una etiqueta XHTML; ponelo en texto del párrafo.";

/// Message when no paragraph contains the cursor.
pub const NO_PARAGRAPH_MESSAGE: &'static str = "No encontré un <p id=\"...\"> que contenga el cursor.";

/// Where to split a paragraph: its `id` and the number of text units before
/// the cursor inside it.
pub struct ParagraphSplitTarget {
    pub paragraph_id: String,
    pub text_offset: usize,
}

/// Looks through the opening `<p>` tags `spans` of `text` from index `k` on
/// for the paragraph that holds the byte `cursor`: the first one that opens at
/// or before the cursor and whose first following `</p>` starts at or after it.
pub open spec fn split_scan(text: Seq<char>, cursor: int, spans: Seq<(usize, usize)>, k: int) -> Result<(Seq<char>, nat), Seq<char>>
    decreases spans.len() - k,
{
    if k < 0 || k >= spans.len() {
        Err(NO_PARAGRAPH_MESSAGE@)
    } else if spans[k].1 > cursor {
        Err(NO_PARAGRAPH_MESSAGE@)
    } else {
        let s = spans[k].0 as int;
        let e = spans[k].1 as int;
        let total = encode_utf8(text).len() as int;
        match regex_first_span(PARAGRAPH_CLOSE_PATTERN@, byte_slice(text, e, total)) {
            None => split_scan(text, cursor, spans, k + 1),
            Some(c) => {
                let close = e + c.0;
                if cursor > close {
                    split_scan(text, cursor, spans, k + 1)
                } else {
                    match id_attr_spec(byte_slice(text, s, e)) {
                        None => Err(NO_PARAGRAPH_ID_MESSAGE@),
                        Some(id) => match xhtml_text_offset(byte_slice(text, e, close), cursor - e) {
                            None => Err(CURSOR_IN_TAG_MESSAGE@),
                            Some(n) => Ok((id, n)),
                        },
                    }
                }
            },
        }
    }
}

/// The paragraph split target for the cursor at character `cursor` of `text`,
/// or the message of the error.
pub open spec fn split_target_spec(text: Seq<char>, cursor: int) -> Result<(Seq<char>, nat), Seq<char>> {
    let cb = byte_offset(text, if cursor < text.len() { cursor } else { text.len() as int }) as int;
    match regex_compile_outcome(PARAGRAPH_OPEN_PATTERN@) {
        Err(m) => Err(m),
        Ok(_) => match regex_compile_outcome(PARAGRAPH_CLOSE_PATTERN@) {
            Err(m) => Err(m),
            Ok(_) => split_scan(text, cb, regex_find_spans(PARAGRAPH_OPEN_PATTERN@, text), 0),
        },
    }
}

/// Finds the `<p id="...">` that holds the cursor at character
/// `cursor_char_offset` of `text`, and the text offset of the cursor in it.
pub fn find_paragraph_split_target(text: &str, cursor_char_offset: usize) -> (r: Result<ParagraphSplitTarget, String>)
    ensures
        match split_target_spec(text@, cursor_char_offset as int) {
            Ok((id, n)) => r is Ok && r->Ok_0.paragraph_id@ == id && r->Ok_0.text_offset == n,
            Err(m) => r is Err && r->Err_0@ == m,
        },
{
    let total = text.as_bytes().len();
    let cursor_byte = char_offset_to_byte(text, cursor_char_offset);
    let p_re = match compile_pattern(PARAGRAPH_OPEN_PATTERN) {
        Ok(re) => re,
        Err(e) => { return Err(e); }
    };
    let close_re = match compile_pattern(PARAGRAPH_CLOSE_PATTERN) {
        Ok(re) => re,
        Err(e) => { return Err(e); }
    };
    let spans = find_spans(&p_re, text);
    let ghost cb = cursor_byte as int;
    let mut k: usize = 0;
    while k < spans.len()
        invariant
            total == text.spec_bytes().len(),
            spans@ == regex_find_spans(PARAGRAPH_OPEN_PATTERN@, text@),
            spans_in(text.spec_bytes(), spans@),
            close_re.source() == PARAGRAPH_CLOSE_PATTERN@,
            k <= spans@.len(),
            split_target_spec(text@, cursor_char_offset as int) == split_scan(text@, cb, spans@, k as int),
            cb == cursor_byte,
        decreases spans@.len() - k,
    {
        let (s, e) = spans[k];
        proof { assert(span_in(text.spec_bytes(), spans@[k as int])); }
        if e > cursor_byte {
            return Err(NO_PARAGRAPH_MESSAGE.to_string());
        }
        proof { encode_utf8_valid_utf8(text@); is_char_boundary_start_end_of_seq(text.spec_bytes()); }
        let after_open = byte_substring(text, e, total);
        match first_span(&close_re, after_open) {
            None => {}
            Some(c) => {
                let close_byte = e + c.0;
                if cursor_byte <= close_byte {
                    let tag = byte_substring(text, s, e);
                    let paragraph_id = match extract_id_attr(tag) {
                        Some(id) => id,
                        None => { return Err(NO_PARAGRAPH_ID_MESSAGE.to_string()); }
                    };
                    proof {
                        encode_utf8_valid_utf8(after_open@);
                        is_char_boundary_start_end_of_seq(after_open.spec_bytes());
                    }
                    let inner = byte_substring(after_open, 0, c.0);
                    proof {
                        assert(text.spec_bytes().subrange(e as int, close_byte as int) =~= after_open.spec_bytes().subrange(0, c.0 as int));
                    }
                    let relative_cursor = cursor_byte - e;
                    let text_offset = match text_offset_in_xhtml_fragment(inner, relative_cursor) {
                        Some(n) => n,
                        None => { return Err(CURSOR_IN_TAG_MESSAGE.to_string()); }
                    };
                    proof {
                        let total_i = encode_utf8(text@).len() as int;
                        assert(after_open@ == byte_slice(text@, e as int, total_i));
                        assert(regex_first_span(PARAGRAPH_CLOSE_PATTERN@, byte_slice(text@, e as int, total_i)) == Some(c));
                        assert(inner@ == byte_slice(text@, e as int, close_byte as int));
                        assert(tag@ == byte_slice(text@, s as int, e as int));
                        assert(id_attr_spec(byte_slice(text@, s as int, e as int)) == Some(paragraph_id@));
                        assert(xhtml_text_offset(byte_slice(text@, e as int, close_byte as int), cb - e) == Some(text_offset as nat));
                        assert(spans@[k as int].1 <= cb);
                        assert(split_scan(text@, cb, spans@, k as int) == Ok::<(Seq<char>, nat), Seq<char>>((paragraph_id@, text_offset as nat)));
                    }
                    return Ok(ParagraphSplitTarget { paragraph_id, text_offset });
                }
            }
        }
        k = k + 1;
    }
    Err(NO_PARAGRAPH_MESSAGE.to_string())
}

/// Pattern of a double-quoted `id` attribute, the value in group 1.
pub const SPLIT_ID_PATTERN: &'static str = r#"id="([^"]+)""#;

/// The id proposed as the split point of a chapter: the value of the last
/// double-quoted `id` attribute before the cursor (group 1 of the last
/// match), or nothing when there is none.
pub open spec fn last_id_spec(before_cursor: Seq<char>) -> Seq<char> {
    let all = regex_captures_all(SPLIT_ID_PATTERN@, before_cursor);
    if all.len() == 0 {
        Seq::empty()
    } else {
        match group_at(all.last(), 1) {
            Some(sp) => byte_slice(before_cursor, sp.0 as int, sp.1 as int),
            None => Seq::empty(),
        }
    }
}

/// The id proposed as the split point for a chapter split at the cursor,
/// from the text before it. Group 1 takes part in every match of the
/// pattern; were it missing, the proposal would be empty. The error is that
/// of the pattern, should it fail to compile.
pub fn split_point_id(before_cursor: &str) -> (r: Result<String, String>)
    ensures
        match regex_compile_outcome(SPLIT_ID_PATTERN@) {
            Ok(_) => r is Ok && r->Ok_0@ == last_id_spec(before_cursor@),
            Err(e) => r is Err && r->Err_0@ == e,
        },
{
    let re = match compile_pattern(SPLIT_ID_PATTERN) {
        Ok(re) => re,
        Err(e) => return Err(e),
    };
    let all = captures_all(&re, before_cursor);
    if all.len() == 0 {
        return Ok(String::new());
    }
    let last = &all[all.len() - 1];
    let g: Option<(usize, usize)> = if 1 < last.len() { last[1] } else { None };
    match g {
        None => Ok(String::new()),
        Some(sp) => {
            proof { assert(last@[1] is Some); }
            Ok(byte_substring(before_cursor, sp.0, sp.1).to_string())
        },
    }
}

} // verus!
