use vstd::prelude::*;
use vstd::utf8::*;
use vstd::string::*;
use crate::strings::collect_chars;
use vstd::std_specs::iter::IteratorSpec;

verus! {

broadcast use vstd::string::group_string_axioms;

/// Number of bytes that the UTF-8 encoding of `c` takes.
pub open spec fn char_width(c: char) -> nat {
    encode_scalar(c as u32).len()
}

/// Byte offset at which the character with index `k` of `s` starts.
pub open spec fn byte_offset(s: Seq<char>, k: int) -> nat {
    encode_utf8(s.take(k)).len()
}

proof fn lemma_encode_push(s: Seq<char>, c: char)
    ensures
        encode_utf8(s.push(c)) == encode_utf8(s) + encode_scalar(c as u32),
    decreases s.len(),
{
    if s.len() == 0 {
        assert(s.push(c).drop_first() =~= Seq::<char>::empty());
        assert(encode_utf8(Seq::<char>::empty()) =~= Seq::<u8>::empty());
        assert(encode_utf8(s) =~= Seq::<u8>::empty());
        assert(encode_utf8(s.push(c)) =~= encode_scalar(c as u32) + encode_utf8(Seq::<char>::empty()));
    } else {
        lemma_encode_push(s.drop_first(), c);
        assert(s.push(c).drop_first() =~= s.drop_first().push(c));
        assert(encode_utf8(s.push(c)) =~= encode_utf8(s) + encode_scalar(c as u32));
    }
}

/// Byte offsets grow with the character index.
pub proof fn lemma_byte_offset_mono(s: Seq<char>, i: int, j: int)
    requires
        0 <= i <= j <= s.len(),
    ensures
        byte_offset(s, i) <= byte_offset(s, j),
    decreases j - i,
{
    if i < j {
        lemma_byte_offset_mono(s, i, j - 1);
        assert(s.take(j - 1).push(s[j - 1]) =~= s.take(j));
        lemma_encode_push(s.take(j - 1), s[j - 1]);
    }
}

proof fn lemma_byte_offset_bounded(s: Seq<char>, i: int)
    requires
        0 <= i <= s.len(),
    ensures
        byte_offset(s, i) <= byte_offset(s, s.len() as int),
{
    lemma_byte_offset_mono(s, i, s.len() as int);
}

pub fn width_of(c: char) -> (w: usize)
    ensures
        w == char_width(c),
{
    let u = c as u32;
    if u <= 0x7F {
        1
    } else if u <= 0x7FF {
        2
    } else if u <= 0xFFFF {
        proof { char_is_scalar(c); }
        3
    } else {
        4
    }
}

/// Byte offset of the character with index `char_offset` in `text`, or the
/// byte length of `text` when it has no such character.
pub fn char_offset_to_byte(text: &str, char_offset: usize) -> (r: usize)
    ensures
        r == byte_offset(text@, if char_offset < text@.len() { char_offset as int } else { text@.len() as int }),
{
    let total = text.as_bytes().len();
    proof { lemma_byte_offset_bounded(text@, text@.len() as int); assert(text@.take(text@.len() as int) =~= text@); }
    let mut it = text.chars();
    let mut k: usize = 0;
    let mut pos: usize = 0;
    loop
        invariant
            it.remaining() == text@.skip(k as int),
            k <= text@.len(),
            k <= char_offset,
            pos == byte_offset(text@, k as int),
            total == byte_offset(text@, text@.len() as int),
        decreases text@.len() - k,
    {
        if k == char_offset {
            return pos;
        }
        match it.next() {
            None => {
                assert(text@.skip(k as int).len() == 0);
                return pos;
            }
            Some(c) => {
                let w = width_of(c);
                proof {
                    assert(c == text@[k as int]);
                    assert(text@.take(k as int).push(c) =~= text@.take(k + 1));
                    lemma_encode_push(text@.take(k as int), c);
                    lemma_byte_offset_mono(text@, k + 1, text@.len() as int);
                }
                pos = pos + w;
                k = k + 1;
            }
        }
    }
}


/// Index of the first occurrence of `c` in `s` at or after index `i`.
pub open spec fn find_char_from(s: Seq<char>, i: int, c: char) -> Option<int>
    decreases s.len() - i,
{
    if i < 0 || i >= s.len() {
        None
    } else if s[i] == c {
        Some(i)
    } else {
        find_char_from(s, i + 1, c)
    }
}

/// Adds `k` to the count inside `o`, keeping `None`.
pub open spec fn add_count(o: Option<nat>, k: nat) -> Option<nat> {
    match o {
        Some(n) => Some(n + k),
        None => None,
    }
}

/// Number of text units of the XHTML fragment `s` that start before the byte
/// `limit`, scanning from the character with index `i`.
///
/// A tag (`<` up to the next `>`) counts nothing, and is an error (`None`) when
/// it is not closed or ends after `limit`. An entity (`&` up to the next `;`)
/// that ends at or before `limit` counts one unit. Every other character,
/// including an `&` that opens no such entity, counts one unit. Reaching the
/// end of `s` before `limit` is an error.
pub open spec fn xhtml_units_from(s: Seq<char>, i: int, limit: int) -> Option<nat>
    decreases s.len() - i, 0int,
{
    if i < 0 || i > s.len() {
        None
    } else if byte_offset(s, i) >= limit {
        Some(0)
    } else if i == s.len() {
        None
    } else if s[i] == '<' {
        match find_char_from(s, i, '>') {
            None => None,
            Some(j) => if j < i || j >= s.len() || byte_offset(s, j + 1) > limit { None } else { xhtml_units_from(s, j + 1, limit) },
        }
    } else if s[i] == '&' && find_char_from(s, i, ';') is Some
        && byte_offset(s, find_char_from(s, i, ';')->0 + 1) <= limit
        && i <= find_char_from(s, i, ';')->0 < s.len() {
        add_count(xhtml_units_from(s, find_char_from(s, i, ';')->0 + 1, limit), 1)
    } else {
        add_count(xhtml_units_from(s, i + 1, limit), 1)
    }
}

/// Number of text units of the XHTML fragment `s` before the byte `limit`
/// (see `xhtml_units_from`).
pub open spec fn xhtml_text_offset(s: Seq<char>, limit: int) -> Option<nat> {
    xhtml_units_from(s, 0, limit)
}

proof fn lemma_find_char_from(s: Seq<char>, i: int, c: char)
    ensures
        find_char_from(s, i, c) matches Some(j) ==> (0 <= i <= j < s.len() && s[j] == c),
    decreases s.len() - i,
{
    if 0 <= i < s.len() && s[i] != c {
        lemma_find_char_from(s, i + 1, c);
    }
}

/// Each character takes at least one byte.
pub proof fn lemma_byte_offset_at_least_index(s: Seq<char>, i: int)
    requires
        0 <= i <= s.len(),
    ensures
        byte_offset(s, i) >= i,
    decreases i,
{
    if i > 0 {
        lemma_byte_offset_at_least_index(s, i - 1);
        assert(s.take(i - 1).push(s[i - 1]) =~= s.take(i));
        lemma_encode_push(s.take(i - 1), s[i - 1]);
    }
}

pub proof fn lemma_byte_offset_step(s: Seq<char>, i: int)
    requires
        0 <= i < s.len(),
    ensures
        byte_offset(s, i + 1) == byte_offset(s, i) + char_width(s[i]),
{
    assert(s.take(i).push(s[i]) =~= s.take(i + 1));
    lemma_encode_push(s.take(i), s[i]);
}

/// The index of the first `target` at or after index `from` in `chars`, with
/// its byte offset; when there is none, the end of `chars` with the byte
/// length.
fn scan_to(chars: &Vec<char>, from: usize, from_byte: usize, target: char, total: usize) -> (r: (usize, usize))
    requires
        from <= chars@.len(),
        from_byte == byte_offset(chars@, from as int),
        total == byte_offset(chars@, chars@.len() as int),
    ensures
        from <= r.0 <= chars@.len(),
        r.1 == byte_offset(chars@, r.0 as int),
        r.0 < chars@.len() ==> find_char_from(chars@, from as int, target) == Some(r.0 as int),
        r.0 == chars@.len() ==> find_char_from(chars@, from as int, target) is None,
{
    let mut j = from;
    let mut q = from_byte;
    while j < chars.len() && chars[j] != target
        invariant
            from <= j <= chars@.len(),
            q == byte_offset(chars@, j as int),
            total == byte_offset(chars@, chars@.len() as int),
            find_char_from(chars@, from as int, target) == find_char_from(chars@, j as int, target),
        decreases chars@.len() - j,
    {
        proof {
            lemma_byte_offset_step(chars@, j as int);
            lemma_byte_offset_mono(chars@, j + 1, chars@.len() as int);
        }
        q = q + width_of(chars[j]);
        j = j + 1;
    }
    (j, q)
}

/// Number of text units (characters, with each entity counted once and tags
/// not counted) of the XHTML `fragment` before its byte offset `limit`; `None`
/// when `limit` falls inside a tag, after an unclosed tag, or past the end.
pub fn text_offset_in_xhtml_fragment(fragment: &str, limit: usize) -> (r: Option<usize>)
    ensures
        match xhtml_text_offset(fragment@, limit as int) {
            Some(n) => r is Some && r->Some_0 == n,
            None => r is None,
        },
{
    let total = fragment.as_bytes().len();
    let chars = collect_chars(fragment);
    let n = chars.len();
    proof {
        assert(fragment@.take(fragment@.len() as int) =~= fragment@);
    }
    let mut i: usize = 0;
    let mut p: usize = 0;
    let mut count: usize = 0;
    assert(fragment@.take(0) =~= Seq::<char>::empty());
    while p < limit
        invariant
            chars@ == fragment@,
            n == chars@.len(),
            i <= n,
            p == byte_offset(chars@, i as int),
            total == byte_offset(chars@, n as int),
            count <= i,
            xhtml_text_offset(chars@, limit as int) == add_count(xhtml_units_from(chars@, i as int, limit as int), count as nat),
        decreases n - i,
    {
        if i == n {
            return None;
        }
        proof {
            lemma_byte_offset_step(chars@, i as int);
            lemma_byte_offset_mono(chars@, i + 1, n as int);
            lemma_byte_offset_at_least_index(chars@, n as int);
        }
        let ch = chars[i];
        if ch == '<' {
            let (j, q) = scan_to(&chars, i, p, '>', total);
            if j == n {
                return None;
            }
            proof {
                lemma_find_char_from(chars@, i as int, '>');
                lemma_byte_offset_step(chars@, j as int);
                lemma_byte_offset_mono(chars@, j + 1, n as int);
                assert(char_width('>') == 1);
            }
            let next = q + 1;
            if next > limit {
                return None;
            }
            i = j + 1;
            p = next;
        } else if ch == '&' {
            let (j, q) = scan_to(&chars, i, p, ';', total);
            if j < n {
                proof {
                    lemma_find_char_from(chars@, i as int, ';');
                    lemma_byte_offset_step(chars@, j as int);
                    lemma_byte_offset_mono(chars@, j + 1, n as int);
                    assert(char_width(';') == 1);
                }
                if q + 1 <= limit {
                    count = count + 1;
                    i = j + 1;
                    p = q + 1;
                    continue;
                }
            }
            assert(char_width('&') == 1);
            count = count + 1;
            i = i + 1;
            p = p + 1;
        } else {
            count = count + 1;
            p = p + width_of(ch);
            i = i + 1;
        }
    }
    Some(count)
}

} // verus!
