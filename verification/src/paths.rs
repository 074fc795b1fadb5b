use vstd::prelude::*;
use vstd::string::*;

use crate::strings::{collect_chars, push_char, str_eq, string_from_chars, concat_str};

verus! {

broadcast use vstd::string::group_string_axioms;

/// The last component of a path (`Path::file_name`).
pub uninterp spec fn path_file_name_spec(p: Seq<char>) -> Option<Seq<char>>;

/// The path without its last component (`Path::parent`).
pub uninterp spec fn path_parent_spec(p: Seq<char>) -> Option<Seq<char>>;

/// Index of the last `.` of `name`, if it has one.
pub open spec fn last_dot(name: Seq<char>) -> Option<int>
    decreases name.len(),
{
    if name.len() == 0 {
        None
    } else if name.last() == '.' {
        Some(name.len() - 1)
    } else {
        last_dot(name.drop_last())
    }
}

/// The stem of a file name: the part before its final `.`; the whole name
/// when it has no `.`, or when its only `.` is the first character.
pub open spec fn name_stem(name: Seq<char>) -> Seq<char> {
    match last_dot(name) {
        Some(d) => if d > 0 { name.subrange(0, d) } else { name },
        None => name,
    }
}

/// The extension of a file name: the part after its final `.`; none when it
/// has no `.`, or when its only `.` is the first character.
pub open spec fn name_extension(name: Seq<char>) -> Option<Seq<char>> {
    match last_dot(name) {
        Some(d) => if d > 0 { Some(name.subrange(d + 1, name.len() as int)) } else { None },
        None => None,
    }
}

/// The file name without its extension (`Path::file_stem`), as the std
/// documentation states it: none without a file name, else the stem of the
/// file name.
pub open spec fn path_file_stem_spec(p: Seq<char>) -> Option<Seq<char>> {
    match path_file_name_spec(p) {
        Some(n) => Some(name_stem(n)),
        None => None,
    }
}

/// The extension of the file name (`Path::extension`), as the std
/// documentation states it.
pub open spec fn path_extension_spec(p: Seq<char>) -> Option<Seq<char>> {
    match path_file_name_spec(p) {
        Some(n) => name_extension(n),
        None => None,
    }
}

/// The path with its extension set to `ext` (`Path::with_extension`).
pub uninterp spec fn path_with_extension_spec(p: Seq<char>, ext: Seq<char>) -> Seq<char>;

/// Whether a path lies under a base path, comparing whole components
/// (`Path::starts_with`).
pub uninterp spec fn path_starts_with_spec(p: Seq<char>, base: Seq<char>) -> bool;

/// Whether the path `p` lies under `base` (`Path::starts_with`).
#[verifier::external_body]
pub(crate) fn path_starts_with(p: &str, base: &str) -> (r: bool)
    ensures
        r == path_starts_with_spec(p@, base@),
{
    std::path::Path::new(p).starts_with(base)
}

/// The last component of the path `p` (`Path::file_name`).
#[verifier::external_body]
pub(crate) fn path_file_name(p: &str) -> (r: Option<String>)
    ensures
        match path_file_name_spec(p@) {
            Some(n) => r is Some && r->Some_0@ == n,
            None => r is None,
        },
{
    std::path::Path::new(p).file_name().and_then(|n| n.to_str()).map(|n| n.to_string())
}

/// The parent of the path `p` (`Path::parent`).
#[verifier::external_body]
pub(crate) fn path_parent(p: &str) -> (r: Option<String>)
    ensures
        match path_parent_spec(p@) {
            Some(n) => r is Some && r->Some_0@ == n,
            None => r is None,
        },
{
    std::path::Path::new(p).parent().and_then(|n| n.to_str()).map(|n| n.to_string())
}

/// The file stem of the path `p` (`Path::file_stem`).
#[verifier::external_body]
pub(crate) fn path_file_stem(p: &str) -> (r: Option<String>)
    ensures
        match path_file_stem_spec(p@) {
            Some(n) => r is Some && r->Some_0@ == n,
            None => r is None,
        },
{
    std::path::Path::new(p).file_stem().and_then(|n| n.to_str()).map(|n| n.to_string())
}

/// The extension of the path `p` (`Path::extension`).
#[verifier::external_body]
pub(crate) fn path_extension(p: &str) -> (r: Option<String>)
    ensures
        match path_extension_spec(p@) {
            Some(n) => r is Some && r->Some_0@ == n,
            None => r is None,
        },
{
    std::path::Path::new(p).extension().and_then(|n| n.to_str()).map(|n| n.to_string())
}

/// The path `p` with the extension `ext` (`Path::with_extension`), for an
/// extension without a path separator (the std function panics on one).
#[verifier::external_body]
pub(crate) fn path_with_extension(p: &str, ext: &str) -> (r: String)
    requires
        !ext@.contains('/'),
        !ext@.contains('\\'),
    ensures
        r@ == path_with_extension_spec(p@, ext@),
{
    std::path::Path::new(p).with_extension(ext).to_string_lossy().to_string()
}

/// `name` joined under the directory `base` (`Path::join` with a relative
/// `name`): a `/` goes between them unless `base` is empty or ends in one.
pub open spec fn join_spec(base: Seq<char>, name: Seq<char>) -> Seq<char> {
    if base.len() == 0 || base.last() == '/' { base + name } else { base + seq!['/'] + name }
}

/// `name` (a relative path) joined under `base`.
pub fn join_path(base: &str, name: &str) -> (r: String)
    ensures
        r@ == join_spec(base@, name@),
{
    let chars = collect_chars(base);
    let mut s = base.to_string();
    if chars.len() > 0 && chars[chars.len() - 1] != '/' {
        push_char(&mut s, '/');
    }
    s.append(name);
    s
}

/// Name of the file that keeps a project's table-of-contents choices.
pub const NAV_STATE_FILE: &'static str = ".gutenair_nav.json";

/// The file under the project folder `project_path` that keeps the
/// table-of-contents choices.
pub fn nav_state_path(project_path: &str) -> (r: String)
    ensures
        r@ == join_spec(project_path@, NAV_STATE_FILE@),
{
    join_path(project_path, NAV_STATE_FILE)
}

/// `c` in lower case when it is an ASCII capital, else `c`.
pub open spec fn ascii_lower(c: char) -> char {
    if 'A' <= c && c <= 'Z' { ((c as u32) + 32) as char } else { c }
}

/// `a` and `b` are equal when ASCII letters are compared without case
/// (`str::eq_ignore_ascii_case`).
pub open spec fn eq_ignore_ascii_case_spec(a: Seq<char>, b: Seq<char>) -> bool {
    a.len() == b.len() && forall|i: int| 0 <= i < a.len() ==> ascii_lower(#[trigger] a[i]) == ascii_lower(b[i])
}

fn lower_char(c: char) -> (r: char)
    ensures
        r == ascii_lower(c),
{
    if 'A' <= c && c <= 'Z' {
        let u = (c as u32) + 32;
        proof { vstd::utf8::char_u32_cast(c, c as u32); }
        if u == 97 { 'a' } else if u == 98 { 'b' } else if u == 99 { 'c' } else if u == 100 { 'd' } else if u == 101 { 'e' }
        else if u == 102 { 'f' } else if u == 103 { 'g' } else if u == 104 { 'h' } else if u == 105 { 'i' } else if u == 106 { 'j' }
        else if u == 107 { 'k' } else if u == 108 { 'l' } else if u == 109 { 'm' } else if u == 110 { 'n' } else if u == 111 { 'o' }
        else if u == 112 { 'p' } else if u == 113 { 'q' } else if u == 114 { 'r' } else if u == 115 { 's' } else if u == 116 { 't' }
        else if u == 117 { 'u' } else if u == 118 { 'v' } else if u == 119 { 'w' } else if u == 120 { 'x' } else if u == 121 { 'y' }
        else { 'z' }
    } else {
        c
    }
}

/// Whether `a` and `b` are equal, ignoring the case of ASCII letters.
pub fn eq_ignore_ascii_case(a: &str, b: &str) -> (r: bool)
    ensures
        r == eq_ignore_ascii_case_spec(a@, b@),
{
    let x = collect_chars(a);
    let y = collect_chars(b);
    if x.len() != y.len() {
        return false;
    }
    let mut i: usize = 0;
    while i < x.len()
        invariant
            x@ == a@,
            y@ == b@,
            x@.len() == y@.len(),
            i <= x@.len(),
            forall|k: int| 0 <= k < i ==> ascii_lower(#[trigger] x@[k]) == ascii_lower(y@[k]),
        decreases x@.len() - i,
    {
        if lower_char(x[i]) != lower_char(y[i]) {
            return false;
        }
        i = i + 1;
    }
    true
}

} // verus!
