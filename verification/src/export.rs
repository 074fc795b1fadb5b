use vstd::prelude::*;
use vstd::string::*;

use crate::manifest::{find_manifest_item, manifest_ids, manifest_view, ManifestItem, ManifestItemView};
use crate::history::texts;
use crate::paths::{eq_ignore_ascii_case, eq_ignore_ascii_case_spec, path_extension, path_extension_spec, path_file_name, path_file_name_spec, path_file_stem, path_file_stem_spec, path_with_extension, path_with_extension_spec};
use crate::selection::sel_view;
use crate::strings::{concat_str, str_eq};
use crate::toc::first_index;
use crate::selection::Entry;

verus! {

broadcast use vstd::string::group_string_axioms;

/// The label of a chapter in the export list: the stem of its href, or its
/// id.
pub open spec fn chapter_label(href: Seq<char>, id: Seq<char>) -> Seq<char> {
    match path_file_stem_spec(href) {
        Some(s) => s,
        None => id,
    }
}

/// The chapters of the spine that the manifest holds, in spine order, as
/// `(id, label)`.
pub open spec fn export_chapters_spec(spine: Seq<Seq<char>>, m: Seq<ManifestItemView>) -> Seq<Entry>
    decreases spine.len(),
{
    if spine.len() == 0 {
        Seq::empty()
    } else {
        let rest = export_chapters_spec(spine.drop_last(), m);
        let id = spine.last();
        match first_index(manifest_ids(m), id) {
            Some(j) => rest.push((id, chapter_label(m[j].href, id))),
            None => rest,
        }
    }
}

/// The chapters that the text export offers, in reading order.
pub fn export_chapters(spine: &Vec<String>, items: &Vec<ManifestItem>) -> (r: Vec<(String, String)>)
    ensures
        sel_view(r@) == export_chapters_spec(texts(spine@), manifest_view(items@)),
{
    let ghost sp = texts(spine@);
    let ghost m = manifest_view(items@);
    let mut r: Vec<(String, String)> = Vec::new();
    let mut i: usize = 0;
    while i < spine.len()
        invariant
            i <= spine@.len(),
            sp == texts(spine@),
            m == manifest_view(items@),
            sel_view(r@) == export_chapters_spec(sp.take(i as int), m),
        decreases spine@.len() - i,
    {
        proof {
            assert(sp.take(i + 1).drop_last() =~= sp.take(i as int));
            assert(sp.take(i + 1).last() == spine@[i as int]@);
        }
        let id = &spine[i];
        match find_manifest_item(items, id.as_str()) {
            Some(j) => {
                let label = match path_file_stem(items[j].href.as_str()) {
                    Some(s) => s,
                    None => id.clone(),
                };
                let ghost before = sel_view(r@);
                r.push((id.clone(), label));
                proof {
                    assert(m[j as int].href == items@[j as int].href@);
                    assert(sel_view(r@) =~= before.push((id@, chapter_label(m[j as int].href, id@))));
                }
            },
            None => {},
        }
        i = i + 1;
    }
    proof { assert(sp.take(spine@.len() as int) =~= sp); }
    r
}

/// The ids of the checked chapters, in order.
pub open spec fn checked_chapters(chapters: Seq<Entry>, checks: Seq<bool>) -> Seq<Seq<char>>
    decreases chapters.len(),
{
    if chapters.len() == 0 || checks.len() == 0 {
        Seq::empty()
    } else {
        let rest = checked_chapters(chapters.drop_last(), checks.drop_last());
        if checks.last() { rest.push(chapters.last().0) } else { rest }
    }
}

/// The ids of the chapters whose box is checked, in order (the export does
/// nothing when there is none).
pub fn selected_chapter_ids(chapters: &Vec<(String, String)>, checks: &Vec<bool>) -> (r: Vec<String>)
    requires
        checks@.len() == chapters@.len(),
    ensures
        texts(r@) == checked_chapters(sel_view(chapters@), checks@),
{
    let ghost cv = sel_view(chapters@);
    let mut r: Vec<String> = Vec::new();
    let mut i: usize = 0;
    while i < chapters.len()
        invariant
            i <= chapters@.len(),
            checks@.len() == chapters@.len(),
            cv == sel_view(chapters@),
            texts(r@) == checked_chapters(cv.take(i as int), checks@.take(i as int)),
        decreases chapters@.len() - i,
    {
        proof {
            assert(cv.take(i + 1).drop_last() =~= cv.take(i as int));
            assert(checks@.take(i + 1).drop_last() =~= checks@.take(i as int));
            assert(cv.take(i + 1).last() == cv[i as int]);
            assert(checks@.take(i + 1).last() == checks@[i as int]);
        }
        if checks[i] {
            let ghost before = texts(r@);
            r.push(chapters[i].0.clone());
            proof { assert(texts(r@) =~= before.push(chapters@[i as int].0@)); }
        }
        i = i + 1;
    }
    proof {
        assert(cv.take(chapters@.len() as int) =~= cv);
        assert(checks@.take(chapters@.len() as int) =~= checks@);
    }
    r
}

/// The file name that the EPUB export proposes: the book's title, else the
/// name of the project folder, else `libro`, with `.epub`.
pub open spec fn suggested_epub_name_spec(title: Option<Seq<char>>, project: Seq<char>) -> Seq<char> {
    let base = match title {
        Some(t) => t,
        None => match path_file_name_spec(project) {
            Some(n) => n,
            None => "libro"@,
        },
    };
    base + ".epub"@
}

/// The file name proposed for the exported EPUB.
pub fn suggested_epub_name(title: Option<&str>, project: &str) -> (r: String)
    ensures
        r@ == suggested_epub_name_spec(match title { Some(t) => Some(t@), None => None }, project@),
{
    let base = match title {
        Some(t) => t.to_string(),
        None => match path_file_name(project) {
            Some(n) => n,
            None => "libro".to_string(),
        },
    };
    concat_str(base.as_str(), ".epub")
}

/// Where the EPUB is written: the chosen path, with its extension set to
/// `epub` when it has another one or none.
pub open spec fn epub_output_spec(chosen: Seq<char>) -> Seq<char> {
    match path_extension_spec(chosen) {
        Some(e) => if e == "epub"@ { chosen } else { path_with_extension_spec(chosen, "epub"@) },
        None => path_with_extension_spec(chosen, "epub"@),
    }
}

/// The output path of the EPUB export for the path the user chose.
pub fn epub_output_path(chosen: &str) -> (r: String)
    ensures
        r@ == epub_output_spec(chosen@),
{
    proof {
        reveal_strlit("epub");
        assert forall|i: int| 0 <= i < "epub"@.len() implies "epub"@[i] != '/' && "epub"@[i] != '\\' by {}
    }
    match path_extension(chosen) {
        Some(e) => if str_eq(e.as_str(), "epub") { chosen.to_string() } else { path_with_extension(chosen, "epub") },
        None => path_with_extension(chosen, "epub"),
    }
}

/// Whether a path names an EPUB file (its extension is `epub`, any ASCII
/// case): such a path is unpacked before it is opened.
pub fn has_epub_extension(path: &str) -> (r: bool)
    ensures
        r == match path_extension_spec(path@) {
            Some(e) => eq_ignore_ascii_case_spec(e, "epub"@),
            None => false,
        },
{
    match path_extension(path) {
        Some(e) => eq_ignore_ascii_case(e.as_str(), "epub"),
        None => false,
    }
}

/// The folder name under which an EPUB is unpacked: its file stem, else
/// `epub`.
pub fn epub_cache_name(epub_path: &str) -> (r: String)
    ensures
        r@ == (match path_file_stem_spec(epub_path@) {
            Some(s) => s,
            None => "epub"@,
        }),
{
    match path_file_stem(epub_path) {
        Some(s) => s,
        None => "epub".to_string(),
    }
}

/// `s` with every backslash turned into a slash.
pub open spec fn unify_slashes(s: Seq<char>) -> Seq<char> {
    s.map_values(|c: char| if c == '\\' { '/' } else { c })
}

/// `s` without the slashes it starts with.
pub open spec fn trim_leading_slashes(s: Seq<char>) -> Seq<char>
    decreases s.len(),
{
    if s.len() > 0 && s[0] == '/' { trim_leading_slashes(s.drop_first()) } else { s }
}

/// The relative path of an archive entry: backslashes read as slashes, and
/// leading slashes dropped.
pub fn archive_entry_name(raw: &str) -> (r: String)
    ensures
        r@ == trim_leading_slashes(unify_slashes(raw@)),
{
    let chars = crate::strings::collect_chars(raw);
    let mut unified: Vec<char> = Vec::new();
    let mut i: usize = 0;
    while i < chars.len()
        invariant
            chars@ == raw@,
            i <= chars@.len(),
            unified@ == unify_slashes(raw@.take(i as int)),
        decreases chars@.len() - i,
    {
        let c = chars[i];
        unified.push(if c == '\\' { '/' } else { c });
        i = i + 1;
        proof { assert(unified@ =~= unify_slashes(raw@.take(i as int))); }
    }
    proof { assert(raw@.take(chars@.len() as int) =~= raw@); }
    let ghost u = unified@;
    let mut start: usize = 0;
    proof { assert(u.skip(0) =~= u); }
    while start < unified.len() && unified[start] == '/'
        invariant
            u == unified@,
            start <= unified@.len(),
            trim_leading_slashes(u.skip(start as int)) == trim_leading_slashes(u),
        decreases unified@.len() - start,
    {
        proof { assert(u.skip(start as int).drop_first() =~= u.skip(start + 1)); }
        start = start + 1;
    }
    crate::strings::char_range(&unified, start, unified.len())
}

/// Where an archive entry is written when a book is unpacked into `dest`:
/// `dest` joined with the entry's relative path. The entry is skipped when
/// that joined path does not start with `dest` component by component
/// (`Path::starts_with`, a lexical check: `..` components are not resolved,
/// so a name such as `../x` passes it).
pub fn entry_target(dest: &str, raw_name: &str) -> (r: Option<String>)
    ensures
        ({
            let out = crate::paths::join_spec(dest@, trim_leading_slashes(unify_slashes(raw_name@)));
            if crate::paths::path_starts_with_spec(out, dest@) { r is Some && r->Some_0@ == out } else { r is None }
        }),
{
    let name = archive_entry_name(raw_name);
    let out = crate::paths::join_path(dest, name.as_str());
    if crate::paths::path_starts_with(out.as_str(), dest) { Some(out) } else { None }
}

} // verus!
