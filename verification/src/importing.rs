use vstd::prelude::*;
use vstd::string::*;

use crate::history::texts;
use crate::manifest::{manifest_view, ManifestItem, ManifestItemView};
use crate::media::{mime_for_extension, mime_for_lower_extension};
use crate::numbers::{decimal, lemma_decimal_injective, lemma_pad_decimal_injective, pad_zeros, signed_decimal, usize_to_string, zero_pad, zero_pad_spec, i32_to_string};
use crate::paths::{path_extension, path_extension_spec, path_file_stem, path_file_stem_spec};
use crate::search::{lowercase_spec, to_lowercase};
use crate::strings::{concat_str, str_eq};

verus! {

broadcast use vstd::string::group_string_axioms;

/// The `k`-th id tried for an imported chapter: the base id first, then the
/// base id with `_2`, `_3`, ...
pub open spec fn id_candidate(base: Seq<char>, k: nat) -> Seq<char> {
    if k <= 1 { base } else { base + seq!['_'] + decimal(k) }
}

/// The href that a chapter of id `id` gets.
pub open spec fn chapter_href(id: Seq<char>) -> Seq<char> {
    "Text/"@ + id + ".xhtml"@
}

/// The id is taken: a resource has it, or a resource has the href it would
/// get.
pub open spec fn id_taken(m: Seq<ManifestItemView>, id: Seq<char>) -> bool {
    exists|j: int| 0 <= j < m.len() && ((#[trigger] m[j]).id == id || m[j].href == chapter_href(id))
}

proof fn lemma_cancel_prefix(a: Seq<char>, x: Seq<char>, y: Seq<char>)
    requires
        a + x == a + y,
    ensures
        x == y,
{
    assert(x =~= (a + x).subrange(a.len() as int, (a + x).len() as int));
    assert(y =~= (a + y).subrange(a.len() as int, (a + y).len() as int));
}

proof fn lemma_cancel_suffix(x: Seq<char>, y: Seq<char>, b: Seq<char>)
    requires
        x + b == y + b,
    ensures
        x == y,
{
    assert((x + b).len() == x.len() + b.len());
    assert((y + b).len() == y.len() + b.len());
    assert(x.len() == y.len());
    assert forall|i: int| 0 <= i < x.len() implies x[i] == y[i] by {
        assert((x + b)[i] == x[i]);
        assert((y + b)[i] == y[i]);
    }
    assert(x =~= y);
}

/// Different positions give different candidates.
proof fn lemma_candidate_injective(base: Seq<char>, k1: nat, k2: nat)
    requires
        1 <= k1,
        1 <= k2,
        id_candidate(base, k1) == id_candidate(base, k2),
    ensures
        k1 == k2,
{
    if k1 >= 2 && k2 >= 2 {
        assert(base + seq!['_'] + decimal(k1) =~= base + (seq!['_'] + decimal(k1)));
        assert(base + seq!['_'] + decimal(k2) =~= base + (seq!['_'] + decimal(k2)));
        lemma_cancel_prefix(base, seq!['_'] + decimal(k1), seq!['_'] + decimal(k2));
        lemma_cancel_prefix(seq!['_'], decimal(k1), decimal(k2));
        lemma_decimal_injective(k1, k2);
    } else if k1 >= 2 {
        assert(id_candidate(base, k1).len() > base.len());
    } else if k2 >= 2 {
        assert(id_candidate(base, k2).len() > base.len());
    }
}

/// An injective map from `0..n` into `0..b` needs `n <= b`.
proof fn lemma_pigeonhole(f: spec_fn(int) -> int, n: nat, b: nat)
    requires
        forall|i: int| 0 <= i < n ==> 0 <= #[trigger] f(i) < b,
        forall|i: int, j: int| 0 <= i < j < n ==> #[trigger] f(i) != #[trigger] f(j),
    ensures
        n <= b,
    decreases b,
{
    if n > 0 {
        if b == 0 {
            let z: int = 0;
            assert(0 <= z < n);
            assert(0 <= f(z) < b);
        } else {
            let last = f((n - 1) as int);
            let g = |i: int| if f(i) == b - 1 { last } else { f(i) };
            assert forall|i: int| 0 <= i < n - 1 implies 0 <= #[trigger] g(i) < b - 1 by {
                if f(i) == b - 1 {
                    assert(f(i) != f((n - 1) as int));
                }
            }
            assert forall|i: int, j: int| 0 <= i < j < n - 1 implies #[trigger] g(i) != #[trigger] g(j) by {
                assert(f(i) != f(j));
                assert(f(i) != f((n - 1) as int));
                assert(f(j) != f((n - 1) as int));
            }
            lemma_pigeonhole(g, (n - 1) as nat, (b - 1) as nat);
        }
    }
}

/// When the first `n` candidates are all taken, `n` is at most twice the
/// number of resources: each resource takes at most one by id and one by
/// href.
proof fn lemma_taken_bound(m: Seq<ManifestItemView>, base: Seq<char>, n: nat)
    requires
        forall|k: nat| 1 <= k <= n ==> id_taken(m, #[trigger] id_candidate(base, k)),
    ensures
        n <= 2 * m.len(),
{
    let taker = |i: int| {
        let c = id_candidate(base, (i + 1) as nat);
        let j = choose|j: int| 0 <= j < m.len() && ((#[trigger] m[j]).id == c || m[j].href == chapter_href(c));
        if m[j].id == c { 2 * j } else { 2 * j + 1 }
    };
    assert forall|i: int| 0 <= i < n implies 0 <= #[trigger] taker(i) < 2 * m.len() by {
        assert(id_taken(m, id_candidate(base, (i + 1) as nat)));
    }
    assert forall|i: int, j: int| 0 <= i < j < n implies #[trigger] taker(i) != #[trigger] taker(j) by {
        let ci = id_candidate(base, (i + 1) as nat);
        let cj = id_candidate(base, (j + 1) as nat);
        assert(id_taken(m, ci));
        assert(id_taken(m, cj));
        let a = choose|a: int| 0 <= a < m.len() && ((#[trigger] m[a]).id == ci || m[a].href == chapter_href(ci));
        let b = choose|b: int| 0 <= b < m.len() && ((#[trigger] m[b]).id == cj || m[b].href == chapter_href(cj));
        if taker(i) == taker(j) {
            assert(a == b);
            if m[a].id == ci {
                assert(m[b].id == cj);
            } else {
                assert(m[b].href == chapter_href(cj));
                assert(chapter_href(ci) =~= "Text/"@ + (ci + ".xhtml"@));
                assert(chapter_href(cj) =~= "Text/"@ + (cj + ".xhtml"@));
                lemma_cancel_prefix("Text/"@, ci + ".xhtml"@, cj + ".xhtml"@);
                lemma_cancel_suffix(ci, cj, ".xhtml"@);
            }
            lemma_candidate_injective(base, (i + 1) as nat, (j + 1) as nat);
        }
    }
    lemma_pigeonhole(taker, n, 2 * m.len());
}

fn is_taken(items: &Vec<ManifestItem>, id: &str) -> (r: bool)
    ensures
        r == id_taken(manifest_view(items@), id@),
{
    let ghost m = manifest_view(items@);
    let a = concat_str("Text/", id);
    let href = concat_str(a.as_str(), ".xhtml");
    let mut j: usize = 0;
    while j < items.len()
        invariant
            j <= items@.len(),
            m == manifest_view(items@),
            href@ == chapter_href(id@),
            forall|k: int| 0 <= k < j ==> !((#[trigger] m[k]).id == id@ || m[k].href == chapter_href(id@)),
        decreases items@.len() - j,
    {
        if str_eq(items[j].id.as_str(), id) || str_eq(items[j].href.as_str(), href.as_str()) {
            proof { assert(m[j as int].id == id@ || m[j as int].href == chapter_href(id@)); }
            return true;
        }
        proof { assert(m[j as int] == items@[j as int]@); }
        j = j + 1;
    }
    false
}

/// The id an imported chapter gets: the first candidate (the base id, then
/// `base_2`, `base_3`, ...) that no resource has as id or as the href it
/// would give.
pub fn unique_chapter_id(base: &str, items: &Vec<ManifestItem>) -> (r: String)
    requires
        2 * items@.len() + 2 <= usize::MAX,
    ensures
        exists|n: nat| 1 <= n && r@ == #[trigger] id_candidate(base@, n)
            && !id_taken(manifest_view(items@), r@)
            && forall|k: nat| 1 <= k < n ==> id_taken(manifest_view(items@), #[trigger] id_candidate(base@, k)),
{
    let ghost m = manifest_view(items@);
    let mut candidate = base.to_string();
    let mut n: usize = 1;
    loop
        invariant
            1 <= n <= 2 * items@.len() + 1,
            m == manifest_view(items@),
            2 * items@.len() + 2 <= usize::MAX,
            candidate@ == id_candidate(base@, n as nat),
            forall|k: nat| 1 <= k < n ==> id_taken(m, #[trigger] id_candidate(base@, k)),
        decreases 2 * items@.len() + 1 - n,
    {
        if !is_taken(items, candidate.as_str()) {
            proof { assert(!id_taken(m, id_candidate(base@, n as nat))); }
            return candidate;
        }
        proof {
            assert forall|k: nat| 1 <= k <= n implies id_taken(m, #[trigger] id_candidate(base@, k)) by {}
            lemma_taken_bound(m, base@, n as nat);
        }
        n = n + 1;
        let s = concat_str(base, "_");
        candidate = concat_str(s.as_str(), usize_to_string(n).as_str());
        proof { reveal_strlit("_"); }
    }
}

/// What an imported file becomes, by its extension.
#[derive(PartialEq, Eq, Structural, Clone, Copy)]
pub enum ImportKind {
    /// XHTML or HTML, imported as it is.
    Markup,
    /// Plain text, wrapped into XHTML.
    PlainText,
    /// Markdown, not supported yet: reported as an error.
    Markdown,
    /// Anything else: skipped.
    Skip,
}

/// The kind of an import by lower-cased extension.
pub open spec fn import_kind_spec(ext: Seq<char>) -> ImportKind {
    if ext == "xhtml"@ || ext == "html"@ { ImportKind::Markup }
    else if ext == "txt"@ { ImportKind::PlainText }
    else if ext == "md"@ { ImportKind::Markdown }
    else { ImportKind::Skip }
}

/// How a file is imported as a chapter: by its extension in lower case
/// (none counts as empty).
pub fn import_kind(path: &str) -> (r: ImportKind)
    ensures
        r == import_kind_spec(lowercase_spec(match path_extension_spec(path@) { Some(e) => e, None => ""@ })),
{
    let ext = match path_extension(path) {
        Some(e) => e,
        None => "".to_string(),
    };
    let lower = to_lowercase(ext.as_str());
    let l = lower.as_str();
    if str_eq(l, "xhtml") || str_eq(l, "html") {
        ImportKind::Markup
    } else if str_eq(l, "txt") {
        ImportKind::PlainText
    } else if str_eq(l, "md") {
        ImportKind::Markdown
    } else {
        ImportKind::Skip
    }
}

/// The error reported for a Markdown file.
pub const MARKDOWN_NOT_SUPPORTED: &'static str = "formato .md aún no implementado";

/// The stem of an imported file, used for its id and title (`capitulo` when
/// it has none).
pub fn import_stem(path: &str) -> (r: String)
    ensures
        r@ == (match path_file_stem_spec(path@) { Some(s) => s, None => "capitulo"@ }),
{
    match path_file_stem(path) {
        Some(s) => s,
        None => "capitulo".to_string(),
    }
}

/// `"s"` for a count other than one.
pub open spec fn plural(n: nat) -> Seq<char> {
    if n == 1 { ""@ } else { "s"@ }
}

fn plural_exec(n: usize) -> (r: &'static str)
    ensures
        r@ == plural(n as nat),
{
    if n == 1 { "" } else { "s" }
}

/// The heading of the import summary.
pub fn import_summary_heading(imported: usize, errors: usize) -> (r: &'static str)
    ensures
        r@ == (if errors == 0 { "Importación completada"@ }
            else if imported == 0 { "Importación fallida"@ }
            else { "Importación con advertencias"@ }),
{
    if errors == 0 {
        "Importación completada"
    } else if imported == 0 {
        "Importación fallida"
    } else {
        "Importación con advertencias"
    }
}

/// The success line of the import summary.
pub fn imported_text(imported: usize) -> (r: String)
    ensures
        r@ == decimal(imported as nat) + " capítulo"@ + plural(imported as nat) + " importado"@
            + plural(imported as nat) + " correctamente."@,
{
    let a = concat_str(usize_to_string(imported).as_str(), " capítulo");
    let b = concat_str(a.as_str(), plural_exec(imported));
    let c = concat_str(b.as_str(), " importado");
    let d = concat_str(c.as_str(), plural_exec(imported));
    concat_str(d.as_str(), " correctamente.")
}

/// The heading of the error list of the import summary.
pub fn import_errors_text(errors: usize) -> (r: String)
    ensures
        r@ == decimal(errors as nat) + " error"@ + plural(errors as nat) + ":"@,
{
    let a = concat_str(usize_to_string(errors).as_str(), " error");
    let b = concat_str(a.as_str(), plural_exec(errors));
    concat_str(b.as_str(), ":")
}

/// The id of the `i`-th new chapter: the prefix, then the number zero-padded
/// to `digits` (`format!("{}{:0width$}", prefix, n)`).
pub open spec fn new_chapter_id(prefix: Seq<char>, n: int, digits: nat) -> Seq<char> {
    prefix + zero_pad_spec(n, digits)
}

/// The content of a new chapter numbered `n`.
pub open spec fn new_chapter_content(n: int) -> Seq<char> {
    "<h1>Capítulo "@ + signed_decimal(n) + "</h1>"@
}

/// The chapters that the "add chapters" dialog creates: `quantity` of them,
/// numbered from `start`, each with its id and its content; nothing when the
/// prefix is empty or the quantity is not positive.
pub fn new_chapters(prefix: &str, quantity: i32, start: i32, digits: usize) -> (r: Vec<(String, String)>)
    requires
        quantity <= 0 || start + quantity - 1 <= i32::MAX,
    ensures
        (prefix@.len() == 0 || quantity <= 0) ==> r@.len() == 0,
        (prefix@.len() > 0 && quantity > 0) ==> r@.len() == quantity,
        forall|i: int| 0 <= i < r@.len() ==> {
            &&& (#[trigger] r@[i]).0@ == new_chapter_id(prefix@, start + i, digits as nat)
            &&& r@[i].1@ == new_chapter_content(start + i)
        },
{
    let mut r: Vec<(String, String)> = Vec::new();
    if prefix.unicode_len() == 0 || quantity <= 0 {
        return r;
    }
    let mut i: i32 = 0;
    while i < quantity
        invariant
            0 <= i <= quantity,
            quantity <= 0 || start + quantity - 1 <= i32::MAX,
            r@.len() == i,
            forall|k: int| 0 <= k < i ==> {
                &&& (#[trigger] r@[k]).0@ == new_chapter_id(prefix@, start + k, digits as nat)
                &&& r@[k].1@ == new_chapter_content(start + k)
            },
        decreases quantity - i,
    {
        let n = start + i;
        let id = concat_str(prefix, zero_pad(n, digits).as_str());
        let a = concat_str("<h1>Capítulo ", i32_to_string(n).as_str());
        let content = concat_str(a.as_str(), "</h1>");
        r.push((id, content));
        i = i + 1;
    }
    r
}

/// New chapters get different ids when numbered from zero up.
pub proof fn lemma_new_chapter_ids_distinct(prefix: Seq<char>, a: int, b: int, digits: nat)
    requires
        0 <= a < b,
    ensures
        new_chapter_id(prefix, a, digits) != new_chapter_id(prefix, b, digits),
{
    if new_chapter_id(prefix, a, digits) == new_chapter_id(prefix, b, digits) {
        lemma_cancel_prefix(prefix, zero_pad_spec(a, digits), zero_pad_spec(b, digits));
        lemma_pad_decimal_injective(a as nat, b as nat, digits);
    }
}

/// Where an imported resource goes, and its media type: `folder/name`,
/// typed by the extension of the source; nothing when the manifest already
/// has that href.
pub fn import_target(folder: &str, name: &str, source_ext: &str, items: &Vec<ManifestItem>) -> (r: Option<(String, &'static str)>)
    ensures
        ({
            let href = folder@ + seq!['/'] + name@;
            if exists|j: int| 0 <= j < items@.len() && (#[trigger] items@[j]).href@ == href {
                r is None
            } else {
                r is Some && r->Some_0.0@ == href && r->Some_0.1@ == mime_for_lower_extension(lowercase_spec(source_ext@))
            }
        }),
{
    proof { reveal_strlit("/"); }
    let a = concat_str(folder, "/");
    let href = concat_str(a.as_str(), name);
    let mut j: usize = 0;
    while j < items.len()
        invariant
            j <= items@.len(),
            href@ == folder@ + seq!['/'] + name@,
            forall|k: int| 0 <= k < j ==> (#[trigger] items@[k]).href@ != href@,
        decreases items@.len() - j,
    {
        if str_eq(items[j].href.as_str(), href.as_str()) {
            proof { assert(items@[j as int].href@ == href@); }
            return None;
        }
        j = j + 1;
    }
    Some((href, mime_for_extension(source_ext)))
}

/// What a new resource of a media type starts with: a chapter (added to the
/// reading order) or a stylesheet; other types create nothing.
pub fn new_resource_content(mime: &str) -> (r: Option<(&'static str, bool)>)
    ensures
        mime@ == "application/xhtml+xml"@ ==> r == Some(("<h1>Nuevo Capítulo</h1>", true)),
        mime@ != "application/xhtml+xml"@ && mime@ == "text/css"@ ==> r == Some(("/* Nuevos estilos */", false)),
        mime@ != "application/xhtml+xml"@ && mime@ != "text/css"@ ==> r is None,
{
    if str_eq(mime, "application/xhtml+xml") {
        Some(("<h1>Nuevo Capítulo</h1>", true))
    } else if str_eq(mime, "text/css") {
        Some(("/* Nuevos estilos */", false))
    } else {
        None
    }
}

/// The title of the "add resource" dialog.
pub fn add_resource_title(label: &str) -> (r: String)
    ensures
        r@ == "Agregar "@ + label@,
{
    concat_str("Agregar ", label)
}

/// The language of a new project: the one given, else `es`; nothing is
/// created without a title and a folder.
pub fn new_project_language(title: &str, lang: &str, folder: &str) -> (r: Option<String>)
    ensures
        (title@.len() == 0 || folder@.len() == 0) ==> r is None,
        (title@.len() > 0 && folder@.len() > 0) ==> r is Some
            && r->Some_0@ == (if lang@.len() == 0 { "es"@ } else { lang@ }),
{
    if title.unicode_len() == 0 || folder.unicode_len() == 0 {
        return None;
    }
    if lang.unicode_len() == 0 { Some("es".to_string()) } else { Some(lang.to_string()) }
}

/// The id proposed for the second half of a split chapter.
pub fn split_new_id(source_id: &str) -> (r: String)
    ensures
        r@ == source_id@ + "_b"@,
{
    concat_str(source_id, "_b")
}

/// A chapter split is carried out when both ids are given; an empty title is
/// no title.
pub fn split_request(new_id: &str, split_id: &str, title: &str) -> (r: Option<Option<String>>)
    ensures
        (new_id@.len() == 0 || split_id@.len() == 0) ==> r is None,
        (new_id@.len() > 0 && split_id@.len() > 0) ==> r is Some
            && (title@.len() == 0 ==> r->Some_0 is None)
            && (title@.len() > 0 ==> r->Some_0 is Some && r->Some_0->Some_0@ == title@),
{
    if new_id.unicode_len() == 0 || split_id.unicode_len() == 0 {
        return None;
    }
    if title.unicode_len() == 0 { Some(None) } else { Some(Some(title.to_string())) }
}

} // verus!
