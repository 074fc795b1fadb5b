use vstd::prelude::*;
use vstd::string::*;

use crate::labels::{book_reading_time, book_time_spec, chapter_reading_time, chapter_time_spec};
use crate::numbers::{decimal, format_number, group_thousands, usize_to_string};
use crate::strings::concat_str;

verus! {

broadcast use vstd::string::group_string_axioms;

/// The statistics of a chapter, with its reading time in whole seconds.
pub struct ChapterStats {
    pub word_count: usize,
    pub characters_no_spaces: usize,
    pub characters_with_spaces: usize,
    pub paragraph_count: usize,
    pub line_count: usize,
    pub total_file_size_chars: usize,
    pub reading_seconds: usize,
}

/// A number as the reports show it.
pub open spec fn shown(n: usize) -> Seq<char> {
    group_thousands(decimal(n as nat))
}

/// The rows of a chapter report: the "content" group and the "file" group,
/// each row a title and a value.
pub fn chapter_report(stats: &ChapterStats) -> (r: (Vec<(&'static str, String)>, Vec<(&'static str, String)>))
    ensures
        r.0@.len() == 5,
        r.0@[0].0@ == "Palabras"@ && r.0@[0].1@ == shown(stats.word_count),
        r.0@[1].0@ == "Caracteres sin espacios"@ && r.0@[1].1@ == shown(stats.characters_no_spaces),
        r.0@[2].0@ == "Caracteres con espacios"@ && r.0@[2].1@ == shown(stats.characters_with_spaces),
        r.0@[3].0@ == "Párrafos"@ && r.0@[3].1@ == shown(stats.paragraph_count),
        r.0@[4].0@ == "Tiempo de lectura"@ && r.0@[4].1@ == chapter_time_spec(stats.reading_seconds as nat),
        r.1@.len() == 2,
        r.1@[0].0@ == "Líneas"@ && r.1@[0].1@ == shown(stats.line_count),
        r.1@[1].0@ == "Caracteres totales"@ && r.1@[1].1@ == shown(stats.total_file_size_chars),
{
    let mut content: Vec<(&'static str, String)> = Vec::new();
    content.push(("Palabras", format_number(stats.word_count)));
    content.push(("Caracteres sin espacios", format_number(stats.characters_no_spaces)));
    content.push(("Caracteres con espacios", format_number(stats.characters_with_spaces)));
    content.push(("Párrafos", format_number(stats.paragraph_count)));
    content.push(("Tiempo de lectura", chapter_reading_time(stats.reading_seconds)));
    let mut file: Vec<(&'static str, String)> = Vec::new();
    file.push(("Líneas", format_number(stats.line_count)));
    file.push(("Caracteres totales", format_number(stats.total_file_size_chars)));
    (content, file)
}

/// The statistics of a book, with its reading time in whole seconds.
pub struct BookStats {
    pub chapter_count: usize,
    pub total_word_count: usize,
    pub total_characters: usize,
    pub total_paragraph_count: usize,
    pub reading_seconds: usize,
}

/// The rows of a book report.
pub fn book_report(stats: &BookStats) -> (r: Vec<(&'static str, String)>)
    ensures
        r@.len() == 5,
        r@[0].0@ == "Capítulos"@ && r@[0].1@ == shown(stats.chapter_count),
        r@[1].0@ == "Palabras totales"@ && r@[1].1@ == shown(stats.total_word_count),
        r@[2].0@ == "Caracteres totales"@ && r@[2].1@ == shown(stats.total_characters),
        r@[3].0@ == "Párrafos totales"@ && r@[3].1@ == shown(stats.total_paragraph_count),
        r@[4].0@ == "Tiempo de lectura"@ && r@[4].1@ == book_time_spec(stats.reading_seconds as nat),
{
    let mut rows: Vec<(&'static str, String)> = Vec::new();
    rows.push(("Capítulos", format_number(stats.chapter_count)));
    rows.push(("Palabras totales", format_number(stats.total_word_count)));
    rows.push(("Caracteres totales", format_number(stats.total_characters)));
    rows.push(("Párrafos totales", format_number(stats.total_paragraph_count)));
    rows.push(("Tiempo de lectura", book_reading_time(stats.reading_seconds)));
    rows
}

/// What the EPUB check shows: whether all is well, and the titles of the
/// groups of manifest errors and orphan files, when there are any.
pub struct EpubCheckView {
    pub all_ok: bool,
    pub errors_title: Option<String>,
    pub orphans_title: Option<String>,
}

/// The groups of the EPUB check for `errors` manifest errors and `orphans`
/// orphan files.
pub fn epub_check_view(errors: usize, orphans: usize) -> (r: EpubCheckView)
    ensures
        r.all_ok == (errors == 0 && orphans == 0),
        errors == 0 ==> r.errors_title is None,
        errors > 0 ==> r.errors_title is Some && r.errors_title->Some_0@ == "Errores del manifiesto ("@ + decimal(errors as nat) + ")"@,
        orphans == 0 ==> r.orphans_title is None,
        orphans > 0 ==> r.orphans_title is Some && r.orphans_title->Some_0@ == "Archivos huérfanos ("@ + decimal(orphans as nat) + ")"@,
{
    let errors_title = if errors > 0 {
        let a = concat_str("Errores del manifiesto (", usize_to_string(errors).as_str());
        Some(concat_str(a.as_str(), ")"))
    } else {
        None
    };
    let orphans_title = if orphans > 0 {
        let a = concat_str("Archivos huérfanos (", usize_to_string(orphans).as_str());
        Some(concat_str(a.as_str(), ")"))
    } else {
        None
    };
    EpubCheckView { all_ok: errors == 0 && orphans == 0, errors_title, orphans_title }
}

/// A section of the keyboard shortcuts window: its title and its entries,
/// each a description and an accelerator.
pub struct ShortcutsSection {
    pub title: String,
    pub items: Vec<(String, String)>,
}

/// A section of the shortcuts window with the given entries.
pub fn shortcuts_section(title: &str, items: &[(&str, &str)]) -> (r: ShortcutsSection)
    ensures
        r.title@ == title@,
        r.items@.len() == items@.len(),
        forall|i: int| 0 <= i < items@.len() ==>
            (#[trigger] r.items@[i]).0@ == items@[i].0@ && r.items@[i].1@ == items@[i].1@,
{
    let mut v: Vec<(String, String)> = Vec::new();
    let mut i: usize = 0;
    while i < items.len()
        invariant
            i <= items@.len(),
            v@.len() == i,
            forall|k: int| 0 <= k < i ==> (#[trigger] v@[k]).0@ == items@[k].0@ && v@[k].1@ == items@[k].1@,
        decreases items@.len() - i,
    {
        let (label, accel) = items[i];
        v.push((label.to_string(), accel.to_string()));
        i = i + 1;
    }
    ShortcutsSection { title: title.to_string(), items: v }
}

/// The sections of the keyboard shortcuts window.
pub open spec fn shortcuts_spec() -> Seq<(Seq<char>, Seq<(Seq<char>, Seq<char>)>)> {
    seq![
        ("Proyecto"@, seq![
            ("Abrir proyecto/libro"@, "<Control>o"@),
            ("Guardar archivo actual"@, "<Control>s"@),
            ("Nuevo capítulo"@, "<Control>n"@),
            ("Importar capítulos"@, "<Control>t"@),
            ("Exportar"@, "<Control><Shift>t"@),
            ("Tabla de contenidos"@, "<Control><Shift>n"@),
            ("Proyecto reciente 1"@, "<Control>1"@),
            ("Proyecto reciente 2"@, "<Control>2"@),
            ("Proyecto reciente 3"@, "<Control>3"@),
            ("Proyecto reciente 4"@, "<Control>4"@),
            ("Proyecto reciente 5"@, "<Control>5"@),
        ]),
        ("Vista"@, seq![
            ("Alternar editor/vista previa"@, "<Control>Right"@),
            ("Alternar barra lateral"@, "<Control><Shift>s"@),
            ("Mostrar atajos de teclado"@, "F1"@),
        ]),
        ("Edición"@, seq![
            ("Buscar/reemplazar"@, "<Control>f"@),
            ("Asistente IA"@, "<Control><Shift>i"@),
            ("Dividir párrafo"@, "<Control>d"@),
            ("Dividir capítulo"@, "<Control><Shift>d"@),
            ("Quitar tags"@, "<Control>Delete"@),
        ]),
        ("Formatos"@, seq![
            ("Negrita"@, "<Control>b"@),
            ("Cursiva"@, "<Control>k"@),
            ("Título 1"@, "<Control>h"@),
            ("Párrafo"@, "<Control>g"@),
            ("Lista con viñetas"@, "<Control>a"@),
            ("Lista numerada"@, "<Control><Shift>a"@),
        ]),
        ("Informes y validación"@, seq![
            ("Informe del capítulo"@, "<Control>i"@),
            ("Informe del libro"@, "<Control><Alt>i"@),
            ("Verificar EPUB"@, "<Control><Shift>v"@),
        ]),
    ]
}

/// A section as plain values.
pub open spec fn section_view(s: ShortcutsSection) -> (Seq<char>, Seq<(Seq<char>, Seq<char>)>) {
    (s.title@, s.items@.map_values(|e: (String, String)| (e.0@, e.1@)))
}

/// The contents of the keyboard shortcuts window: project, view, editing,
/// formats, reports and validation.
pub fn show_shortcuts_dialog() -> (r: Vec<ShortcutsSection>)
    ensures
        r@.map_values(|s: ShortcutsSection| section_view(s)) == shortcuts_spec(),
{
    let mut r: Vec<ShortcutsSection> = Vec::new();
    r.push(shortcuts_section("Proyecto", &[
        ("Abrir proyecto/libro", "<Control>o"),
        ("Guardar archivo actual", "<Control>s"),
        ("Nuevo capítulo", "<Control>n"),
        ("Importar capítulos", "<Control>t"),
        ("Exportar", "<Control><Shift>t"),
        ("Tabla de contenidos", "<Control><Shift>n"),
        ("Proyecto reciente 1", "<Control>1"),
        ("Proyecto reciente 2", "<Control>2"),
        ("Proyecto reciente 3", "<Control>3"),
        ("Proyecto reciente 4", "<Control>4"),
        ("Proyecto reciente 5", "<Control>5"),
    ]));
    r.push(shortcuts_section("Vista", &[
        ("Alternar editor/vista previa", "<Control>Right"),
        ("Alternar barra lateral", "<Control><Shift>s"),
        ("Mostrar atajos de teclado", "F1"),
    ]));
    r.push(shortcuts_section("Edición", &[
        ("Buscar/reemplazar", "<Control>f"),
        ("Asistente IA", "<Control><Shift>i"),
        ("Dividir párrafo", "<Control>d"),
        ("Dividir capítulo", "<Control><Shift>d"),
        ("Quitar tags", "<Control>Delete"),
    ]));
    r.push(shortcuts_section("Formatos", &[
        ("Negrita", "<Control>b"),
        ("Cursiva", "<Control>k"),
        ("Título 1", "<Control>h"),
        ("Párrafo", "<Control>g"),
        ("Lista con viñetas", "<Control>a"),
        ("Lista numerada", "<Control><Shift>a"),
    ]));
    r.push(shortcuts_section("Informes y validación", &[
        ("Informe del capítulo", "<Control>i"),
        ("Informe del libro", "<Control><Alt>i"),
        ("Verificar EPUB", "<Control><Shift>v"),
    ]));
    proof {
        let v = r@.map_values(|s: ShortcutsSection| section_view(s));
        let w = shortcuts_spec();
        assert forall|k: int| 0 <= k < 5 implies #[trigger] v[k] == w[k] by {
            assert(v[k].1 =~= w[k].1);
        }
        assert(v =~= w);
    }
    r
}

/// The actions of the application that have a keyboard accelerator, each
/// with its accelerator, in the order in which the shortcuts window lists
/// them.
pub open spec fn accels_spec() -> Seq<(Seq<char>, Seq<char>)> {
    seq![
        ("app.open"@, "<Control>o"@),
        ("app.save"@, "<Control>s"@),
        ("app.add-chapter"@, "<Control>n"@),
        ("app.import-chapters"@, "<Control>t"@),
        ("app.export"@, "<Control><Shift>t"@),
        ("app.nav-builder"@, "<Control><Shift>n"@),
        ("app.open-recent-1"@, "<Control>1"@),
        ("app.open-recent-2"@, "<Control>2"@),
        ("app.open-recent-3"@, "<Control>3"@),
        ("app.open-recent-4"@, "<Control>4"@),
        ("app.open-recent-5"@, "<Control>5"@),
        ("app.toggle-preview"@, "<Control>Right"@),
        ("app.toggle-sidebar"@, "<Control><Shift>s"@),
        ("app.shortcuts"@, "F1"@),
        ("app.find-replace"@, "<Control>f"@),
        ("app.ai"@, "<Control><Shift>i"@),
        ("app.split-paragraph"@, "<Control>d"@),
        ("app.split-chapter"@, "<Control><Shift>d"@),
        ("app.strip-tags"@, "<Control>Delete"@),
        ("app.format-strong"@, "<Control>b"@),
        ("app.format-em"@, "<Control>k"@),
        ("app.format-h1"@, "<Control>h"@),
        ("app.format-p"@, "<Control>g"@),
        ("app.list-unordered"@, "<Control>a"@),
        ("app.list-ordered"@, "<Control><Shift>a"@),
        ("app.chapter-report"@, "<Control>i"@),
        ("app.book-report"@, "<Control><Alt>i"@),
        ("app.epub-check"@, "<Control><Shift>v"@),
    ]
}

/// The keyboard accelerators that the application registers: each action's
/// name and its accelerator.
pub fn action_accels() -> (r: Vec<(&'static str, &'static str)>)
    ensures
        r@.map_values(|e: (&'static str, &'static str)| (e.0@, e.1@)) == accels_spec(),
{
    let mut r: Vec<(&'static str, &'static str)> = Vec::new();
    r.push(("app.open", "<Control>o"));
    r.push(("app.save", "<Control>s"));
    r.push(("app.add-chapter", "<Control>n"));
    r.push(("app.import-chapters", "<Control>t"));
    r.push(("app.export", "<Control><Shift>t"));
    r.push(("app.nav-builder", "<Control><Shift>n"));
    r.push(("app.open-recent-1", "<Control>1"));
    r.push(("app.open-recent-2", "<Control>2"));
    r.push(("app.open-recent-3", "<Control>3"));
    r.push(("app.open-recent-4", "<Control>4"));
    r.push(("app.open-recent-5", "<Control>5"));
    r.push(("app.toggle-preview", "<Control>Right"));
    r.push(("app.toggle-sidebar", "<Control><Shift>s"));
    r.push(("app.shortcuts", "F1"));
    r.push(("app.find-replace", "<Control>f"));
    r.push(("app.ai", "<Control><Shift>i"));
    r.push(("app.split-paragraph", "<Control>d"));
    r.push(("app.split-chapter", "<Control><Shift>d"));
    r.push(("app.strip-tags", "<Control>Delete"));
    r.push(("app.format-strong", "<Control>b"));
    r.push(("app.format-em", "<Control>k"));
    r.push(("app.format-h1", "<Control>h"));
    r.push(("app.format-p", "<Control>g"));
    r.push(("app.list-unordered", "<Control>a"));
    r.push(("app.list-ordered", "<Control><Shift>a"));
    r.push(("app.chapter-report", "<Control>i"));
    r.push(("app.book-report", "<Control><Alt>i"));
    r.push(("app.epub-check", "<Control><Shift>v"));
    proof {
        assert(r@.map_values(|e: (&'static str, &'static str)| (e.0@, e.1@)) =~= accels_spec());
    }
    r
}

/// The entries of the shortcuts window, section after section.
pub open spec fn window_entries() -> Seq<(Seq<char>, Seq<char>)> {
    let s = shortcuts_spec();
    s[0].1 + s[1].1 + s[2].1 + s[3].1 + s[4].1
}

/// Each entry of the shortcuts window shows the accelerator registered for
/// its action, every registered action has its entry, and no two actions
/// share an accelerator.
#[verifier::rlimit(100)]
#[verifier::spinoff_prover]
pub proof fn lemma_shortcuts_match_accelerators()
    ensures
        window_entries().len() == accels_spec().len(),
        forall|k: int| 0 <= k < accels_spec().len() ==> (#[trigger] window_entries()[k]).1 == accels_spec()[k].1,
        forall|i: int, j: int| 0 <= i < j < accels_spec().len() ==> (#[trigger] accels_spec()[i]).1 != (#[trigger] accels_spec()[j]).1,
{
    reveal_strlit("<Control>1");
    reveal_strlit("<Control>2");
    reveal_strlit("<Control>3");
    reveal_strlit("<Control>4");
    reveal_strlit("<Control>5");
    reveal_strlit("<Control><Alt>i");
    reveal_strlit("<Control><Shift>a");
    reveal_strlit("<Control><Shift>d");
    reveal_strlit("<Control><Shift>i");
    reveal_strlit("<Control><Shift>n");
    reveal_strlit("<Control><Shift>s");
    reveal_strlit("<Control><Shift>t");
    reveal_strlit("<Control><Shift>v");
    reveal_strlit("<Control>Delete");
    reveal_strlit("<Control>Right");
    reveal_strlit("<Control>a");
    reveal_strlit("<Control>b");
    reveal_strlit("<Control>d");
    reveal_strlit("<Control>f");
    reveal_strlit("<Control>g");
    reveal_strlit("<Control>h");
    reveal_strlit("<Control>i");
    reveal_strlit("<Control>k");
    reveal_strlit("<Control>n");
    reveal_strlit("<Control>o");
    reveal_strlit("<Control>s");
    reveal_strlit("<Control>t");
    reveal_strlit("F1");
    reveal_strlit("app.add-chapter");
    reveal_strlit("app.ai");
    reveal_strlit("app.book-report");
    reveal_strlit("app.chapter-report");
    reveal_strlit("app.epub-check");
    reveal_strlit("app.export");
    reveal_strlit("app.find-replace");
    reveal_strlit("app.format-em");
    reveal_strlit("app.format-h1");
    reveal_strlit("app.format-p");
    reveal_strlit("app.format-strong");
    reveal_strlit("app.import-chapters");
    reveal_strlit("app.list-ordered");
    reveal_strlit("app.list-unordered");
    reveal_strlit("app.nav-builder");
    reveal_strlit("app.open");
    reveal_strlit("app.open-recent-1");
    reveal_strlit("app.open-recent-2");
    reveal_strlit("app.open-recent-3");
    reveal_strlit("app.open-recent-4");
    reveal_strlit("app.open-recent-5");
    reveal_strlit("app.save");
    reveal_strlit("app.shortcuts");
    reveal_strlit("app.split-chapter");
    reveal_strlit("app.split-paragraph");
    reveal_strlit("app.strip-tags");
    reveal_strlit("app.toggle-preview");
    reveal_strlit("app.toggle-sidebar");
    let w = window_entries();
    let a = accels_spec();

    assert(w.map_values(|e: (Seq<char>, Seq<char>)| e.1) =~= a.map_values(|e: (Seq<char>, Seq<char>)| e.1));
    assert forall|k: int| 0 <= k < a.len() implies (#[trigger] w[k]).1 == a[k].1 by {
        assert(w.map_values(|e: (Seq<char>, Seq<char>)| e.1)[k] == w[k].1);
    }
    assert forall|i: int, j: int| 0 <= i < j < 28 implies (#[trigger] a[i]).1 != (#[trigger] a[j]).1 by {
        if i == 0 {
            if j == 1 { assert(a[0].1[9] != a[1].1[9]); }
            else if j == 2 { assert(a[0].1[9] != a[2].1[9]); }
            else if j == 3 { assert(a[0].1[9] != a[3].1[9]); }
            else if j == 4 { assert(a[0].1.len() != a[4].1.len()); }
            else if j == 5 { assert(a[0].1.len() != a[5].1.len()); }
            else if j == 6 { assert(a[0].1[9] != a[6].1[9]); }
            else if j == 7 { assert(a[0].1[9] != a[7].1[9]); }
            else if j == 8 { assert(a[0].1[9] != a[8].1[9]); }
            else if j == 9 { assert(a[0].1[9] != a[9].1[9]); }
            else if j == 10 { assert(a[0].1[9] != a[10].1[9]); }
            else if j == 11 { assert(a[0].1.len() != a[11].1.len()); }
            else if j == 12 { assert(a[0].1.len() != a[12].1.len()); }
            else if j == 13 { assert(a[0].1.len() != a[13].1.len()); }
            else if j == 14 { assert(a[0].1[9] != a[14].1[9]); }
            else if j == 15 { assert(a[0].1.len() != a[15].1.len()); }
            else if j == 16 { assert(a[0].1[9] != a[16].1[9]); }
            else if j == 17 { assert(a[0].1.len() != a[17].1.len()); }
            else if j == 18 { assert(a[0].1.len() != a[18].1.len()); }
            else if j == 19 { assert(a[0].1[9] != a[19].1[9]); }
            else if j == 20 { assert(a[0].1[9] != a[20].1[9]); }
            else if j == 21 { assert(a[0].1[9] != a[21].1[9]); }
            else if j == 22 { assert(a[0].1[9] != a[22].1[9]); }
            else if j == 23 { assert(a[0].1[9] != a[23].1[9]); }
            else if j == 24 { assert(a[0].1.len() != a[24].1.len()); }
            else if j == 25 { assert(a[0].1[9] != a[25].1[9]); }
            else if j == 26 { assert(a[0].1.len() != a[26].1.len()); }
            else if j == 27 { assert(a[0].1.len() != a[27].1.len()); }
        } else if i == 1 {
            if j == 2 { assert(a[1].1[9] != a[2].1[9]); }
            else if j == 3 { assert(a[1].1[9] != a[3].1[9]); }
            else if j == 4 { assert(a[1].1.len() != a[4].1.len()); }
            else if j == 5 { assert(a[1].1.len() != a[5].1.len()); }
            else if j == 6 { assert(a[1].1[9] != a[6].1[9]); }
            else if j == 7 { assert(a[1].1[9] != a[7].1[9]); }
            else if j == 8 { assert(a[1].1[9] != a[8].1[9]); }
            else if j == 9 { assert(a[1].1[9] != a[9].1[9]); }
            else if j == 10 { assert(a[1].1[9] != a[10].1[9]); }
            else if j == 11 { assert(a[1].1.len() != a[11].1.len()); }
            else if j == 12 { assert(a[1].1.len() != a[12].1.len()); }
            else if j == 13 { assert(a[1].1.len() != a[13].1.len()); }
            else if j == 14 { assert(a[1].1[9] != a[14].1[9]); }
            else if j == 15 { assert(a[1].1.len() != a[15].1.len()); }
            else if j == 16 { assert(a[1].1[9] != a[16].1[9]); }
            else if j == 17 { assert(a[1].1.len() != a[17].1.len()); }
            else if j == 18 { assert(a[1].1.len() != a[18].1.len()); }
            else if j == 19 { assert(a[1].1[9] != a[19].1[9]); }
            else if j == 20 { assert(a[1].1[9] != a[20].1[9]); }
            else if j == 21 { assert(a[1].1[9] != a[21].1[9]); }
            else if j == 22 { assert(a[1].1[9] != a[22].1[9]); }
            else if j == 23 { assert(a[1].1[9] != a[23].1[9]); }
            else if j == 24 { assert(a[1].1.len() != a[24].1.len()); }
            else if j == 25 { assert(a[1].1[9] != a[25].1[9]); }
            else if j == 26 { assert(a[1].1.len() != a[26].1.len()); }
            else if j == 27 { assert(a[1].1.len() != a[27].1.len()); }
        } else if i == 2 {
            if j == 3 { assert(a[2].1[9] != a[3].1[9]); }
            else if j == 4 { assert(a[2].1.len() != a[4].1.len()); }
            else if j == 5 { assert(a[2].1.len() != a[5].1.len()); }
            else if j == 6 { assert(a[2].1[9] != a[6].1[9]); }
            else if j == 7 { assert(a[2].1[9] != a[7].1[9]); }
            else if j == 8 { assert(a[2].1[9] != a[8].1[9]); }
            else if j == 9 { assert(a[2].1[9] != a[9].1[9]); }
            else if j == 10 { assert(a[2].1[9] != a[10].1[9]); }
            else if j == 11 { assert(a[2].1.len() != a[11].1.len()); }
            else if j == 12 { assert(a[2].1.len() != a[12].1.len()); }
            else if j == 13 { assert(a[2].1.len() != a[13].1.len()); }
            else if j == 14 { assert(a[2].1[9] != a[14].1[9]); }
            else if j == 15 { assert(a[2].1.len() != a[15].1.len()); }
            else if j == 16 { assert(a[2].1[9] != a[16].1[9]); }
            else if j == 17 { assert(a[2].1.len() != a[17].1.len()); }
            else if j == 18 { assert(a[2].1.len() != a[18].1.len()); }
            else if j == 19 { assert(a[2].1[9] != a[19].1[9]); }
            else if j == 20 { assert(a[2].1[9] != a[20].1[9]); }
            else if j == 21 { assert(a[2].1[9] != a[21].1[9]); }
            else if j == 22 { assert(a[2].1[9] != a[22].1[9]); }
            else if j == 23 { assert(a[2].1[9] != a[23].1[9]); }
            else if j == 24 { assert(a[2].1.len() != a[24].1.len()); }
            else if j == 25 { assert(a[2].1[9] != a[25].1[9]); }
            else if j == 26 { assert(a[2].1.len() != a[26].1.len()); }
            else if j == 27 { assert(a[2].1.len() != a[27].1.len()); }
        } else if i == 3 {
            if j == 4 { assert(a[3].1.len() != a[4].1.len()); }
            else if j == 5 { assert(a[3].1.len() != a[5].1.len()); }
            else if j == 6 { assert(a[3].1[9] != a[6].1[9]); }
            else if j == 7 { assert(a[3].1[9] != a[7].1[9]); }
            else if j == 8 { assert(a[3].1[9] != a[8].1[9]); }
            else if j == 9 { assert(a[3].1[9] != a[9].1[9]); }
            else if j == 10 { assert(a[3].1[9] != a[10].1[9]); }
            else if j == 11 { assert(a[3].1.len() != a[11].1.len()); }
            else if j == 12 { assert(a[3].1.len() != a[12].1.len()); }
            else if j == 13 { assert(a[3].1.len() != a[13].1.len()); }
            else if j == 14 { assert(a[3].1[9] != a[14].1[9]); }
            else if j == 15 { assert(a[3].1.len() != a[15].1.len()); }
            else if j == 16 { assert(a[3].1[9] != a[16].1[9]); }
            else if j == 17 { assert(a[3].1.len() != a[17].1.len()); }
            else if j == 18 { assert(a[3].1.len() != a[18].1.len()); }
            else if j == 19 { assert(a[3].1[9] != a[19].1[9]); }
            else if j == 20 { assert(a[3].1[9] != a[20].1[9]); }
            else if j == 21 { assert(a[3].1[9] != a[21].1[9]); }
            else if j == 22 { assert(a[3].1[9] != a[22].1[9]); }
            else if j == 23 { assert(a[3].1[9] != a[23].1[9]); }
            else if j == 24 { assert(a[3].1.len() != a[24].1.len()); }
            else if j == 25 { assert(a[3].1[9] != a[25].1[9]); }
            else if j == 26 { assert(a[3].1.len() != a[26].1.len()); }
            else if j == 27 { assert(a[3].1.len() != a[27].1.len()); }
        } else if i == 4 {
            if j == 5 { assert(a[4].1[16] != a[5].1[16]); }
            else if j == 6 { assert(a[4].1.len() != a[6].1.len()); }
            else if j == 7 { assert(a[4].1.len() != a[7].1.len()); }
            else if j == 8 { assert(a[4].1.len() != a[8].1.len()); }
            else if j == 9 { assert(a[4].1.len() != a[9].1.len()); }
            else if j == 10 { assert(a[4].1.len() != a[10].1.len()); }
            else if j == 11 { assert(a[4].1.len() != a[11].1.len()); }
            else if j == 12 { assert(a[4].1[16] != a[12].1[16]); }
            else if j == 13 { assert(a[4].1.len() != a[13].1.len()); }
            else if j == 14 { assert(a[4].1.len() != a[14].1.len()); }
            else if j == 15 { assert(a[4].1[16] != a[15].1[16]); }
            else if j == 16 { assert(a[4].1.len() != a[16].1.len()); }
            else if j == 17 { assert(a[4].1[16] != a[17].1[16]); }
            else if j == 18 { assert(a[4].1.len() != a[18].1.len()); }
            else if j == 19 { assert(a[4].1.len() != a[19].1.len()); }
            else if j == 20 { assert(a[4].1.len() != a[20].1.len()); }
            else if j == 21 { assert(a[4].1.len() != a[21].1.len()); }
            else if j == 22 { assert(a[4].1.len() != a[22].1.len()); }
            else if j == 23 { assert(a[4].1.len() != a[23].1.len()); }
            else if j == 24 { assert(a[4].1[16] != a[24].1[16]); }
            else if j == 25 { assert(a[4].1.len() != a[25].1.len()); }
            else if j == 26 { assert(a[4].1.len() != a[26].1.len()); }
            else if j == 27 { assert(a[4].1[16] != a[27].1[16]); }
        } else if i == 5 {
            if j == 6 { assert(a[5].1.len() != a[6].1.len()); }
            else if j == 7 { assert(a[5].1.len() != a[7].1.len()); }
            else if j == 8 { assert(a[5].1.len() != a[8].1.len()); }
            else if j == 9 { assert(a[5].1.len() != a[9].1.len()); }
            else if j == 10 { assert(a[5].1.len() != a[10].1.len()); }
            else if j == 11 { assert(a[5].1.len() != a[11].1.len()); }
            else if j == 12 { assert(a[5].1[16] != a[12].1[16]); }
            else if j == 13 { assert(a[5].1.len() != a[13].1.len()); }
            else if j == 14 { assert(a[5].1.len() != a[14].1.len()); }
            else if j == 15 { assert(a[5].1[16] != a[15].1[16]); }
            else if j == 16 { assert(a[5].1.len() != a[16].1.len()); }
            else if j == 17 { assert(a[5].1[16] != a[17].1[16]); }
            else if j == 18 { assert(a[5].1.len() != a[18].1.len()); }
            else if j == 19 { assert(a[5].1.len() != a[19].1.len()); }
            else if j == 20 { assert(a[5].1.len() != a[20].1.len()); }
            else if j == 21 { assert(a[5].1.len() != a[21].1.len()); }
            else if j == 22 { assert(a[5].1.len() != a[22].1.len()); }
            else if j == 23 { assert(a[5].1.len() != a[23].1.len()); }
            else if j == 24 { assert(a[5].1[16] != a[24].1[16]); }
            else if j == 25 { assert(a[5].1.len() != a[25].1.len()); }
            else if j == 26 { assert(a[5].1.len() != a[26].1.len()); }
            else if j == 27 { assert(a[5].1[16] != a[27].1[16]); }
        } else if i == 6 {
            if j == 7 { assert(a[6].1[9] != a[7].1[9]); }
            else if j == 8 { assert(a[6].1[9] != a[8].1[9]); }
            else if j == 9 { assert(a[6].1[9] != a[9].1[9]); }
            else if j == 10 { assert(a[6].1[9] != a[10].1[9]); }
            else if j == 11 { assert(a[6].1.len() != a[11].1.len()); }
            else if j == 12 { assert(a[6].1.len() != a[12].1.len()); }
            else if j == 13 { assert(a[6].1.len() != a[13].1.len()); }
            else if j == 14 { assert(a[6].1[9] != a[14].1[9]); }
            else if j == 15 { assert(a[6].1.len() != a[15].1.len()); }
            else if j == 16 { assert(a[6].1[9] != a[16].1[9]); }
            else if j == 17 { assert(a[6].1.len() != a[17].1.len()); }
            else if j == 18 { assert(a[6].1.len() != a[18].1.len()); }
            else if j == 19 { assert(a[6].1[9] != a[19].1[9]); }
            else if j == 20 { assert(a[6].1[9] != a[20].1[9]); }
            else if j == 21 { assert(a[6].1[9] != a[21].1[9]); }
            else if j == 22 { assert(a[6].1[9] != a[22].1[9]); }
            else if j == 23 { assert(a[6].1[9] != a[23].1[9]); }
            else if j == 24 { assert(a[6].1.len() != a[24].1.len()); }
            else if j == 25 { assert(a[6].1[9] != a[25].1[9]); }
            else if j == 26 { assert(a[6].1.len() != a[26].1.len()); }
            else if j == 27 { assert(a[6].1.len() != a[27].1.len()); }
        } else if i == 7 {
            if j == 8 { assert(a[7].1[9] != a[8].1[9]); }
            else if j == 9 { assert(a[7].1[9] != a[9].1[9]); }
            else if j == 10 { assert(a[7].1[9] != a[10].1[9]); }
            else if j == 11 { assert(a[7].1.len() != a[11].1.len()); }
            else if j == 12 { assert(a[7].1.len() != a[12].1.len()); }
            else if j == 13 { assert(a[7].1.len() != a[13].1.len()); }
            else if j == 14 { assert(a[7].1[9] != a[14].1[9]); }
            else if j == 15 { assert(a[7].1.len() != a[15].1.len()); }
            else if j == 16 { assert(a[7].1[9] != a[16].1[9]); }
            else if j == 17 { assert(a[7].1.len() != a[17].1.len()); }
            else if j == 18 { assert(a[7].1.len() != a[18].1.len()); }
            else if j == 19 { assert(a[7].1[9] != a[19].1[9]); }
            else if j == 20 { assert(a[7].1[9] != a[20].1[9]); }
            else if j == 21 { assert(a[7].1[9] != a[21].1[9]); }
            else if j == 22 { assert(a[7].1[9] != a[22].1[9]); }
            else if j == 23 { assert(a[7].1[9] != a[23].1[9]); }
            else if j == 24 { assert(a[7].1.len() != a[24].1.len()); }
            else if j == 25 { assert(a[7].1[9] != a[25].1[9]); }
            else if j == 26 { assert(a[7].1.len() != a[26].1.len()); }
            else if j == 27 { assert(a[7].1.len() != a[27].1.len()); }
        } else if i == 8 {
            if j == 9 { assert(a[8].1[9] != a[9].1[9]); }
            else if j == 10 { assert(a[8].1[9] != a[10].1[9]); }
            else if j == 11 { assert(a[8].1.len() != a[11].1.len()); }
            else if j == 12 { assert(a[8].1.len() != a[12].1.len()); }
            else if j == 13 { assert(a[8].1.len() != a[13].1.len()); }
            else if j == 14 { assert(a[8].1[9] != a[14].1[9]); }
            else if j == 15 { assert(a[8].1.len() != a[15].1.len()); }
            else if j == 16 { assert(a[8].1[9] != a[16].1[9]); }
            else if j == 17 { assert(a[8].1.len() != a[17].1.len()); }
            else if j == 18 { assert(a[8].1.len() != a[18].1.len()); }
            else if j == 19 { assert(a[8].1[9] != a[19].1[9]); }
            else if j == 20 { assert(a[8].1[9] != a[20].1[9]); }
            else if j == 21 { assert(a[8].1[9] != a[21].1[9]); }
            else if j == 22 { assert(a[8].1[9] != a[22].1[9]); }
            else if j == 23 { assert(a[8].1[9] != a[23].1[9]); }
            else if j == 24 { assert(a[8].1.len() != a[24].1.len()); }
            else if j == 25 { assert(a[8].1[9] != a[25].1[9]); }
            else if j == 26 { assert(a[8].1.len() != a[26].1.len()); }
            else if j == 27 { assert(a[8].1.len() != a[27].1.len()); }
        } else if i == 9 {
            if j == 10 { assert(a[9].1[9] != a[10].1[9]); }
            else if j == 11 { assert(a[9].1.len() != a[11].1.len()); }
            else if j == 12 { assert(a[9].1.len() != a[12].1.len()); }
            else if j == 13 { assert(a[9].1.len() != a[13].1.len()); }
            else if j == 14 { assert(a[9].1[9] != a[14].1[9]); }
            else if j == 15 { assert(a[9].1.len() != a[15].1.len()); }
            else if j == 16 { assert(a[9].1[9] != a[16].1[9]); }
            else if j == 17 { assert(a[9].1.len() != a[17].1.len()); }
            else if j == 18 { assert(a[9].1.len() != a[18].1.len()); }
            else if j == 19 { assert(a[9].1[9] != a[19].1[9]); }
            else if j == 20 { assert(a[9].1[9] != a[20].1[9]); }
            else if j == 21 { assert(a[9].1[9] != a[21].1[9]); }
            else if j == 22 { assert(a[9].1[9] != a[22].1[9]); }
            else if j == 23 { assert(a[9].1[9] != a[23].1[9]); }
            else if j == 24 { assert(a[9].1.len() != a[24].1.len()); }
            else if j == 25 { assert(a[9].1[9] != a[25].1[9]); }
            else if j == 26 { assert(a[9].1.len() != a[26].1.len()); }
            else if j == 27 { assert(a[9].1.len() != a[27].1.len()); }
        } else if i == 10 {
            if j == 11 { assert(a[10].1.len() != a[11].1.len()); }
            else if j == 12 { assert(a[10].1.len() != a[12].1.len()); }
            else if j == 13 { assert(a[10].1.len() != a[13].1.len()); }
            else if j == 14 { assert(a[10].1[9] != a[14].1[9]); }
            else if j == 15 { assert(a[10].1.len() != a[15].1.len()); }
            else if j == 16 { assert(a[10].1[9] != a[16].1[9]); }
            else if j == 17 { assert(a[10].1.len() != a[17].1.len()); }
            else if j == 18 { assert(a[10].1.len() != a[18].1.len()); }
            else if j == 19 { assert(a[10].1[9] != a[19].1[9]); }
            else if j == 20 { assert(a[10].1[9] != a[20].1[9]); }
            else if j == 21 { assert(a[10].1[9] != a[21].1[9]); }
            else if j == 22 { assert(a[10].1[9] != a[22].1[9]); }
            else if j == 23 { assert(a[10].1[9] != a[23].1[9]); }
            else if j == 24 { assert(a[10].1.len() != a[24].1.len()); }
            else if j == 25 { assert(a[10].1[9] != a[25].1[9]); }
            else if j == 26 { assert(a[10].1.len() != a[26].1.len()); }
            else if j == 27 { assert(a[10].1.len() != a[27].1.len()); }
        } else if i == 11 {
            if j == 12 { assert(a[11].1.len() != a[12].1.len()); }
            else if j == 13 { assert(a[11].1.len() != a[13].1.len()); }
            else if j == 14 { assert(a[11].1.len() != a[14].1.len()); }
            else if j == 15 { assert(a[11].1.len() != a[15].1.len()); }
            else if j == 16 { assert(a[11].1.len() != a[16].1.len()); }
            else if j == 17 { assert(a[11].1.len() != a[17].1.len()); }
            else if j == 18 { assert(a[11].1.len() != a[18].1.len()); }
            else if j == 19 { assert(a[11].1.len() != a[19].1.len()); }
            else if j == 20 { assert(a[11].1.len() != a[20].1.len()); }
            else if j == 21 { assert(a[11].1.len() != a[21].1.len()); }
            else if j == 22 { assert(a[11].1.len() != a[22].1.len()); }
            else if j == 23 { assert(a[11].1.len() != a[23].1.len()); }
            else if j == 24 { assert(a[11].1.len() != a[24].1.len()); }
            else if j == 25 { assert(a[11].1.len() != a[25].1.len()); }
            else if j == 26 { assert(a[11].1.len() != a[26].1.len()); }
            else if j == 27 { assert(a[11].1.len() != a[27].1.len()); }
        } else if i == 12 {
            if j == 13 { assert(a[12].1.len() != a[13].1.len()); }
            else if j == 14 { assert(a[12].1.len() != a[14].1.len()); }
            else if j == 15 { assert(a[12].1[16] != a[15].1[16]); }
            else if j == 16 { assert(a[12].1.len() != a[16].1.len()); }
            else if j == 17 { assert(a[12].1[16] != a[17].1[16]); }
            else if j == 18 { assert(a[12].1.len() != a[18].1.len()); }
            else if j == 19 { assert(a[12].1.len() != a[19].1.len()); }
            else if j == 20 { assert(a[12].1.len() != a[20].1.len()); }
            else if j == 21 { assert(a[12].1.len() != a[21].1.len()); }
            else if j == 22 { assert(a[12].1.len() != a[22].1.len()); }
            else if j == 23 { assert(a[12].1.len() != a[23].1.len()); }
            else if j == 24 { assert(a[12].1[16] != a[24].1[16]); }
            else if j == 25 { assert(a[12].1.len() != a[25].1.len()); }
            else if j == 26 { assert(a[12].1.len() != a[26].1.len()); }
            else if j == 27 { assert(a[12].1[16] != a[27].1[16]); }
        } else if i == 13 {
            if j == 14 { assert(a[13].1.len() != a[14].1.len()); }
            else if j == 15 { assert(a[13].1.len() != a[15].1.len()); }
            else if j == 16 { assert(a[13].1.len() != a[16].1.len()); }
            else if j == 17 { assert(a[13].1.len() != a[17].1.len()); }
            else if j == 18 { assert(a[13].1.len() != a[18].1.len()); }
            else if j == 19 { assert(a[13].1.len() != a[19].1.len()); }
            else if j == 20 { assert(a[13].1.len() != a[20].1.len()); }
            else if j == 21 { assert(a[13].1.len() != a[21].1.len()); }
            else if j == 22 { assert(a[13].1.len() != a[22].1.len()); }
            else if j == 23 { assert(a[13].1.len() != a[23].1.len()); }
            else if j == 24 { assert(a[13].1.len() != a[24].1.len()); }
            else if j == 25 { assert(a[13].1.len() != a[25].1.len()); }
            else if j == 26 { assert(a[13].1.len() != a[26].1.len()); }
            else if j == 27 { assert(a[13].1.len() != a[27].1.len()); }
        } else if i == 14 {
            if j == 15 { assert(a[14].1.len() != a[15].1.len()); }
            else if j == 16 { assert(a[14].1[9] != a[16].1[9]); }
            else if j == 17 { assert(a[14].1.len() != a[17].1.len()); }
            else if j == 18 { assert(a[14].1.len() != a[18].1.len()); }
            else if j == 19 { assert(a[14].1[9] != a[19].1[9]); }
            else if j == 20 { assert(a[14].1[9] != a[20].1[9]); }
            else if j == 21 { assert(a[14].1[9] != a[21].1[9]); }
            else if j == 22 { assert(a[14].1[9] != a[22].1[9]); }
            else if j == 23 { assert(a[14].1[9] != a[23].1[9]); }
            else if j == 24 { assert(a[14].1.len() != a[24].1.len()); }
            else if j == 25 { assert(a[14].1[9] != a[25].1[9]); }
            else if j == 26 { assert(a[14].1.len() != a[26].1.len()); }
            else if j == 27 { assert(a[14].1.len() != a[27].1.len()); }
        } else if i == 15 {
            if j == 16 { assert(a[15].1.len() != a[16].1.len()); }
            else if j == 17 { assert(a[15].1[16] != a[17].1[16]); }
            else if j == 18 { assert(a[15].1.len() != a[18].1.len()); }
            else if j == 19 { assert(a[15].1.len() != a[19].1.len()); }
            else if j == 20 { assert(a[15].1.len() != a[20].1.len()); }
            else if j == 21 { assert(a[15].1.len() != a[21].1.len()); }
            else if j == 22 { assert(a[15].1.len() != a[22].1.len()); }
            else if j == 23 { assert(a[15].1.len() != a[23].1.len()); }
            else if j == 24 { assert(a[15].1[16] != a[24].1[16]); }
            else if j == 25 { assert(a[15].1.len() != a[25].1.len()); }
            else if j == 26 { assert(a[15].1.len() != a[26].1.len()); }
            else if j == 27 { assert(a[15].1[16] != a[27].1[16]); }
        } else if i == 16 {
            if j == 17 { assert(a[16].1.len() != a[17].1.len()); }
            else if j == 18 { assert(a[16].1.len() != a[18].1.len()); }
            else if j == 19 { assert(a[16].1[9] != a[19].1[9]); }
            else if j == 20 { assert(a[16].1[9] != a[20].1[9]); }
            else if j == 21 { assert(a[16].1[9] != a[21].1[9]); }
            else if j == 22 { assert(a[16].1[9] != a[22].1[9]); }
            else if j == 23 { assert(a[16].1[9] != a[23].1[9]); }
            else if j == 24 { assert(a[16].1.len() != a[24].1.len()); }
            else if j == 25 { assert(a[16].1[9] != a[25].1[9]); }
            else if j == 26 { assert(a[16].1.len() != a[26].1.len()); }
            else if j == 27 { assert(a[16].1.len() != a[27].1.len()); }
        } else if i == 17 {
            if j == 18 { assert(a[17].1.len() != a[18].1.len()); }
            else if j == 19 { assert(a[17].1.len() != a[19].1.len()); }
            else if j == 20 { assert(a[17].1.len() != a[20].1.len()); }
            else if j == 21 { assert(a[17].1.len() != a[21].1.len()); }
            else if j == 22 { assert(a[17].1.len() != a[22].1.len()); }
            else if j == 23 { assert(a[17].1.len() != a[23].1.len()); }
            else if j == 24 { assert(a[17].1[16] != a[24].1[16]); }
            else if j == 25 { assert(a[17].1.len() != a[25].1.len()); }
            else if j == 26 { assert(a[17].1.len() != a[26].1.len()); }
            else if j == 27 { assert(a[17].1[16] != a[27].1[16]); }
        } else if i == 18 {
            if j == 19 { assert(a[18].1.len() != a[19].1.len()); }
            else if j == 20 { assert(a[18].1.len() != a[20].1.len()); }
            else if j == 21 { assert(a[18].1.len() != a[21].1.len()); }
            else if j == 22 { assert(a[18].1.len() != a[22].1.len()); }
            else if j == 23 { assert(a[18].1.len() != a[23].1.len()); }
            else if j == 24 { assert(a[18].1.len() != a[24].1.len()); }
            else if j == 25 { assert(a[18].1.len() != a[25].1.len()); }
            else if j == 26 { assert(a[18].1[9] != a[26].1[9]); }
            else if j == 27 { assert(a[18].1.len() != a[27].1.len()); }
        } else if i == 19 {
            if j == 20 { assert(a[19].1[9] != a[20].1[9]); }
            else if j == 21 { assert(a[19].1[9] != a[21].1[9]); }
            else if j == 22 { assert(a[19].1[9] != a[22].1[9]); }
            else if j == 23 { assert(a[19].1[9] != a[23].1[9]); }
            else if j == 24 { assert(a[19].1.len() != a[24].1.len()); }
            else if j == 25 { assert(a[19].1[9] != a[25].1[9]); }
            else if j == 26 { assert(a[19].1.len() != a[26].1.len()); }
            else if j == 27 { assert(a[19].1.len() != a[27].1.len()); }
        } else if i == 20 {
            if j == 21 { assert(a[20].1[9] != a[21].1[9]); }
            else if j == 22 { assert(a[20].1[9] != a[22].1[9]); }
            else if j == 23 { assert(a[20].1[9] != a[23].1[9]); }
            else if j == 24 { assert(a[20].1.len() != a[24].1.len()); }
            else if j == 25 { assert(a[20].1[9] != a[25].1[9]); }
            else if j == 26 { assert(a[20].1.len() != a[26].1.len()); }
            else if j == 27 { assert(a[20].1.len() != a[27].1.len()); }
        } else if i == 21 {
            if j == 22 { assert(a[21].1[9] != a[22].1[9]); }
            else if j == 23 { assert(a[21].1[9] != a[23].1[9]); }
            else if j == 24 { assert(a[21].1.len() != a[24].1.len()); }
            else if j == 25 { assert(a[21].1[9] != a[25].1[9]); }
            else if j == 26 { assert(a[21].1.len() != a[26].1.len()); }
            else if j == 27 { assert(a[21].1.len() != a[27].1.len()); }
        } else if i == 22 {
            if j == 23 { assert(a[22].1[9] != a[23].1[9]); }
            else if j == 24 { assert(a[22].1.len() != a[24].1.len()); }
            else if j == 25 { assert(a[22].1[9] != a[25].1[9]); }
            else if j == 26 { assert(a[22].1.len() != a[26].1.len()); }
            else if j == 27 { assert(a[22].1.len() != a[27].1.len()); }
        } else if i == 23 {
            if j == 24 { assert(a[23].1.len() != a[24].1.len()); }
            else if j == 25 { assert(a[23].1[9] != a[25].1[9]); }
            else if j == 26 { assert(a[23].1.len() != a[26].1.len()); }
            else if j == 27 { assert(a[23].1.len() != a[27].1.len()); }
        } else if i == 24 {
            if j == 25 { assert(a[24].1.len() != a[25].1.len()); }
            else if j == 26 { assert(a[24].1.len() != a[26].1.len()); }
            else if j == 27 { assert(a[24].1[16] != a[27].1[16]); }
        } else if i == 25 {
            if j == 26 { assert(a[25].1.len() != a[26].1.len()); }
            else if j == 27 { assert(a[25].1.len() != a[27].1.len()); }
        } else if i == 26 {
            if j == 27 { assert(a[26].1.len() != a[27].1.len()); }
        }
    }
}

} // verus!
