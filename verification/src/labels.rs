use vstd::prelude::*;
use vstd::string::*;

use crate::numbers::{decimal, signed_decimal, usize_to_string, i32_to_string};
use crate::search::MAX_SEARCH_RESULTS;
use crate::strings::{concat_str, str_eq};

verus! {

broadcast use vstd::string::group_string_axioms;

/// The interface text for a translation key.
pub open spec fn tr_spec(key: Seq<char>) -> Seq<char> {
    if key == "nav.title"@ { "Tabla de contenidos"@ }
    else if key == "nav.header.title"@ { "Entrada / título"@ }
    else if key == "nav.header.level"@ { "Nivel"@ }
    else if key == "nav.header.include"@ { "Incluir"@ }
    else if key == "nav.rename"@ { "Renombrar"@ }
    else if key == "nav.show_only"@ { "Mostrar solo incluidos"@ }
    else if key == "nav.select_headings"@ { "Seleccionar headings para incluir"@ }
    else if key == "nav.mark_all"@ { "Marcar todos"@ }
    else if key == "nav.clear_all"@ { "Desmarcar todos"@ }
    else if key == "common.accept"@ { "Aceptar"@ }
    else if key == "common.cancel"@ { "Cancelar"@ }
    else if key == "common.untitled"@ { "Sin título"@ }
    else { ""@ }
}

/// The interface text for the translation key `key`; empty for an unknown key.
pub fn tr(key: &str) -> (r: &'static str)
    ensures
        r@ == tr_spec(key@),
{
    if str_eq(key, "nav.title") { "Tabla de contenidos" }
    else if str_eq(key, "nav.header.title") { "Entrada / título" }
    else if str_eq(key, "nav.header.level") { "Nivel" }
    else if str_eq(key, "nav.header.include") { "Incluir" }
    else if str_eq(key, "nav.rename") { "Renombrar" }
    else if str_eq(key, "nav.show_only") { "Mostrar solo incluidos" }
    else if str_eq(key, "nav.select_headings") { "Seleccionar headings para incluir" }
    else if str_eq(key, "nav.mark_all") { "Marcar todos" }
    else if str_eq(key, "nav.clear_all") { "Desmarcar todos" }
    else if str_eq(key, "common.accept") { "Aceptar" }
    else if str_eq(key, "common.cancel") { "Cancelar" }
    else if str_eq(key, "common.untitled") { "Sin título" }
    else { "" }
}

/// The name shown for a resource folder.
pub open spec fn folder_display_spec(folder: Seq<char>) -> Seq<char> {
    if folder == "Text"@ { "Texto"@ }
    else if folder == "Styles"@ { "Estilos"@ }
    else if folder == "Images"@ { "Imágenes"@ }
    else if folder == "Fonts"@ { "Fuentes"@ }
    else if folder == "Audio"@ { "Audio"@ }
    else if folder == "Video"@ { "Video"@ }
    else if folder == "Misc"@ { "Miscelánea"@ }
    else { folder }
}

/// The name shown in the sidebar for the resource folder `folder`.
pub fn folder_display_name<'a>(folder: &'a str) -> (r: &'a str)
    ensures
        r@ == folder_display_spec(folder@),
{
    if str_eq(folder, "Text") { "Texto" }
    else if str_eq(folder, "Styles") { "Estilos" }
    else if str_eq(folder, "Images") { "Imágenes" }
    else if str_eq(folder, "Fonts") { "Fuentes" }
    else if str_eq(folder, "Audio") { "Audio" }
    else if str_eq(folder, "Video") { "Video" }
    else if str_eq(folder, "Misc") { "Miscelánea" }
    else { folder }
}

/// `prefix`, the decimal form of `n`, then `suffix`.
fn number_phrase(prefix: &str, n: usize, suffix: &str) -> (r: String)
    ensures
        r@ == prefix@ + decimal(n as nat) + suffix@,
{
    let mut s = prefix.to_string();
    s.append(usize_to_string(n).as_str());
    s.append(suffix);
    s
}

/// The decimal form of `n`, then `suffix`.
fn number_with_suffix(n: usize, suffix: &str) -> (r: String)
    ensures
        r@ == decimal(n as nat) + suffix@,
{
    let mut s = usize_to_string(n);
    s.append(suffix);
    s
}

/// The label of the editor's match counter.
pub open spec fn match_count_spec(count: int, has_query: bool) -> Seq<char> {
    if !has_query { Seq::empty() }
    else if count < 0 { "…"@ }
    else if count == 0 { "Sin coincidencias"@ }
    else if count == 1 { "1 coincidencia"@ }
    else { signed_decimal(count) + " coincidencias"@ }
}

/// The label of the match counter for `count` matches (negative while
/// counting); empty when there is no query.
pub fn format_match_count(count: i32, has_query: bool) -> (r: String)
    ensures
        r@ == match_count_spec(count as int, has_query),
{
    if !has_query {
        String::new()
    } else if count < 0 {
        "…".to_string()
    } else if count == 0 {
        "Sin coincidencias".to_string()
    } else if count == 1 {
        "1 coincidencia".to_string()
    } else {
        let mut s = i32_to_string(count);
        s.append(" coincidencias");
        s
    }
}

/// `"s"` when `n` is not one, else nothing.
pub open spec fn plural_s(n: int) -> Seq<char> {
    if n == 1 { Seq::empty() } else { "s"@ }
}

fn plural_suffix(n: usize) -> (r: &'static str)
    ensures
        r@ == plural_s(n as int),
{
    proof { reveal_strlit(""); }
    if n == 1 { "" } else { "s" }
}

/// The status line of a book search.
pub open spec fn search_status_spec(total: int, capped: bool) -> Seq<char> {
    if total == 0 { "Sin resultados"@ }
    else if capped { "Mostrando los primeros "@ + decimal(MAX_SEARCH_RESULTS as nat) + " resultados — refina la búsqueda"@ }
    else { decimal(total as nat) + " coincidencia"@ + plural_s(total) }
}

/// The status line after a book search found `total` results, `capped` when
/// it stopped at the limit.
pub fn book_search_status(total: usize, capped: bool) -> (r: String)
    ensures
        r@ == search_status_spec(total as int, capped),
{
    if total == 0 {
        "Sin resultados".to_string()
    } else if capped {
        number_phrase("Mostrando los primeros ", MAX_SEARCH_RESULTS, " resultados — refina la búsqueda")
    } else {
        let mut s = number_with_suffix(total, " coincidencia");
        s.append(plural_suffix(total));
        s
    }
}

/// The status line after replacing in the whole book.
pub open spec fn replace_status_spec(total: int) -> Seq<char> {
    if total == 0 { "Sin coincidencias para reemplazar"@ }
    else { "Reemplazadas "@ + decimal(total as nat) + " coincidencia"@ + plural_s(total) }
}

/// The status line after `total` matches were replaced in the whole book.
pub fn replace_status(total: usize) -> (r: String)
    ensures
        r@ == replace_status_spec(total as int),
{
    if total == 0 {
        "Sin coincidencias para reemplazar".to_string()
    } else {
        let mut s = number_phrase("Reemplazadas ", total, " coincidencia");
        s.append(plural_suffix(total));
        s
    }
}

/// The reading time of a chapter, from whole seconds.
pub open spec fn chapter_time_spec(secs: nat) -> Seq<char> {
    if secs == 0 { "< 1 seg"@ }
    else if secs < 60 { decimal(secs) + " seg"@ }
    else { decimal(secs / 60) + " min "@ + decimal(secs % 60) + " seg"@ }
}

/// The reading time of a chapter of `total_sec` seconds, as shown in its report.
pub fn chapter_reading_time(total_sec: usize) -> (r: String)
    ensures
        r@ == chapter_time_spec(total_sec as nat),
{
    if total_sec == 0 {
        "< 1 seg".to_string()
    } else if total_sec < 60 {
        number_with_suffix(total_sec, " seg")
    } else {
        let mut s = number_with_suffix(total_sec / 60, " min ");
        s.append(number_with_suffix(total_sec % 60, " seg").as_str());
        s
    }
}

/// The reading time of a book, from whole seconds.
pub open spec fn book_time_spec(secs: nat) -> Seq<char> {
    if secs < 60 { decimal(secs) + " seg"@ }
    else if secs < 3600 { decimal(secs / 60) + " min "@ + decimal(secs % 60) + " seg"@ }
    else { decimal(secs / 3600) + " h "@ + decimal((secs % 3600) / 60) + " min"@ }
}

/// The reading time of a book of `total_sec` seconds, as shown in its report.
pub fn book_reading_time(total_sec: usize) -> (r: String)
    ensures
        r@ == book_time_spec(total_sec as nat),
{
    if total_sec < 60 {
        number_with_suffix(total_sec, " seg")
    } else if total_sec < 3600 {
        let mut s = number_with_suffix(total_sec / 60, " min ");
        s.append(number_with_suffix(total_sec % 60, " seg").as_str());
        s
    } else {
        let mut s = number_with_suffix(total_sec / 3600, " h ");
        s.append(number_with_suffix((total_sec % 3600) / 60, " min").as_str());
        s
    }
}

} // verus!
