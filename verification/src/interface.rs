use vstd::prelude::*;
use vstd::string::*;

use crate::history::texts;
use crate::manifest::{find_manifest_item, manifest_ids, manifest_view, ManifestItem};
use crate::numbers::{decimal, usize_to_string};
use crate::selection::{sel_view, Entry};
use crate::strings::{concat_str, contains_spec, starts_with_spec, str_contains, str_eq, str_starts_with};
use crate::toc::first_index;

verus! {

broadcast use vstd::string::group_string_axioms;

/// Width given to the sidebar when it is shown again: the saved width when
/// it is above 10, else 260.
pub fn restored_sidebar_width(saved: i32) -> (r: i32)
    ensures
        r == (if saved > 10 { saved } else { 260 }),
{
    if saved > 10 { saved } else { 260 }
}

/// The sidebar width is saved while the sidebar is visible and wider than 10.
pub fn should_save_sidebar_width(visible: bool, position: i32) -> (r: bool)
    ensures
        r == (visible && position > 10),
{
    visible && position > 10
}

/// The window size is saved while the window is not maximized.
pub fn should_save_window_size(maximized: bool) -> (r: bool)
    ensures
        r == !maximized,
{
    !maximized
}

/// The editor's color scheme for a dark or light interface.
pub fn editor_scheme(dark: bool) -> (r: &'static str)
    ensures
        r@ == (if dark { "Adwaita-dark"@ } else { "Adwaita"@ }),
{
    if dark { "Adwaita-dark" } else { "Adwaita" }
}

/// How the editor wraps lines.
#[derive(PartialEq, Eq, Structural, Clone, Copy)]
pub enum WrapChoice {
    WordChar,
    NoWrap,
}

/// The editor wraps at words or characters when the setting is on.
pub fn editor_wrap(enabled: bool) -> (r: WrapChoice)
    ensures
        r == (if enabled { WrapChoice::WordChar } else { WrapChoice::NoWrap }),
{
    if enabled { WrapChoice::WordChar } else { WrapChoice::NoWrap }
}

/// The page shown after toggling between editor and preview.
pub fn toggled_view(current: Option<&str>) -> (r: &'static str)
    ensures
        r@ == (match current {
            Some(c) => if c@ == "preview"@ { "editor"@ } else { "preview"@ },
            None => "preview"@,
        }),
{
    match current {
        Some(c) => if str_eq(c, "preview") { "editor" } else { "preview" },
        None => "preview",
    }
}

/// After a text resource is loaded, the editor page is shown unless it is an
/// HTML chapter and the preview is already showing.
pub fn shows_editor_after_load(is_html: bool, current: Option<&str>) -> (r: bool)
    ensures
        r == (!is_html || match current {
            Some(c) => c@ != "preview"@,
            None => true,
        }),
{
    if !is_html {
        return true;
    }
    match current {
        Some(c) => !str_eq(c, "preview"),
        None => true,
    }
}

/// The media type is that of a chapter (it names HTML or XHTML).
pub open spec fn is_chapter_media(m: Seq<char>) -> bool {
    contains_spec(m, "html"@) || contains_spec(m, "xhtml"@)
}

/// What the context menu of the sidebar offers for a selection.
pub struct ContextMenu {
    pub label: String,
    pub set_cover: bool,
    pub special_paste: bool,
    pub manage_styles: bool,
    pub delete_label: &'static str,
}

/// The context menu of `count` selected files: always rename and delete;
/// for a single image, "set as cover"; for a single chapter, "special paste";
/// when every selected file is a chapter, "manage styles". No menu for an
/// empty selection.
pub fn context_menu(count: usize, single_media: &str, all_chapters: bool) -> (r: Option<ContextMenu>)
    ensures
        count == 0 ==> r is None,
        count > 0 ==> r is Some && {
            let m = r->Some_0;
            &&& m.label@ == decimal(count as nat) + " archivo(s) seleccionado(s)"@
            &&& m.set_cover == (count == 1 && starts_with_spec(single_media@, "image/"@))
            &&& m.special_paste == (count == 1 && is_chapter_media(single_media@))
            &&& m.manage_styles == all_chapters
            &&& m.delete_label@ == (if count == 1 { "Eliminar archivo"@ } else { "Eliminar archivos"@ })
        },
{
    if count == 0 {
        return None;
    }
    let label = concat_str(usize_to_string(count).as_str(), " archivo(s) seleccionado(s)");
    let single = count == 1;
    let is_image = str_starts_with(single_media, "image/");
    let is_chapter = str_contains(single_media, "html") || str_contains(single_media, "xhtml");
    Some(ContextMenu {
        label,
        set_cover: single && is_image,
        special_paste: single && is_chapter,
        manage_styles: all_chapters,
        delete_label: if single { "Eliminar archivo" } else { "Eliminar archivos" },
    })
}

/// Every selected `(folder, id)` is a chapter of the manifest (its media
/// type names HTML); an id the manifest lacks makes it false.
pub open spec fn all_chapters_spec(sel: Seq<Entry>, m: Seq<crate::manifest::ManifestItemView>) -> bool {
    forall|i: int| 0 <= i < sel.len() ==> match first_index(manifest_ids(m), #[trigger] sel[i].1) {
        Some(j) => contains_spec(m[j].media_type, "html"@),
        None => false,
    }
}

/// Whether every selected file is a chapter (the style manager applies).
pub fn all_chapters(selected: &Vec<(String, String)>, items: &Vec<ManifestItem>) -> (r: bool)
    ensures
        r == all_chapters_spec(sel_view(selected@), manifest_view(items@)),
{
    let ghost sv = sel_view(selected@);
    let ghost m = manifest_view(items@);
    let mut i: usize = 0;
    while i < selected.len()
        invariant
            i <= selected@.len(),
            sv == sel_view(selected@),
            m == manifest_view(items@),
            forall|k: int| 0 <= k < i ==> match first_index(manifest_ids(m), #[trigger] sv[k].1) {
                Some(j) => contains_spec(m[j].media_type, "html"@),
                None => false,
            },
        decreases selected@.len() - i,
    {
        proof { assert(sv[i as int].1 == selected@[i as int].1@); }
        match find_manifest_item(items, selected[i].1.as_str()) {
            Some(j) => {
                proof { assert(m[j as int].media_type == items@[j as int].media_type@); }
                if !str_contains(items[j].media_type.as_str(), "html") {
                    return false;
                }
            },
            None => return false,
        }
        i = i + 1;
    }
    true
}

/// The names of the selected files joined by `, `.
pub open spec fn joined_names(names: Seq<Seq<char>>) -> Seq<char>
    decreases names.len(),
{
    if names.len() == 0 {
        Seq::empty()
    } else if names.len() == 1 {
        names[0]
    } else {
        joined_names(names.drop_last()) + ", "@ + names.last()
    }
}

fn join_names(names: &Vec<String>) -> (r: String)
    ensures
        r@ == joined_names(texts(names@)),
{
    let ghost ns = texts(names@);
    if names.len() == 0 {
        return String::new();
    }
    let mut out = names[0].clone();
    let mut i: usize = 1;
    proof { assert(ns.take(1).drop_last() =~= Seq::<Seq<char>>::empty()); }
    while i < names.len()
        invariant
            1 <= i <= names@.len(),
            ns == texts(names@),
            out@ == joined_names(ns.take(i as int)),
        decreases names@.len() - i,
    {
        proof {
            assert(ns.take(i + 1).drop_last() =~= ns.take(i as int));
            assert(ns.take(i + 1).last() == names@[i as int]@);
        }
        let s = concat_str(out.as_str(), ", ");
        out = concat_str(s.as_str(), names[i].as_str());
        i = i + 1;
    }
    proof { assert(ns.take(names@.len() as int) =~= ns); }
    out
}

/// The heading and body of the delete confirmation for the files `names`.
pub fn delete_confirmation(names: &Vec<String>) -> (r: (String, String))
    requires
        names@.len() >= 1,
    ensures
        names@.len() == 1 ==> r.0@ == "¿Eliminar \""@ + names@[0]@ + "\"?"@
            && r.1@ == "Esta acción no se puede deshacer."@,
        names@.len() > 1 ==> r.0@ == "¿Eliminar "@ + decimal(names@.len() as nat) + " archivos?"@
            && r.1@ == "Se eliminarán: "@ + joined_names(texts(names@)) + ".\nEsta acción no se puede deshacer."@,
{
    if names.len() == 1 {
        let s = concat_str("¿Eliminar \"", names[0].as_str());
        (concat_str(s.as_str(), "\"?"), "Esta acción no se puede deshacer.".to_string())
    } else {
        let s = concat_str("¿Eliminar ", usize_to_string(names.len()).as_str());
        let heading = concat_str(s.as_str(), " archivos?");
        let b = concat_str("Se eliminarán: ", join_names(names).as_str());
        (heading, concat_str(b.as_str(), ".\nEsta acción no se puede deshacer."))
    }
}

/// Whether the file open in the editor is among the deleted ones (then the
/// editor is cleared).
pub fn deletes_open_item(deleted: &Vec<(String, String)>, open_id: Option<&str>) -> (r: bool)
    ensures
        r == match open_id {
            Some(id) => exists|i: int| 0 <= i < deleted@.len() && (#[trigger] deleted@[i]).1@ == id@,
            None => false,
        },
{
    let id: &str = match open_id {
        None => return false,
        Some(id) => id,
    };
    let mut i: usize = 0;
    let mut found = false;
    while i < deleted.len()
        invariant
            i <= deleted@.len(),
            found == exists|k: int| 0 <= k < i && (#[trigger] deleted@[k]).1@ == id@,
        decreases deleted@.len() - i,
    {
        if str_eq(deleted[i].1.as_str(), id) {
            proof { assert(deleted@[i as int].1@ == id@); }
            found = true;
        }
        i = i + 1;
    }
    found
}

/// Whether a paragraph can be split in the open item: it must be a chapter
/// (media type naming HTML or XHTML), opened, in an open project; else the
/// message to show.
pub fn paragraph_split_check(media_type: &str, chapter_open: bool, project_open: bool) -> (r: Result<(), &'static str>)
    ensures
        !is_chapter_media(media_type@) ==> r is Err && r->Err_0@ == "Esta acción solo funciona en capítulos XHTML."@,
        is_chapter_media(media_type@) && !chapter_open ==> r is Err && r->Err_0@ == "No hay un capítulo abierto."@,
        is_chapter_media(media_type@) && chapter_open && !project_open ==> r is Err && r->Err_0@ == "No hay un proyecto abierto."@,
        is_chapter_media(media_type@) && chapter_open && project_open ==> r is Ok,
{
    if !(str_contains(media_type, "html") || str_contains(media_type, "xhtml")) {
        return Err("Esta acción solo funciona en capítulos XHTML.");
    }
    if !chapter_open {
        return Err("No hay un capítulo abierto.");
    }
    if !project_open {
        return Err("No hay un proyecto abierto.");
    }
    Ok(())
}

/// The title of the dialogs of the paragraph split.
pub const SPLIT_PARAGRAPH_TITLE: &'static str = "Dividir párrafo";

} // verus!
