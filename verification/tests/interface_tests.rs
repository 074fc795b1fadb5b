use gutenair::interface::{all_chapters, context_menu, delete_confirmation, deletes_open_item, editor_scheme, editor_wrap, paragraph_split_check, restored_sidebar_width, should_save_sidebar_width, should_save_window_size, shows_editor_after_load, toggled_view, WrapChoice};
use gutenair::manifest::ManifestItem;

fn item(id: &str, href: &str, media: &str) -> ManifestItem {
    ManifestItem { id: id.to_string(), href: href.to_string(), media_type: media.to_string() }
}

fn strings(v: &[&str]) -> Vec<String> {
    v.iter().map(|s| s.to_string()).collect()
}

#[test]
fn sidebar_and_window_rules() {
    assert_eq!(restored_sidebar_width(300), 300);
    assert_eq!(restored_sidebar_width(10), 260);
    assert_eq!(restored_sidebar_width(-4), 260);
    assert!(should_save_sidebar_width(true, 11));
    assert!(!should_save_sidebar_width(true, 10));
    assert!(!should_save_sidebar_width(false, 200));
    assert!(should_save_window_size(false));
    assert!(!should_save_window_size(true));
    assert_eq!(editor_scheme(true), "Adwaita-dark");
    assert_eq!(editor_scheme(false), "Adwaita");
    assert!(editor_wrap(true) == WrapChoice::WordChar);
    assert!(editor_wrap(false) == WrapChoice::NoWrap);
}

#[test]
fn editor_and_preview_pages() {
    assert_eq!(toggled_view(Some("preview")), "editor");
    assert_eq!(toggled_view(Some("editor")), "preview");
    assert_eq!(toggled_view(None), "preview");
    assert!(shows_editor_after_load(false, Some("preview")));
    assert!(!shows_editor_after_load(true, Some("preview")));
    assert!(shows_editor_after_load(true, Some("editor")));
    assert!(shows_editor_after_load(true, None));
}

#[test]
fn context_menu_entries() {
    assert!(context_menu(0, "", false).is_none());
    let m = context_menu(1, "image/png", false).unwrap();
    assert_eq!(m.label, "1 archivo(s) seleccionado(s)");
    assert!(m.set_cover && !m.special_paste && !m.manage_styles);
    assert_eq!(m.delete_label, "Eliminar archivo");
    let m = context_menu(1, "application/xhtml+xml", true).unwrap();
    assert!(!m.set_cover && m.special_paste && m.manage_styles);
    let m = context_menu(3, "image/png", true).unwrap();
    assert!(!m.set_cover && !m.special_paste && m.manage_styles);
    assert_eq!(m.delete_label, "Eliminar archivos");
    assert_eq!(m.label, "3 archivo(s) seleccionado(s)");
}

#[test]
fn all_chapters_needs_every_item_html() {
    let items = vec![item("c1", "Text/c1.xhtml", "application/xhtml+xml"), item("img", "Images/a.png", "image/png")];
    let sel = |ids: &[&str]| -> Vec<(String, String)> { ids.iter().map(|i| ("X".to_string(), i.to_string())).collect() };
    assert!(all_chapters(&sel(&["c1"]), &items));
    assert!(!all_chapters(&sel(&["c1", "img"]), &items));
    assert!(!all_chapters(&sel(&["gone"]), &items));
    assert!(all_chapters(&sel(&[]), &items));
}

#[test]
fn delete_texts() {
    let (h, b) = delete_confirmation(&strings(&["a.xhtml"]));
    assert_eq!(h, "¿Eliminar \"a.xhtml\"?");
    assert_eq!(b, "Esta acción no se puede deshacer.");
    let (h, b) = delete_confirmation(&strings(&["a", "b", "c"]));
    assert_eq!(h, "¿Eliminar 3 archivos?");
    assert_eq!(b, "Se eliminarán: a, b, c.\nEsta acción no se puede deshacer.");
    let deleted = vec![("Text".to_string(), "c1".to_string())];
    assert!(deletes_open_item(&deleted, Some("c1")));
    assert!(!deletes_open_item(&deleted, Some("c2")));
    assert!(!deletes_open_item(&deleted, None));
}

#[test]
fn paragraph_split_preconditions() {
    assert_eq!(paragraph_split_check("text/css", true, true), Err("Esta acción solo funciona en capítulos XHTML."));
    assert_eq!(paragraph_split_check("application/xhtml+xml", false, true), Err("No hay un capítulo abierto."));
    assert_eq!(paragraph_split_check("text/html", true, false), Err("No hay un proyecto abierto."));
    assert_eq!(paragraph_split_check("text/html", true, true), Ok(()));
}
