use gutenair::importing::{add_resource_title, import_errors_text, import_kind, import_stem, import_summary_heading, import_target, imported_text, new_chapters, new_project_language, new_resource_content, split_new_id, split_request, unique_chapter_id, ImportKind, MARKDOWN_NOT_SUPPORTED};
use gutenair::manifest::ManifestItem;

fn item(id: &str, href: &str, media: &str) -> ManifestItem {
    ManifestItem { id: id.to_string(), href: href.to_string(), media_type: media.to_string() }
}

#[test]
fn imported_chapter_ids_are_unique() {
    let m = vec![
        item("cap", "Text/x.xhtml", "application/xhtml+xml"),
        item("other", "Text/cap_2.xhtml", "application/xhtml+xml"),
    ];
    assert_eq!(unique_chapter_id("cap", &m), "cap_3");
    assert_eq!(unique_chapter_id("nuevo", &m), "nuevo");
    assert_eq!(unique_chapter_id("x", &m), "x_2");
    let m2 = vec![item("a", "Text/b.xhtml", "x")];
    assert_eq!(unique_chapter_id("b", &m2), "b_2");
}

#[test]
fn import_kinds_by_extension() {
    assert!(import_kind("/t/cap.XHTML") == ImportKind::Markup);
    assert!(import_kind("/t/cap.html") == ImportKind::Markup);
    assert!(import_kind("/t/cap.txt") == ImportKind::PlainText);
    assert!(import_kind("/t/cap.md") == ImportKind::Markdown);
    assert!(import_kind("/t/cap.pdf") == ImportKind::Skip);
    assert!(import_kind("/t/cap") == ImportKind::Skip);
    assert_eq!(MARKDOWN_NOT_SUPPORTED, "formato .md aún no implementado");
    assert_eq!(import_stem("/t/cap.txt"), "cap");
    assert_eq!(import_stem("/"), "capitulo");
}

#[test]
fn import_summary_texts() {
    assert_eq!(import_summary_heading(2, 0), "Importación completada");
    assert_eq!(import_summary_heading(0, 1), "Importación fallida");
    assert_eq!(import_summary_heading(1, 1), "Importación con advertencias");
    assert_eq!(imported_text(1), "1 capítulo importado correctamente.");
    assert_eq!(imported_text(3), "3 capítulos importados correctamente.");
    assert_eq!(import_errors_text(1), "1 error:");
    assert_eq!(import_errors_text(2), "2 errors:");
}

#[test]
fn new_chapters_plan() {
    let plan = new_chapters("capitulo_", 3, 9, 2);
    assert_eq!(plan, vec![
        ("capitulo_09".to_string(), "<h1>Capítulo 9</h1>".to_string()),
        ("capitulo_10".to_string(), "<h1>Capítulo 10</h1>".to_string()),
        ("capitulo_11".to_string(), "<h1>Capítulo 11</h1>".to_string()),
    ]);
    assert!(new_chapters("", 3, 1, 2).is_empty());
    assert!(new_chapters("c", 0, 1, 2).is_empty());
    assert_eq!(new_chapters("c", 1, -3, 4)[0].0, format!("c{:04}", -3));
}

#[test]
fn import_targets_and_new_resources() {
    let m = vec![item("a", "Images/a.png", "image/png")];
    assert_eq!(import_target("Images", "a.png", "png", &m), None);
    assert_eq!(import_target("Images", "b.JPG", "JPG", &m), Some(("Images/b.JPG".to_string(), "image/jpeg")));
    assert_eq!(import_target("Fonts", "f.woff2", "woff2", &m), Some(("Fonts/f.woff2".to_string(), "font/woff2")));
    assert_eq!(new_resource_content("application/xhtml+xml"), Some(("<h1>Nuevo Capítulo</h1>", true)));
    assert_eq!(new_resource_content("text/css"), Some(("/* Nuevos estilos */", false)));
    assert_eq!(new_resource_content("image/*"), None);
    assert_eq!(add_resource_title("Estilo"), "Agregar Estilo");
}

#[test]
fn new_project_and_split_dialogs() {
    assert_eq!(new_project_language("Libro", "", "/tmp/x"), Some("es".to_string()));
    assert_eq!(new_project_language("Libro", "en", "/tmp/x"), Some("en".to_string()));
    assert_eq!(new_project_language("", "en", "/tmp/x"), None);
    assert_eq!(new_project_language("Libro", "en", ""), None);
    assert_eq!(split_new_id("cap3"), "cap3_b");
    assert_eq!(split_request("n", "p", ""), Some(None));
    assert_eq!(split_request("n", "p", "Título"), Some(Some("Título".to_string())));
    assert_eq!(split_request("", "p", "x"), None);
    assert_eq!(split_request("n", "", "x"), None);
}
