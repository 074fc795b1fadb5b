use gutenair::export::{archive_entry_name, entry_target, epub_cache_name, epub_output_path, export_chapters, has_epub_extension, selected_chapter_ids, suggested_epub_name};
use gutenair::manifest::ManifestItem;

fn item(id: &str, href: &str, media: &str) -> ManifestItem {
    ManifestItem { id: id.to_string(), href: href.to_string(), media_type: media.to_string() }
}

fn strings(v: &[&str]) -> Vec<String> {
    v.iter().map(|s| s.to_string()).collect()
}

#[test]
fn chapters_to_export_follow_the_spine() {
    let items = vec![item("c1", "Text/uno.xhtml", "application/xhtml+xml"), item("c2", "Text/dos.xhtml", "application/xhtml+xml")];
    let chapters = export_chapters(&strings(&["c2", "missing", "c1"]), &items);
    assert_eq!(chapters, vec![("c2".to_string(), "dos".to_string()), ("c1".to_string(), "uno".to_string())]);
    assert_eq!(selected_chapter_ids(&chapters, &vec![false, true]), strings(&["c1"]));
    assert_eq!(selected_chapter_ids(&chapters, &vec![false, false]), Vec::<String>::new());
}

#[test]
fn epub_names_and_paths() {
    assert_eq!(suggested_epub_name(Some("Mi libro"), "/home/u/proyecto"), "Mi libro.epub");
    assert_eq!(suggested_epub_name(None, "/home/u/proyecto"), "proyecto.epub");
    assert_eq!(suggested_epub_name(None, "/"), "libro.epub");
    assert_eq!(epub_output_path("/tmp/out.epub"), "/tmp/out.epub");
    assert_eq!(epub_output_path("/tmp/out.txt"), "/tmp/out.epub");
    assert_eq!(epub_output_path("/tmp/out"), "/tmp/out.epub");
    assert!(has_epub_extension("/tmp/Libro.EPUB"));
    assert!(!has_epub_extension("/tmp/carpeta"));
    assert_eq!(epub_cache_name("/tmp/Libro.epub"), "Libro");
}

#[test]
fn archive_entries_stay_under_the_destination() {
    assert_eq!(archive_entry_name("\\OEBPS\\Text\\a.xhtml"), "OEBPS/Text/a.xhtml");
    assert_eq!(archive_entry_name("//mimetype"), "mimetype");
    assert_eq!(entry_target("/cache/libro", "OEBPS/content.opf"), Some("/cache/libro/OEBPS/content.opf".to_string()));
    assert_eq!(entry_target("/cache/libro", "/etc/passwd"), Some("/cache/libro/etc/passwd".to_string()));
    assert_eq!(entry_target("/cache/libro/", "a"), Some("/cache/libro/a".to_string()));
}
