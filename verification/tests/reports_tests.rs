use gutenair::labels::{book_reading_time, book_search_status, chapter_reading_time, replace_status};
use gutenair::reports::{book_report, chapter_report, epub_check_view, BookStats, ChapterStats};
use gutenair::{folder_display_name, format_match_count, format_number, icon_for_media_type, mime_for_extension, nav_state_path, shortcuts_section, show_shortcuts_dialog, tr};
use gutenair::media::{is_binary_media_type, source_language_for_media_type};

#[test]
fn numbers_with_thousands_separator() {
    assert_eq!(format_number(0), "0");
    assert_eq!(format_number(999), "999");
    assert_eq!(format_number(1000), "1.000");
    assert_eq!(format_number(1234567), "1.234.567");
    assert_eq!(format_number(100000), "100.000");
}

#[test]
fn reading_times() {
    assert_eq!(chapter_reading_time(0), "< 1 seg");
    assert_eq!(chapter_reading_time(45), "45 seg");
    assert_eq!(chapter_reading_time(125), "2 min 5 seg");
    assert_eq!(book_reading_time(30), "30 seg");
    assert_eq!(book_reading_time(125), "2 min 5 seg");
    assert_eq!(book_reading_time(7380), "2 h 3 min");
}

#[test]
fn report_rows() {
    let s = ChapterStats {
        word_count: 1500,
        characters_no_spaces: 7000,
        characters_with_spaces: 8500,
        paragraph_count: 12,
        line_count: 40,
        total_file_size_chars: 12000,
        reading_seconds: 75,
    };
    let (content, file) = chapter_report(&s);
    assert_eq!(content[0], ("Palabras", "1.500".to_string()));
    assert_eq!(content[4], ("Tiempo de lectura", "1 min 15 seg".to_string()));
    assert_eq!(file, vec![("Líneas", "40".to_string()), ("Caracteres totales", "12.000".to_string())]);
    let b = BookStats { chapter_count: 3, total_word_count: 45000, total_characters: 250000, total_paragraph_count: 900, reading_seconds: 3600 };
    let rows = book_report(&b);
    assert_eq!(rows[1], ("Palabras totales", "45.000".to_string()));
    assert_eq!(rows[4], ("Tiempo de lectura", "1 h 0 min".to_string()));
}

#[test]
fn epub_check_groups() {
    let v = epub_check_view(0, 0);
    assert!(v.all_ok && v.errors_title.is_none() && v.orphans_title.is_none());
    let v = epub_check_view(2, 1);
    assert!(!v.all_ok);
    assert_eq!(v.errors_title, Some("Errores del manifiesto (2)".to_string()));
    assert_eq!(v.orphans_title, Some("Archivos huérfanos (1)".to_string()));
}

#[test]
fn shortcuts_window() {
    let s = shortcuts_section("Vista", &[("Alternar barra lateral", "<Control><Shift>s")]);
    assert_eq!(s.title, "Vista");
    assert_eq!(s.items, vec![("Alternar barra lateral".to_string(), "<Control><Shift>s".to_string())]);
    let all = show_shortcuts_dialog();
    let titles: Vec<&str> = all.iter().map(|s| s.title.as_str()).collect();
    assert_eq!(titles, vec!["Proyecto", "Vista", "Edición", "Formatos", "Informes y validación"]);
    assert_eq!(all[0].items.len(), 11);
    assert_eq!(all[2].items[2], ("Dividir párrafo".to_string(), "<Control>d".to_string()));
}

#[test]
fn interface_texts() {
    assert_eq!(tr("nav.title"), "Tabla de contenidos");
    assert_eq!(tr("common.untitled"), "Sin título");
    assert_eq!(tr("unknown.key"), "");
    assert_eq!(folder_display_name("Images"), "Imágenes");
    assert_eq!(folder_display_name("Otra"), "Otra");
    assert_eq!(format_match_count(0, false), "");
    assert_eq!(format_match_count(-1, true), "…");
    assert_eq!(format_match_count(0, true), "Sin coincidencias");
    assert_eq!(format_match_count(1, true), "1 coincidencia");
    assert_eq!(format_match_count(7, true), "7 coincidencias");
    assert_eq!(book_search_status(0, false), "Sin resultados");
    assert_eq!(book_search_status(1, false), "1 coincidencia");
    assert_eq!(book_search_status(3, false), "3 coincidencias");
    assert_eq!(book_search_status(200, true), "Mostrando los primeros 200 resultados — refina la búsqueda");
    assert_eq!(replace_status(0), "Sin coincidencias para reemplazar");
    assert_eq!(replace_status(4), "Reemplazadas 4 coincidencias");
    assert_eq!(nav_state_path("/home/u/libro"), "/home/u/libro/.gutenair_nav.json");
}

#[test]
fn media_types() {
    assert_eq!(mime_for_extension("PNG"), "image/png");
    assert_eq!(mime_for_extension("jpeg"), "image/jpeg");
    assert_eq!(mime_for_extension("woff2"), "font/woff2");
    assert_eq!(mime_for_extension("xyz"), "application/octet-stream");
    assert_eq!(icon_for_media_type("application/xhtml+xml"), "text-x-generic-symbolic");
    assert_eq!(icon_for_media_type("text/css"), "text-x-script-symbolic");
    assert_eq!(icon_for_media_type("application/vnd.ms-opentype"), "font-x-generic-symbolic");
    assert_eq!(icon_for_media_type("audio/mpeg"), "audio-x-generic-symbolic");
    assert_eq!(icon_for_media_type("video/mp4"), "video-x-generic-symbolic");
    assert_eq!(icon_for_media_type("application/pdf"), "text-x-generic-symbolic");
    assert!(is_binary_media_type("font/ttf"));
    assert!(!is_binary_media_type("text/css"));
    assert_eq!(source_language_for_media_type("application/xhtml+xml"), "html");
    assert_eq!(source_language_for_media_type("text/css"), "css");
    assert_eq!(source_language_for_media_type("application/x-dtbncx+xml"), "xml");
    assert_eq!(source_language_for_media_type("text/plain"), "txt");
}

#[test]
fn icon_of_an_extension_follows_its_kind() {
    let cases = [
        ("PNG", "image-x-generic-symbolic"),
        ("svg", "image-x-generic-symbolic"),
        ("woff2", "font-x-generic-symbolic"),
        ("Mp3", "audio-x-generic-symbolic"),
        ("webm", "video-x-generic-symbolic"),
        ("css", "text-x-script-symbolic"),
        ("js", "text-x-generic-symbolic"),
        ("xyz", "text-x-generic-symbolic"),
    ];
    for (ext, icon) in cases {
        assert_eq!(icon_for_media_type(mime_for_extension(ext)), icon);
    }
}

#[test]
fn shortcuts_window_lists_the_registered_accelerators() {
    let registered = gutenair::reports::action_accels();
    let listed: Vec<String> = show_shortcuts_dialog().into_iter().flat_map(|s| s.items.into_iter().map(|e| e.1)).collect();
    assert_eq!(registered.len(), 28);
    assert_eq!(listed.len(), registered.len());
    for (k, (_, accel)) in registered.iter().enumerate() {
        assert_eq!(listed[k], *accel);
    }
    for i in 0..registered.len() {
        for j in i + 1..registered.len() {
            assert_ne!(registered[i].1, registered[j].1);
        }
    }
    assert!(registered.contains(&("app.save", "<Control>s")));
    assert!(registered.contains(&("app.split-paragraph", "<Control>d")));
    assert!(registered.contains(&("app.epub-check", "<Control><Shift>v")));
}

#[test]
fn mime_type_ignores_the_case_of_an_ascii_extension() {
    for ext in ["png", "PNG", "Png", "woff2", "WOFF2", "Css", "xyz"] {
        assert_eq!(mime_for_extension(ext), mime_for_extension(&ext.to_ascii_lowercase()));
        assert_eq!(mime_for_extension(ext), mime_for_extension(&ext.to_ascii_uppercase()));
    }
    assert_eq!(mime_for_extension("JPEG"), "image/jpeg");
}
