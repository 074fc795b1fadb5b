use gutenair::booksearch::{book_replace_pattern, book_search_items, compile_book_pattern, has_search_query, replace_in_document, result_subtitle};
use gutenair::manifest::ManifestItem;
use gutenair::paragraph::split_point_id;
use gutenair::search::{document_match_snippets, first_match_range};
use gutenair::{build_snippet, strip_html_for_search};

fn item(id: &str, href: &str, media: &str) -> ManifestItem {
    ManifestItem { id: id.to_string(), href: href.to_string(), media_type: media.to_string() }
}

#[test]
fn stripping_html() {
    assert_eq!(strip_html_for_search("<p>Hola&nbsp;mundo</p>"), " Hola mundo ");
    assert_eq!(strip_html_for_search("sin etiquetas"), "sin etiquetas");
    assert_eq!(strip_html_for_search("a<b>c"), "a c");
}

#[test]
fn snippets_around_matches() {
    assert_eq!(build_snippet("uno dos tres", 4, 3, 80), "uno dos tres");
    let text = "a".repeat(50) + "  clave  " + &"b".repeat(50);
    let s = build_snippet(&text, 52, 5, 10);
    assert_eq!(s, format!("…{} clave {}…", "a".repeat(3), "b".repeat(3)));
    let snippets = document_match_snippets("<p>Gato y gato</p>", "GATO", false, 10);
    assert_eq!(snippets.len(), 2);
    let snippets = document_match_snippets("<p>Gato y gato</p>", "Gato", true, 10);
    assert_eq!(snippets.len(), 1);
    assert_eq!(document_match_snippets("<p>aaaa</p>", "aa", true, 1).len(), 1);
}

#[test]
fn first_match_in_editor_text() {
    assert_eq!(first_match_range("Él dijo: hola", "HOLA", false), Some((9, 13)));
    assert_eq!(first_match_range("Él dijo: hola", "HOLA", true), None);
    assert_eq!(first_match_range("añb ñ", "ñ", true), Some((1, 2)));
}

#[test]
fn book_search_and_replace() {
    let items = vec![
        item("css", "Styles/a.css", "text/css"),
        item("c2", "Text/c2.xhtml", "application/xhtml+xml"),
        item("c1", "Text/c1.xhtml", "application/xhtml+xml"),
    ];
    let spine = vec!["c1".to_string(), "c2".to_string()];
    let ids: Vec<String> = book_search_items(&items, &spine).into_iter().map(|i| i.id).collect();
    assert_eq!(ids, vec!["c1", "c2"]);
    assert_eq!(result_subtitle(&items[1]), "c2.xhtml");
    assert!(!has_search_query("a"));
    assert!(has_search_query("ab"));
    assert!(has_search_query("ñ"));
    assert_eq!(book_replace_pattern("a.b", true), "a\\.b");
    assert_eq!(book_replace_pattern("a.b", false), "(?i)a\\.b");
    let re = compile_book_pattern("gato", false).unwrap();
    let (n, out) = replace_in_document(&re, "Gato y gato.", "perro");
    assert_eq!(n, 2);
    assert_eq!(out, Some("perro y perro.".to_string()));
    let (n, out) = replace_in_document(&re, "nada", "perro");
    assert_eq!(n, 0);
    assert_eq!(out, None);
    let re = compile_book_pattern("$1", true).unwrap();
    let (_, out) = replace_in_document(&re, "x $1 y", "$0");
    assert_eq!(out, Some("x $0 y".to_string()));
}

#[test]
fn split_point_is_the_last_id_before_the_cursor() {
    assert_eq!(split_point_id("<p id=\"a\">x</p><p id=\"b\">y").unwrap(), "b");
    assert_eq!(split_point_id("<p>sin id</p>").unwrap(), "");
}

#[test]
fn bare_ampersands_are_kept() {
    assert_eq!(strip_html_for_search("a & b"), "a & b");
    assert_eq!(strip_html_for_search("x &amp; y"), "x   y");
    assert_eq!(strip_html_for_search("&#160;"), " ");
    assert_eq!(strip_html_for_search("a &; b"), "a &; b");
    assert_eq!(strip_html_for_search("R&D <b>x</b>;"), "R&D  x ;");
    assert_eq!(strip_html_for_search("a&a_b;b &x-y.z:w; c"), "a b   c");
    assert_eq!(strip_html_for_search("&ñandú;"), " ");
}

#[test]
fn book_search_rows_go_chapter_by_chapter_up_to_the_limit() {
    let docs = vec![
        Some("<p>gato y Gato</p>".to_string()),
        None,
        Some("<p>sin nada</p>".to_string()),
        Some("un gato más".to_string()),
    ];
    let (rows, capped) = gutenair::booksearch::book_search_rows(&docs, "gato", false);
    let idx: Vec<usize> = rows.iter().map(|r| r.0).collect();
    assert_eq!(idx, vec![0, 0, 3]);
    assert!(!capped);
    let (rows, _) = gutenair::booksearch::book_search_rows(&docs, "Gato", true);
    assert_eq!(rows.len(), 1);
    assert_eq!(rows[0].0, 0);
    let many = vec![Some("x ".repeat(150)), Some("x ".repeat(150))];
    let (rows, capped) = gutenair::booksearch::book_search_rows(&many, "x", true);
    assert_eq!(rows.len(), gutenair::search::MAX_SEARCH_RESULTS);
    assert!(capped);
    assert_eq!(rows.iter().filter(|r| r.0 == 1).count(), 50);
    let exact = vec![Some("x ".repeat(200))];
    let (rows, capped) = gutenair::booksearch::book_search_rows(&exact, "x", true);
    assert_eq!(rows.len(), 200);
    assert!(capped);
}
