use gutenair::manifest::ManifestItem;
use gutenair::sections::{is_styles_section, is_text_section, new_resource_for_folder, new_resource_label, row_matches_filter, sidebar_row, sidebar_sections, spine_drop_position, NewResource};
use gutenair::selection::{sidebar_click, ClickAction, SelectionState};

fn item(id: &str, href: &str, media: &str) -> ManifestItem {
    ManifestItem { id: id.to_string(), href: href.to_string(), media_type: media.to_string() }
}

fn strings(v: &[&str]) -> Vec<String> {
    v.iter().map(|s| s.to_string()).collect()
}

fn book() -> Vec<ManifestItem> {
    vec![
        item("style", "styles/main.css", "text/css"),
        item("ch2", "Text/ch2.xhtml", "application/xhtml+xml"),
        item("cover", "Images/cover.png", "image/png"),
        item("ch1", "Text/ch1.xhtml", "application/xhtml+xml"),
        item("notes", "Text/notes.xhtml", "application/xhtml+xml"),
        item("nav", "nav.xhtml", "application/xhtml+xml"),
    ]
}

#[test]
fn sections_match_folders_without_case_and_order_by_spine() {
    let folders = strings(&["Text", "Styles", "Fonts", "Images"]);
    let spine = strings(&["ch1", "ch2"]);
    let sections = sidebar_sections(&book(), &folders, &spine);
    assert_eq!(sections.len(), 4);
    let ids = |k: usize| -> Vec<String> { sections[k].items.iter().map(|i| i.id.clone()).collect() };
    assert_eq!(sections[0].folder, "Text");
    assert_eq!(ids(0), vec!["ch1", "ch2", "notes"]);
    assert_eq!(sections[1].folder, "Styles");
    assert_eq!(ids(1), vec!["style"]);
    assert_eq!(ids(2), Vec::<String>::new());
    assert_eq!(ids(3), vec!["cover"]);
}

#[test]
fn a_book_folder_goes_to_the_first_section_that_claims_it() {
    let items = vec![item("a", "TEXT/a.xhtml", "application/xhtml+xml"), item("b", "Text/b.xhtml", "application/xhtml+xml")];
    let folders = strings(&["text", "Text", "tEXT"]);
    let sections = sidebar_sections(&items, &folders, &Vec::new());
    // keys in code-point order: "TEXT" < "Text"
    assert_eq!(sections[0].items.iter().map(|i| i.id.as_str()).collect::<Vec<_>>(), vec!["a"]);
    assert_eq!(sections[1].items.iter().map(|i| i.id.as_str()).collect::<Vec<_>>(), vec!["b"]);
    assert!(sections[2].items.is_empty());
}

#[test]
fn sidebar_rows() {
    let spine = strings(&["ch1"]);
    let sel = vec![("Text".to_string(), "ch1".to_string())];
    let row = sidebar_row(&item("ch1", "Text/ch1.xhtml", "application/xhtml+xml"), &spine, &sel);
    assert_eq!(row.title, "ch1.xhtml");
    assert_eq!(row.icon, "text-x-generic-symbolic");
    assert!(row.in_spine);
    assert!(row.selected);
    let row = sidebar_row(&item("img", "Images/a.png", "image/png"), &spine, &sel);
    assert_eq!(row.icon, "image-x-generic-symbolic");
    assert!(!row.in_spine);
    assert!(!row.selected);
}

#[test]
fn section_filter_and_buttons() {
    assert!(row_matches_filter("Capitulo1.xhtml", ""));
    assert!(!row_matches_filter("Capitulo1.xhtml", "CAPÍ"));
    assert!(row_matches_filter("CAPÍTULO.xhtml", "capí"));
    assert!(row_matches_filter("Capitulo1.xhtml", "PITU"));
    assert!(!row_matches_filter("Capitulo1.xhtml", "zz"));
    assert!(new_resource_for_folder("Text") == Some(NewResource::Chapter));
    assert!(new_resource_for_folder("STYLES") == Some(NewResource::Stylesheet));
    assert!(new_resource_for_folder("Images").is_none());
    assert_eq!(new_resource_label(NewResource::Chapter), ("Nuevo capítulo", "application/xhtml+xml"));
    assert_eq!(new_resource_label(NewResource::Stylesheet), ("Nueva hoja de estilo", "text/css"));
    assert!(is_text_section("tExT"));
    assert!(!is_text_section("Texts"));
    assert!(is_styles_section("Styles"));
}

#[test]
fn drop_position_in_spine() {
    let spine = strings(&["a", "b", "c"]);
    assert_eq!(spine_drop_position(&spine, "a", "c"), Some(2));
    assert_eq!(spine_drop_position(&spine, "c", "a"), Some(0));
    assert_eq!(spine_drop_position(&spine, "b", "b"), None);
    assert_eq!(spine_drop_position(&spine, "x", "b"), None);
    assert_eq!(spine_drop_position(&spine, "a", "x"), None);
}

fn state(sel: &[(&str, &str)], last: Option<(&str, &str)>) -> SelectionState {
    SelectionState {
        selected: sel.iter().map(|(f, i)| (f.to_string(), i.to_string())).collect(),
        last_clicked: last.map(|(f, i)| (f.to_string(), i.to_string())),
    }
}

fn ids(s: &SelectionState) -> Vec<&str> {
    s.selected.iter().map(|e| e.1.as_str()).collect()
}

#[test]
fn plain_click_opens_and_clears() {
    let group = strings(&["a", "b", "c"]);
    let mut s = state(&[("Text", "a"), ("Text", "b")], None);
    let action = sidebar_click(&mut s, 1, false, false, "Text", "c", &group);
    assert!(action == ClickAction::OpenItem);
    assert!(s.selected.is_empty());
    assert_eq!(s.last_clicked, Some(("Text".to_string(), "c".to_string())));
}

#[test]
fn ctrl_click_toggles_and_twice_restores() {
    let group = strings(&["a", "b", "c"]);
    let mut s = state(&[("Text", "a")], None);
    sidebar_click(&mut s, 1, true, false, "Text", "b", &group);
    assert_eq!(ids(&s), vec!["a", "b"]);
    sidebar_click(&mut s, 1, true, false, "Text", "b", &group);
    assert_eq!(ids(&s), vec!["a"]);
    let mut s = state(&[("Images", "x")], None);
    sidebar_click(&mut s, 1, true, false, "Text", "b", &group);
    assert_eq!(ids(&s), vec!["b"]);
}

#[test]
fn shift_click_selects_range() {
    let group = strings(&["a", "b", "c", "d"]);
    let mut s = state(&[("Text", "b")], Some(("Text", "b")));
    let action = sidebar_click(&mut s, 1, false, true, "Text", "d", &group);
    assert!(action == ClickAction::Nothing);
    assert_eq!(ids(&s), vec!["b", "c", "d"]);
    let mut s = state(&[], Some(("Images", "x")));
    sidebar_click(&mut s, 1, false, true, "Text", "c", &group);
    assert_eq!(ids(&s), vec!["c"]);
}

#[test]
fn right_click_selects_and_opens_menu() {
    let group = strings(&["a", "b"]);
    let mut s = state(&[("Text", "a")], None);
    let action = sidebar_click(&mut s, 3, false, false, "Text", "b", &group);
    assert!(action == ClickAction::ShowContextMenu);
    assert_eq!(ids(&s), vec!["a", "b"]);
    let action = sidebar_click(&mut s, 3, false, false, "Text", "a", &group);
    assert!(action == ClickAction::ShowContextMenu);
    assert_eq!(ids(&s), vec!["a", "b"]);
    let action = sidebar_click(&mut s, 2, false, false, "Text", "a", &group);
    assert!(action == ClickAction::Nothing);
}
