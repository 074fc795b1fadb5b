use gutenair::manifest::ManifestItem;
use gutenair::styles::{check_box_state, checked_ids, css_entries, default_style_rows, initial_tristate, manager_title, move_row_down, move_row_up, next_tristate, row_moves, styles_with, sync_stylesheet_links, TriState};

fn item(id: &str, href: &str, media: &str) -> ManifestItem {
    ManifestItem { id: id.to_string(), href: href.to_string(), media_type: media.to_string() }
}

fn strings(v: &[&str]) -> Vec<String> {
    v.iter().map(|s| s.to_string()).collect()
}

#[test]
fn tristate_from_chapter_styles() {
    let chapters = vec![strings(&["base", "extra"]), strings(&["base"]), strings(&[])];
    assert!(initial_tristate(&chapters, "base") == TriState::Mixed);
    assert!(initial_tristate(&chapters[0..2].to_vec(), "base") == TriState::All);
    assert!(initial_tristate(&chapters, "none") == TriState::Absent);
}

#[test]
fn clicks_never_leave_a_box_mixed() {
    assert!(next_tristate(TriState::Mixed) == TriState::All);
    assert!(next_tristate(TriState::All) == TriState::Absent);
    assert!(next_tristate(TriState::Absent) == TriState::All);
    for t in [TriState::All, TriState::Absent] {
        assert!(next_tristate(next_tristate(t)) == t);
    }
    assert_eq!(check_box_state(TriState::All), (true, false));
    assert_eq!(check_box_state(TriState::Absent), (false, false));
    assert_eq!(check_box_state(TriState::Mixed), (false, true));
}

#[test]
fn manager_titles() {
    assert_eq!(manager_title(1), "Gestionar estilos");
    assert_eq!(manager_title(3), "Gestionar estilos — 3 capítulos");
}

#[test]
fn adding_a_style_to_a_chapter() {
    assert_eq!(styles_with(&strings(&["a"]), "b"), Some(strings(&["a", "b"])));
    assert_eq!(styles_with(&strings(&["a", "b"]), "b"), None);
}

#[test]
fn css_entries_sorted_by_name() {
    let items = vec![
        item("s2", "Styles/zeta.css", "text/css"),
        item("c1", "Text/c1.xhtml", "application/xhtml+xml"),
        item("s1", "Styles/alfa.css", "text/css"),
        item("s3", "Styles/alfa.css", "text/css"),
    ];
    let e = css_entries(&items);
    assert_eq!(e, vec![
        ("s1".to_string(), "alfa.css".to_string()),
        ("s3".to_string(), "alfa.css".to_string()),
        ("s2".to_string(), "zeta.css".to_string()),
    ]);
}

#[test]
fn default_style_rows_defaults_first() {
    let items = vec![
        item("s2", "Styles/b.css", "text/css"),
        item("s1", "Styles/a.css", "text/css"),
        item("c1", "Text/c1.xhtml", "application/xhtml+xml"),
        item("s3", "Styles/c.css", "text/css"),
    ];
    let rows = default_style_rows(&strings(&["s3", "missing", "s1"]), &items);
    assert_eq!(rows, vec![
        ("s3".to_string(), "c.css".to_string(), true),
        ("s1".to_string(), "a.css".to_string(), true),
        ("s2".to_string(), "b.css".to_string(), false),
    ]);
    assert_eq!(checked_ids(&rows), strings(&["s3", "s1"]));
}

#[test]
fn moving_rows() {
    let mut v = vec![1, 2, 3];
    move_row_up(&mut v, 2);
    assert_eq!(v, vec![1, 3, 2]);
    move_row_down(&mut v, 0);
    assert_eq!(v, vec![3, 1, 2]);
    assert_eq!(row_moves(0, 3), (false, true));
    assert_eq!(row_moves(1, 3), (true, true));
    assert_eq!(row_moves(2, 3), (true, false));
}

#[test]
fn stylesheet_links_are_replaced() {
    let items = vec![
        item("base", "Styles/base.css", "text/css"),
        item("img", "Images/a.png", "image/png"),
        item("extra", "Styles/extra.css", "text/css"),
    ];
    let content = "<html><head><title>T</title>\n    <link rel=\"stylesheet\" type=\"text/css\" href=\"../Styles/old.css\"/>\n</head><body/></html>";
    let out = sync_stylesheet_links(content, &strings(&["extra", "img", "base", "nope"]), &items).unwrap();
    assert_eq!(
        out,
        "<html><head><title>T</title>\n  <link rel=\"stylesheet\" type=\"text/css\" href=\"../Styles/extra.css\"/>\n  <link rel=\"stylesheet\" type=\"text/css\" href=\"../Styles/base.css\"/>\n</head><body/></html>"
    );
}

#[test]
fn stylesheet_links_without_title_or_styles() {
    let items = vec![item("base", "Styles/base.css", "text/css")];
    let content = "<html><head>\n<link rel='stylesheet' href='x.css'/>\n</head></html>";
    let out = sync_stylesheet_links(content, &strings(&["base"]), &items).unwrap();
    assert_eq!(out, "<html><head>\n  <link rel=\"stylesheet\" type=\"text/css\" href=\"../Styles/base.css\"/>\n</head></html>");
    let out = sync_stylesheet_links(content, &Vec::new(), &items).unwrap();
    assert_eq!(out, "<html><head>\n</head></html>");
    let plain = "<p>sin cabecera</p>";
    assert_eq!(sync_stylesheet_links(plain, &strings(&["base"]), &items).unwrap(), plain);
}

#[test]
fn stylesheet_links_that_do_not_self_close_are_removed_too() {
    let items = vec![item("base", "Styles/base.css", "text/css")];
    let content = "<html><head>\n<link rel=\"stylesheet\" href=\"a.css\">\n<link rel=\"icon\" href=\"i.png\">\n</head></html>";
    let out = sync_stylesheet_links(content, &Vec::new(), &items).unwrap();
    assert_eq!(out, "<html><head>\n<link rel=\"icon\" href=\"i.png\">\n</head></html>");
}
