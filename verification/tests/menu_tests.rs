use gutenair::menu::{apply_tag_action, apply_tag_class_action, class_item_label, class_item_target, parse_list_kind, parse_tag_class, style_menu, ListKind, StyleClass, StyleMenuEntry};

fn class(name: &str, tag: Option<&str>, block: bool) -> StyleClass {
    StyleClass { class: name.to_string(), tag: tag.map(|t| t.to_string()), block }
}

fn describe(e: &StyleMenuEntry) -> String {
    match e {
        StyleMenuEntry::Item { label, tag } => format!("item {} {}", label, tag),
        StyleMenuEntry::Submenu { label, tag, classes } => format!("sub {} {} [{}]", label, tag, classes.join(",")),
    }
}

#[test]
fn style_menu_groups_classes_by_tag() {
    let cat = vec![
        class("nota", None, true),
        class("resaltado", None, false),
        class("epigrafe", Some("blockquote"), true),
        class("nota", None, true),
        class("centro", Some("p"), true),
        class("cita", Some("aside"), false),
    ];
    let menu: Vec<String> = style_menu(&cat).iter().map(describe).collect();
    assert_eq!(menu, vec![
        "item Negrita strong",
        "item Cursiva em",
        "item Título 1 h1",
        "item Título 2 h2",
        "sub Párrafo p [nota,centro]",
        "sub aside aside [cita]",
        "sub blockquote blockquote [epigrafe]",
        "sub span span [resaltado]",
    ]);
    let empty: Vec<String> = style_menu(&Vec::new()).iter().map(describe).collect();
    assert_eq!(empty.len(), 5);
}

#[test]
fn class_entries_round_trip() {
    assert_eq!(class_item_label("p", "nota"), "p.nota");
    let target = class_item_target("p", "nota");
    assert_eq!(target, "p|nota");
    assert_eq!(parse_tag_class(&target), ("p".to_string(), "nota".to_string()));
    assert_eq!(parse_tag_class("solo"), ("span".to_string(), "solo".to_string()));
    assert_eq!(parse_tag_class("a|b|c"), ("a".to_string(), "b|c".to_string()));
    assert_eq!(apply_tag_action("h1"), "editor.apply-tag('h1')");
    assert_eq!(apply_tag_class_action("p", "sub"), "editor.apply-tag-class('p|sub')");
}

#[test]
fn list_kinds() {
    assert!(parse_list_kind("ul") == Ok(ListKind::Unordered));
    assert!(parse_list_kind("ol") == Ok(ListKind::Ordered));
    assert_eq!(parse_list_kind("dl").err(), Some("Tipo de lista desconocido: dl".to_string()));
}
