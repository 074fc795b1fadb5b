use gutenair::manifest::ManifestItem;
use gutenair::rename::{rename_items, rename_parts, rename_preview, rename_targets, renamed_file, RenameItem};

fn item(id: &str, href: &str, media: &str) -> ManifestItem {
    ManifestItem { id: id.to_string(), href: href.to_string(), media_type: media.to_string() }
}

fn ritem(id: &str, folder: &str, stem: &str, ext: &str) -> RenameItem {
    RenameItem { id: id.to_string(), folder: folder.to_string(), stem: stem.to_string(), ext: ext.to_string() }
}

#[test]
fn rename_parts_split_stem_and_extension() {
    assert_eq!(rename_parts("Text/cap1.xhtml"), ("cap1".to_string(), ".xhtml".to_string()));
    assert_eq!(rename_parts("Images/foto.final.png"), ("foto.final".to_string(), ".png".to_string()));
    assert_eq!(rename_parts("Misc/LEEME"), ("LEEME".to_string(), String::new()));
    assert_eq!(rename_parts(".hidden"), (".hidden".to_string(), String::new()));
}

#[test]
fn rename_items_keep_order_and_skip_unknown_ids() {
    let manifest = vec![
        item("c1", "Text/intro.xhtml", "application/xhtml+xml"),
        item("c2", "Text/final.xhtml", "application/xhtml+xml"),
    ];
    let sel = vec![
        ("Text".to_string(), "c2".to_string()),
        ("Text".to_string(), "gone".to_string()),
        ("Text".to_string(), "c1".to_string()),
    ];
    let items = rename_items(&sel, &manifest);
    assert_eq!(items.len(), 2);
    assert_eq!((items[0].id.as_str(), items[0].folder.as_str(), items[0].stem.as_str(), items[0].ext.as_str()), ("c2", "Text", "final", ".xhtml"));
    assert_eq!((items[1].id.as_str(), items[1].stem.as_str()), ("c1", "intro"));
}

#[test]
fn renamed_file_pads_the_number() {
    assert_eq!(renamed_file("capitulo_", 1, 2, ".xhtml"), "capitulo_01.xhtml");
    assert_eq!(renamed_file("", 123, 2, ".png"), "123.png");
    assert_eq!(renamed_file("p", 7, 4, ""), "p0007");
    assert_eq!(renamed_file("p", -5, 4, ""), format!("p{:0>4}", -5));
}

#[test]
fn rename_preview_and_targets() {
    let items = vec![ritem("a", "Text", "intro", ".xhtml"), ritem("b", "Text", "final", ".xhtml")];
    let preview = rename_preview(&items, "cap_", 9, 2);
    assert_eq!(preview, vec![
        ("intro.xhtml".to_string(), "cap_09.xhtml".to_string()),
        ("final.xhtml".to_string(), "cap_10.xhtml".to_string()),
    ]);
    let targets = rename_targets(&items, "cap_", 9, 2);
    assert_eq!(targets, vec![
        ("a".to_string(), "Text/cap_09.xhtml".to_string()),
        ("b".to_string(), "Text/cap_10.xhtml".to_string()),
    ]);
}

#[test]
fn rename_targets_are_distinct() {
    let items: Vec<RenameItem> = (0..12).map(|i| ritem(&format!("i{}", i), "Text", "x", ".xhtml")).collect();
    let targets = rename_targets(&items, "c", 0, 1);
    let mut hrefs: Vec<String> = targets.into_iter().map(|t| t.1).collect();
    hrefs.sort();
    hrefs.dedup();
    assert_eq!(hrefs.len(), 12);
}

#[test]
fn numbering_may_end_at_the_largest_number() {
    let items = vec![ritem("a", "Text", "intro", ".xhtml")];
    let targets = rename_targets(&items, "c", i32::MAX, 1);
    assert_eq!(targets, vec![("a".to_string(), format!("Text/c{}.xhtml", i32::MAX))]);
    let plan = gutenair::importing::new_chapters("cap", 1, i32::MAX, 1);
    assert_eq!(plan.len(), 1);
    assert_eq!(plan[0].0, format!("cap{}", i32::MAX));
}
