use gutenair::merge_toc_data;
use gutenair::toc::{apply_nav_preset, doc_row_title, heading_indent, heading_levels, item_row_title, level_label, nav_presets, NavPreset, TocDoc, TocItem};

fn it(level: u8, anchor: &str, included: bool) -> TocItem {
    TocItem { level, anchor: anchor.to_string(), title: format!("T {}", anchor), included }
}

fn doc(href: &str, included: bool, items: Vec<TocItem>) -> TocDoc {
    TocDoc { href: href.to_string(), title: String::new(), included, items }
}

fn flags(d: &[TocDoc]) -> Vec<(bool, Vec<bool>)> {
    d.iter().map(|d| (d.included, d.items.iter().map(|i| i.included).collect())).collect()
}

fn sample() -> Vec<TocDoc> {
    vec![
        doc("Text/a.xhtml", true, vec![it(1, "a1", true), it(2, "a2", true)]),
        doc("Text/b.xhtml", true, vec![it(2, "b1", true)]),
        doc("Text/c.xhtml", true, vec![]),
    ]
}

#[test]
fn merge_without_saved_state_keeps_fresh_scan() {
    let merged = merge_toc_data(sample(), None);
    assert_eq!(flags(&merged), flags(&sample()));
}

#[test]
fn merge_carries_saved_flags_over() {
    let saved = vec![
        doc("Text/b.xhtml", false, vec![it(2, "b1", false)]),
        doc("Text/a.xhtml", true, vec![it(2, "a2", false), it(3, "a1", false)]),
    ];
    let merged = merge_toc_data(sample(), Some(&saved));
    // a: found, a1 not found at level 1 (saved has level 3), a2 found -> false
    // b: found, b1 found -> false; c: not found -> fresh flags
    assert_eq!(
        flags(&merged),
        vec![(true, vec![true, false]), (false, vec![false]), (true, vec![])]
    );
    let hrefs: Vec<&str> = merged.iter().map(|d| d.href.as_str()).collect();
    assert_eq!(hrefs, vec!["Text/a.xhtml", "Text/b.xhtml", "Text/c.xhtml"]);
    assert_eq!(merged[0].items[1].anchor, "a2");
    assert_eq!(merged[0].items[1].title, "T a2");
}

#[test]
fn merge_twice_with_same_saved_state_changes_nothing_more() {
    let saved = vec![doc("Text/a.xhtml", false, vec![it(1, "a1", false)])];
    let once = merge_toc_data(sample(), Some(&saved));
    let twice = merge_toc_data(merge_toc_data(sample(), Some(&saved)), Some(&saved));
    assert_eq!(flags(&once), flags(&twice));
}

#[test]
fn merge_restores_an_unchanged_saved_state() {
    let mut saved = sample();
    saved[0].included = false;
    saved[0].items[1].included = false;
    saved[2].included = false;
    let merged = merge_toc_data(sample(), Some(&saved));
    assert_eq!(flags(&merged), flags(&saved));
}

#[test]
fn presets_mark_and_clear() {
    let mut d = sample();
    apply_nav_preset(&mut d, NavPreset::ClearAll);
    assert_eq!(flags(&d), vec![(false, vec![false, false]), (false, vec![false]), (false, vec![])]);
    apply_nav_preset(&mut d, NavPreset::MarkAll);
    assert_eq!(flags(&d), vec![(true, vec![true, true]), (true, vec![true]), (true, vec![])]);
    apply_nav_preset(&mut d, NavPreset::MarkLevel(2));
    assert_eq!(flags(&d), vec![(true, vec![false, true]), (true, vec![true]), (false, vec![])]);
    apply_nav_preset(&mut d, NavPreset::MarkLevel(1));
    assert_eq!(flags(&d), vec![(true, vec![true, false]), (false, vec![false]), (false, vec![])]);
    let before = flags(&d);
    apply_nav_preset(&mut d, NavPreset::Placeholder);
    assert_eq!(flags(&d), before);
}

#[test]
fn preset_applied_twice_is_applied_once() {
    let mut once = sample();
    apply_nav_preset(&mut once, NavPreset::MarkLevel(2));
    let mut twice = sample();
    apply_nav_preset(&mut twice, NavPreset::MarkLevel(2));
    apply_nav_preset(&mut twice, NavPreset::MarkLevel(2));
    assert_eq!(flags(&once), flags(&twice));
}

#[test]
fn heading_levels_and_preset_menu() {
    let mut d = sample();
    d.push(doc("Text/d.xhtml", true, vec![it(4, "d", true), it(1, "d1", true)]));
    assert_eq!(heading_levels(&d), vec![1, 2, 4]);
    let presets = nav_presets(&d);
    let labels: Vec<&str> = presets.iter().map(|p| p.1.as_str()).collect();
    assert_eq!(
        labels,
        vec!["Seleccionar headings para incluir", "Marcar todos", "Marcar H1", "Marcar H2", "Marcar H4", "Desmarcar todos"]
    );
    assert!(presets[0].0 == NavPreset::Placeholder);
    assert!(presets[3].0 == NavPreset::MarkLevel(2));
    assert!(presets[5].0 == NavPreset::ClearAll);
    assert_eq!(heading_levels(&Vec::new()), Vec::<u8>::new());
    assert_eq!(nav_presets(&Vec::new()).len(), 3);
}

#[test]
fn row_titles_and_levels() {
    let d = doc("Text/x.xhtml", true, vec![]);
    assert_eq!(doc_row_title(&d), "Text/x.xhtml");
    let mut d2 = doc("Text/x.xhtml", true, vec![]);
    d2.title = "Capítulo".to_string();
    assert_eq!(doc_row_title(&d2), "Capítulo");
    let mut i = it(2, "a", true);
    i.title = String::new();
    assert_eq!(item_row_title(&i), "Sin título");
    assert_eq!(item_row_title(&it(2, "b", true)), "T b");
    assert_eq!(level_label(3), "h3");
    assert_eq!(heading_indent(0), 24);
    assert_eq!(heading_indent(2), 48);
}

#[test]
fn merge_includes_new_chapters_and_headings() {
    let fresh = vec![
        doc("Text/a.xhtml", false, vec![it(1, "a1", false), it(2, "nuevo", false)]),
        doc("Text/nuevo.xhtml", false, vec![it(1, "n1", false)]),
    ];
    let saved = vec![doc("Text/a.xhtml", false, vec![it(1, "a1", false)])];
    let merged = merge_toc_data(fresh, Some(&saved));
    assert_eq!(flags(&merged), vec![(false, vec![false, true]), (true, vec![true])]);
}
