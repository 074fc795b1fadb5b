use gutenair::manifest::{sort_items_by_spine, ManifestItem};
use gutenair::ordering::{spine_order, text_less, text_order};
use gutenair::rename::sort_selection_by_spine;

fn item(id: &str, href: &str, media: &str) -> ManifestItem {
    ManifestItem { id: id.to_string(), href: href.to_string(), media_type: media.to_string() }
}

fn strings(v: &[&str]) -> Vec<String> {
    v.iter().map(|s| s.to_string()).collect()
}

#[test]
fn text_less_follows_code_points() {
    assert!(text_less("a", "b"));
    assert!(!text_less("b", "a"));
    assert!(text_less("ab", "abc"));
    assert!(!text_less("abc", "ab"));
    assert!(!text_less("same", "same"));
    assert!(text_less("Z", "a"));
    assert!(text_less("", "x"));
    assert!(text_less("z", "ñ"));
    for (a, b) in [("Text", "Styles"), ("img", "Images"), ("é", "e"), ("a1", "a10")] {
        assert_eq!(text_less(a, b), a < b);
    }
}

#[test]
fn text_order_is_a_stable_sort() {
    let texts = strings(&["b", "a", "c", "a"]);
    assert_eq!(text_order(&texts), vec![1, 3, 0, 2]);
    let empty: Vec<String> = Vec::new();
    assert_eq!(text_order(&empty), Vec::<usize>::new());
}

#[test]
fn spine_order_puts_spine_first_then_tiebreak() {
    let spine = strings(&["c2", "c1"]);
    let keys = vec![
        ("img".to_string(), "b.png".to_string()),
        ("c1".to_string(), "c1".to_string()),
        ("zz".to_string(), "a.css".to_string()),
        ("c2".to_string(), "c2".to_string()),
    ];
    // c2 (spine 0), c1 (spine 1), then outside the spine by tie-break text
    assert_eq!(spine_order(&keys, &spine), vec![3, 1, 2, 0]);
}

#[test]
fn sort_items_by_spine_by_href_and_by_id() {
    let items = vec![
        item("style", "Styles/z.css", "text/css"),
        item("ch2", "Text/ch2.xhtml", "application/xhtml+xml"),
        item("cover", "Images/a.png", "image/png"),
        item("ch1", "Text/ch1.xhtml", "application/xhtml+xml"),
    ];
    let spine = strings(&["ch1", "ch2"]);
    let by_href: Vec<String> = sort_items_by_spine(&items, &spine, true).into_iter().map(|i| i.id).collect();
    assert_eq!(by_href, vec!["ch1", "ch2", "cover", "style"]);
    let by_id: Vec<String> = sort_items_by_spine(&items, &spine, false).into_iter().map(|i| i.id).collect();
    assert_eq!(by_id, vec!["ch1", "ch2", "cover", "style"]);
    let items2 = vec![item("b", "Images/a.png", "image/png"), item("a", "Images/b.png", "image/png")];
    let by_href: Vec<String> = sort_items_by_spine(&items2, &Vec::new(), true).into_iter().map(|i| i.id).collect();
    assert_eq!(by_href, vec!["b", "a"]);
    let by_id: Vec<String> = sort_items_by_spine(&items2, &Vec::new(), false).into_iter().map(|i| i.id).collect();
    assert_eq!(by_id, vec!["a", "b"]);
}

#[test]
fn selection_sorted_by_spine() {
    let sel = vec![
        ("Text".to_string(), "notes".to_string()),
        ("Text".to_string(), "ch3".to_string()),
        ("Text".to_string(), "ch1".to_string()),
        ("Text".to_string(), "appendix".to_string()),
    ];
    let spine = strings(&["ch1", "ch2", "ch3"]);
    let ids: Vec<String> = sort_selection_by_spine(&sel, &spine).into_iter().map(|e| e.1).collect();
    assert_eq!(ids, vec!["ch1", "ch3", "appendix", "notes"]);
}
