use gutenair::history::{add_to_history, history_without, HISTORY_LIMIT};
use gutenair::recent::{recent_entries, recent_project, RECENT_LIMIT};

fn strings(v: &[&str]) -> Vec<String> {
    v.iter().map(|s| s.to_string()).collect()
}

#[test]
fn recent_list_filters_and_caps() {
    let history = strings(&["/home/u/Novela", "/home/u/libros/Cuentos.EPUB", "/tmp/otro"]);
    let all = recent_entries(&history, "");
    assert_eq!(all.len(), 3);
    assert_eq!(all[0].name, "Novela");
    assert!(!all[0].is_epub);
    assert!(all[1].is_epub);
    let f = recent_entries(&history, "LIBROS");
    assert_eq!(f.len(), 1);
    assert_eq!(f[0].path, "/home/u/libros/Cuentos.EPUB");
    let many: Vec<String> = (0..20).map(|i| format!("/p/{}", i)).collect();
    let capped = recent_entries(&many, "");
    assert_eq!(capped.len(), RECENT_LIMIT);
    assert_eq!(capped.len(), 10);
    assert_eq!(capped[9].path, "/p/9");
    assert_eq!(recent_project(&history, 1), Some("/home/u/Novela".to_string()));
    assert_eq!(recent_project(&history, 5), None);
}

#[test]
fn history_puts_the_opened_project_first_once() {
    let h = strings(&["/a", "/b", "/c"]);
    assert_eq!(add_to_history(&h, "/b"), strings(&["/b", "/a", "/c"]));
    assert_eq!(add_to_history(&add_to_history(&h, "/b"), "/b"), add_to_history(&h, "/b"));
    let long: Vec<String> = (0..HISTORY_LIMIT).map(|i| format!("/p{}", i)).collect();
    let h2 = add_to_history(&long, "/nuevo");
    assert_eq!(h2.len(), HISTORY_LIMIT);
    assert_eq!(h2[0], "/nuevo");
    assert_eq!(history_without(&h, "/a"), strings(&["/b", "/c"]));
}

#[test]
fn empty_search_lists_the_first_ten() {
    let many: Vec<String> = (0..12).map(|i| format!("/p/{}", i)).collect();
    let rows = recent_entries(&many, "");
    let paths: Vec<&str> = rows.iter().map(|r| r.path.as_str()).collect();
    let expected: Vec<String> = (0..10).map(|i| format!("/p/{}", i)).collect();
    assert_eq!(paths, expected.iter().map(|s| s.as_str()).collect::<Vec<_>>());
    let one = vec!["/solo".to_string()];
    assert_eq!(recent_entries(&one, "").len(), 1);
}
