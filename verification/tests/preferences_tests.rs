use gutenair::groups::{core_content_folders, manifest_groups, merge_configured_groups, save_groups, visible_groups};
use gutenair::preferences::{model_position, models_loaded_text, preference_entries, set_group_visible};

fn strings(v: &[&str]) -> Vec<String> {
    v.iter().map(|s| s.to_string()).collect()
}

#[test]
fn preference_entries_core_first_then_sorted_extras() {
    let core = strings(&["Text", "Styles", "Images", "Fonts"]);
    let groups = strings(&["text", "Misc", "Audio", "Images"]);
    let hidden = strings(&["Audio", "Fonts"]);
    let e = preference_entries(&core, &groups, &hidden);
    assert_eq!(e, vec![
        ("text".to_string(), "text".to_string(), true),
        ("Styles".to_string(), "Estilos".to_string(), true),
        ("Images".to_string(), "Imágenes".to_string(), true),
        ("Fonts".to_string(), "Fuentes".to_string(), false),
        ("Audio".to_string(), "Audio".to_string(), false),
        ("Misc".to_string(), "Miscelánea".to_string(), true),
    ]);
}

#[test]
fn switching_a_group_and_saving() {
    let mut e = vec![
        ("Text".to_string(), "Texto".to_string(), true),
        ("Misc".to_string(), "Miscelánea".to_string(), true),
    ];
    set_group_visible(&mut e, "Misc", false);
    assert_eq!(e[1].2, false);
    assert_eq!(e[0].2, true);
    set_group_visible(&mut e, "none", false);
    assert_eq!(e[0].2, true);
    assert_eq!(save_groups(&e), (strings(&["Text", "Misc"]), strings(&["Misc"])));
}

#[test]
fn groups_of_a_book() {
    let hrefs = strings(&["Text/a.xhtml", "nav.xhtml", "Styles/s.css", "Text/b.xhtml"]);
    assert_eq!(manifest_groups(&hrefs), strings(&["Text", "Styles"]));
    let mut configured = strings(&["Text"]);
    let changed = merge_configured_groups(&mut configured, &strings(&["Images"]), &strings(&["Text", "Images", "Misc"]));
    assert!(changed);
    assert_eq!(configured, strings(&["Text", "Misc"]));
    let changed = merge_configured_groups(&mut configured, &Vec::new(), &strings(&["Text"]));
    assert!(!changed);
    assert_eq!(visible_groups(&strings(&["Text", "Misc", "Images"]), &strings(&["Misc"])), strings(&["Text", "Images"]));
    assert_eq!(core_content_folders(&strings(&["OEBPS/Text", "META-INF", "OEBPS/Styles"])), strings(&["Text", "Styles"]));
}

#[test]
fn model_choice_and_status() {
    let models = strings(&["llama3", "mistral"]);
    assert_eq!(model_position(&models, "mistral"), 1);
    assert_eq!(model_position(&models, "otro"), 0);
    assert_eq!(models_loaded_text(2), "2 modelo(s) cargado(s)");
}
