use gutenair::{char_offset_to_byte, text_offset_in_xhtml_fragment, find_paragraph_split_target, extract_id_attr};

#[test]
fn char_offset_to_byte_ascii_and_multibyte() {
    assert_eq!(char_offset_to_byte("hola", 2), 2);
    assert_eq!(char_offset_to_byte("añb", 2), 3);
    assert_eq!(char_offset_to_byte("añb", 10), 4);
    assert_eq!(char_offset_to_byte("", 0), 0);
}

#[test]
fn text_offset_counts_entities_once_and_skips_tags() {
    assert_eq!(text_offset_in_xhtml_fragment("ab<em>cd</em>", 8), Some(4));
    assert_eq!(text_offset_in_xhtml_fragment("a&amp;b", 7), Some(3));
    assert_eq!(text_offset_in_xhtml_fragment("a&amp;b", 3), Some(3));
    assert_eq!(text_offset_in_xhtml_fragment("ab<em>cd", 4), None);
    assert_eq!(text_offset_in_xhtml_fragment("ab", 5), None);
    assert_eq!(text_offset_in_xhtml_fragment("ñab", 2), Some(1));
}

#[test]
fn extract_id_attr_reads_both_quote_styles() {
    assert_eq!(extract_id_attr("<p id=\"p1\" class=\"x\">"), Some("p1".to_string()));
    assert_eq!(extract_id_attr("<p class='x' id='p2'>"), Some("p2".to_string()));
    assert_eq!(extract_id_attr("<p class=\"x\">"), None);
}

#[test]
fn paragraph_split_target_finds_paragraph_under_cursor() {
    let text = "<body><p id=\"a\">Uno dos</p><p id=\"b\">Tres <em>cuatro</em> cinco</p></body>";
    let cursor = text.find("cinco").unwrap();
    let t = find_paragraph_split_target(text, cursor).unwrap();
    assert_eq!(t.paragraph_id, "b");
    assert_eq!(t.text_offset, "Tres cuatro ".chars().count());
    let t = find_paragraph_split_target(text, text.find("dos").unwrap()).unwrap();
    assert_eq!(t.paragraph_id, "a");
    assert_eq!(t.text_offset, 4);
}

#[test]
fn paragraph_split_target_errors() {
    let text = "<p>Sin id</p>";
    assert_eq!(
        find_paragraph_split_target(text, 4).err(),
        Some("El párrafo bajo el cursor no tiene atributo id.".to_string())
    );
    let text = "<h1>Nada</h1>";
    assert_eq!(
        find_paragraph_split_target(text, 5).err(),
        Some("No encontré un <p id=\"...\"> que contenga el cursor.".to_string())
    );
    let text = "<p id=\"x\">a <em>b</em></p>";
    assert_eq!(
        find_paragraph_split_target(text, 13).err(),
        Some("El cursor está dentro de una etiqueta XHTML; ponelo en texto del párrafo.".to_string())
    );
}
