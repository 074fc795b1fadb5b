use gutenair::assistant::{error_status, full_prompt, generation_check, generation_result, models_from_reply, ollama_endpoint, GENERATE_PATH, TAGS_PATH};

#[test]
fn endpoints_drop_trailing_slashes() {
    assert_eq!(ollama_endpoint("http://localhost:11434/", GENERATE_PATH), "http://localhost:11434/api/generate");
    assert_eq!(ollama_endpoint("http://h//", TAGS_PATH), "http://h/api/tags");
    assert_eq!(ollama_endpoint("http://h", TAGS_PATH), "http://h/api/tags");
}

#[test]
fn prompt_with_and_without_context() {
    assert_eq!(full_prompt("Resumí", ""), "Resumí");
    assert_eq!(full_prompt("Resumí", "texto"), "Contexto:\n---\ntexto\n---\n\nInstrucción: Resumí");
}

#[test]
fn generation_requests_and_replies() {
    assert_eq!(generation_check("", "m", "p"), Err("Error: Configura Ollama en Preferencias"));
    assert_eq!(generation_check("u", "", "p"), Err("Error: Configura Ollama en Preferencias"));
    assert_eq!(generation_check("u", "m", ""), Err("Error: Escribe una instrucción"));
    assert_eq!(generation_check("u", "m", "p"), Ok(()));
    assert_eq!(generation_result(false, "500 Internal Server Error", None), Err("Error del servidor: 500 Internal Server Error".to_string()));
    assert_eq!(generation_result(true, "200 OK", None), Err("Respuesta inválida de Ollama".to_string()));
    assert_eq!(generation_result(true, "200 OK", Some("hola".to_string())), Ok("hola".to_string()));
    assert_eq!(error_status("sin red"), "Error: sin red");
}

#[test]
fn model_lists() {
    assert_eq!(models_from_reply(None), Err("respuesta inesperada del servidor".to_string()));
    assert_eq!(
        models_from_reply(Some(vec![Some("a".to_string()), None, Some("b".to_string())])),
        Ok(vec!["a".to_string(), "b".to_string()])
    );
}
