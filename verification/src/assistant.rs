use vstd::prelude::*;
use vstd::string::*;

use crate::history::texts;
use crate::strings::{char_range, collect_chars, concat_str};

verus! {

broadcast use vstd::string::group_string_axioms;

/// `s` without the slashes it ends with (`trim_end_matches('/')`).
pub open spec fn trim_trailing_slashes(s: Seq<char>) -> Seq<char>
    decreases s.len(),
{
    if s.len() > 0 && s.last() == '/' { trim_trailing_slashes(s.drop_last()) } else { s }
}

/// The URL of an endpoint of the Ollama server at `base`: the base without
/// trailing slashes, then the endpoint's path.
pub fn ollama_endpoint(base: &str, path: &str) -> (r: String)
    ensures
        r@ == trim_trailing_slashes(base@) + path@,
{
    let chars = collect_chars(base);
    let mut end: usize = chars.len();
    proof { assert(base@.take(end as int) =~= base@); }
    while end > 0 && chars[end - 1] == '/'
        invariant
            chars@ == base@,
            end <= chars@.len(),
            trim_trailing_slashes(base@.take(end as int)) == trim_trailing_slashes(base@),
        decreases end,
    {
        proof { assert(base@.take(end as int).drop_last() =~= base@.take(end - 1)); }
        end = end - 1;
    }
    let trimmed = char_range(&chars, 0, end);
    proof { assert(base@.take(end as int) =~= base@.subrange(0, end as int)); }
    concat_str(trimmed.as_str(), path)
}

/// The path of the generation endpoint.
pub const GENERATE_PATH: &'static str = "/api/generate";

/// The path of the endpoint that lists the installed models.
pub const TAGS_PATH: &'static str = "/api/tags";

/// The prompt sent to the model: the instruction alone, or, with a selected
/// text, the text as context followed by the instruction.
pub open spec fn full_prompt_spec(prompt: Seq<char>, input: Seq<char>) -> Seq<char> {
    if input.len() == 0 {
        prompt
    } else {
        "Contexto:\n---\n"@ + input + "\n---\n\nInstrucción: "@ + prompt
    }
}

/// The prompt sent to the model for an instruction and the selected text.
pub fn full_prompt(prompt: &str, input: &str) -> (r: String)
    ensures
        r@ == full_prompt_spec(prompt@, input@),
{
    if input.unicode_len() == 0 {
        prompt.to_string()
    } else {
        let a = concat_str("Contexto:\n---\n", input);
        let b = concat_str(a.as_str(), "\n---\n\nInstrucción: ");
        concat_str(b.as_str(), prompt)
    }
}

/// Whether a generation can be asked for: the server and model must be
/// configured and the instruction written; else the status line says what is
/// missing.
pub fn generation_check(url: &str, model: &str, prompt: &str) -> (r: Result<(), &'static str>)
    ensures
        (url@.len() == 0 || model@.len() == 0) ==> r is Err && r->Err_0@ == "Error: Configura Ollama en Preferencias"@,
        (url@.len() > 0 && model@.len() > 0 && prompt@.len() == 0) ==> r is Err && r->Err_0@ == "Error: Escribe una instrucción"@,
        (url@.len() > 0 && model@.len() > 0 && prompt@.len() > 0) ==> r is Ok,
{
    if url.unicode_len() == 0 || model.unicode_len() == 0 {
        return Err("Error: Configura Ollama en Preferencias");
    }
    if prompt.unicode_len() == 0 {
        return Err("Error: Escribe una instrucción");
    }
    Ok(())
}

/// The text of a generation reply: an error naming the status when the
/// server did not succeed, an error when the reply has no `response` text,
/// else that text.
pub fn generation_result(success: bool, status: &str, response: Option<String>) -> (r: Result<String, String>)
    ensures
        !success ==> r is Err && r->Err_0@ == "Error del servidor: "@ + status@,
        success && response is None ==> r is Err && r->Err_0@ == "Respuesta inválida de Ollama"@,
        success && response is Some ==> r is Ok && r->Ok_0@ == response->Some_0@,
{
    if !success {
        return Err(concat_str("Error del servidor: ", status));
    }
    match response {
        Some(t) => Ok(t),
        None => Err("Respuesta inválida de Ollama".to_string()),
    }
}

/// The names of the models that a list reply names, in order.
pub open spec fn named_models(names: Seq<Option<String>>) -> Seq<Seq<char>>
    decreases names.len(),
{
    if names.len() == 0 {
        Seq::empty()
    } else {
        let rest = named_models(names.drop_last());
        match names.last() {
            Some(n) => rest.push(n@),
            None => rest,
        }
    }
}

/// The models of a list reply: its `models` array holds entries with or
/// without a `name`; without the array the reply is refused.
pub fn models_from_reply(models: Option<Vec<Option<String>>>) -> (r: Result<Vec<String>, String>)
    ensures
        models is None ==> r is Err && r->Err_0@ == "respuesta inesperada del servidor"@,
        models is Some ==> r is Ok && texts(r->Ok_0@) == named_models(models->Some_0@),
{
    let entries = match models {
        Some(e) => e,
        None => return Err("respuesta inesperada del servidor".to_string()),
    };
    let mut out: Vec<String> = Vec::new();
    let mut i: usize = 0;
    while i < entries.len()
        invariant
            i <= entries@.len(),
            texts(out@) == named_models(entries@.take(i as int)),
        decreases entries@.len() - i,
    {
        proof {
            assert(entries@.take(i + 1).drop_last() =~= entries@.take(i as int));
            assert(entries@.take(i + 1).last() == entries@[i as int]);
        }
        match &entries[i] {
            Some(n) => {
                let ghost before = texts(out@);
                out.push(n.clone());
                proof { assert(texts(out@) =~= before.push(n@)); }
            },
            None => {},
        }
        i = i + 1;
    }
    proof { assert(entries@.take(entries@.len() as int) =~= entries@); }
    Ok(out)
}

/// The status line for a failed request.
pub fn error_status(e: &str) -> (r: String)
    ensures
        r@ == "Error: "@ + e@,
{
    concat_str("Error: ", e)
}

} // verus!
