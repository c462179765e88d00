use weaveback::ai::{
    api_key_var, done_frame, error_frame, gemini_text, plan_ai_request, stream_line, stream_step, system_prompt,
    token_frame, user_content, AiPlan, StreamFields, StreamLine,
};
use weaveback::config::AiBackend;

fn json(line: StreamLine) -> Option<String> {
    match line {
        StreamLine::Json(s) => Some(s),
        _ => None,
    }
}

fn fields(kind: Option<&str>, text: Option<&str>, done: bool) -> StreamFields {
    StreamFields { kind: kind.map(String::from), text: text.map(String::from), done, blocks: Vec::new() }
}

#[test]
fn questions_carry_the_chunk_context_when_there_is_one() {
    assert_eq!(user_content("why?", None), "why?");
    assert_eq!(
        user_content("why?", Some("{\"name\":\"a\"}")),
        "Chunk context:\n```json\n{\"name\":\"a\"}\n```\n\nQuestion: why?"
    );
    assert!(system_prompt().starts_with("You are an AI assistant embedded in weaveback"));
    assert_eq!(gemini_text("S", "U"), "System: S\n\nU");
}

#[test]
fn back_ends_that_need_a_key_refuse_without_one() {
    assert_eq!(api_key_var(AiBackend::Anthropic), Some("ANTHROPIC_API_KEY"));
    assert_eq!(api_key_var(AiBackend::Gemini), Some("GOOGLE_API_KEY"));
    assert_eq!(api_key_var(AiBackend::OpenAi), Some("OPENAI_API_KEY"));
    assert_eq!(api_key_var(AiBackend::Ollama), None);
    match plan_ai_request(AiBackend::Anthropic, None, None, None, "s", "u") {
        Err(e) => assert_eq!(e, "no_api_key: set ANTHROPIC_API_KEY env var"),
        Ok(_) => panic!("expected a refusal"),
    }
    match plan_ai_request(AiBackend::Gemini, None, None, Some(""), "s", "u") {
        Err(e) => assert_eq!(e, "no_api_key: set GOOGLE_API_KEY env var"),
        Ok(_) => panic!("expected a refusal"),
    }
}

#[test]
fn plans_use_the_configured_or_default_model_and_endpoint() {
    match plan_ai_request(AiBackend::Anthropic, Some("m1"), None, Some("k"), "s", "u") {
        Ok(AiPlan::Anthropic { url, key, model }) => {
            assert_eq!(url, "https://api.anthropic.com/v1/messages");
            assert_eq!(key, "k");
            assert_eq!(model, "m1");
        }
        _ => panic!("expected an Anthropic plan"),
    }
    match plan_ai_request(AiBackend::Anthropic, None, None, Some("k"), "s", "u") {
        Err(e) => assert_eq!(e, "no_model: set --ai-model for the anthropic back end"),
        Ok(_) => panic!("expected a refusal"),
    }
    match plan_ai_request(AiBackend::Gemini, Some("g2"), None, Some("k"), "s", "u") {
        Ok(AiPlan::Gemini { url, model }) => {
            assert_eq!(model, "g2");
            assert_eq!(url, "https://generativelanguage.googleapis.com/v1beta/models/g2:streamGenerateContent?key=k");
        }
        _ => panic!("expected a Gemini plan"),
    }
    match plan_ai_request(AiBackend::Ollama, None, Some("http://h:1//"), None, "s", "u") {
        Ok(AiPlan::Ollama { url, model }) => {
            assert_eq!(url, "http://h:1/api/chat");
            assert_eq!(model, "llama3");
        }
        _ => panic!("expected an Ollama plan"),
    }
    match plan_ai_request(AiBackend::OpenAi, None, None, None, "s", "u") {
        Ok(AiPlan::OpenAi { url, model, key }) => {
            assert_eq!(url, "https://api.openai.com/v1/chat/completions");
            assert_eq!(model, "gpt-4o");
            assert_eq!(key, None);
        }
        _ => panic!("expected an OpenAI plan"),
    }
    match plan_ai_request(AiBackend::ClaudeCli, None, None, None, "sys", "user") {
        Ok(AiPlan::Cli { args }) => assert_eq!(
            args,
            vec!["-p", "user", "--output-format", "stream-json", "--verbose", "--append-system-prompt", "sys"]
        ),
        _ => panic!("expected a command-line plan"),
    }
}

#[test]
fn streamed_lines_are_framed_per_back_end() {
    assert_eq!(json(stream_line(AiBackend::Anthropic, "data: {\"a\":1}\r\n")), Some("{\"a\":1}".to_string()));
    assert!(matches!(stream_line(AiBackend::Anthropic, "event: ping\n"), StreamLine::Skip));
    assert!(matches!(stream_line(AiBackend::OpenAi, "  data: [DONE]  "), StreamLine::Done));
    assert_eq!(json(stream_line(AiBackend::Gemini, ",[{\"x\":2}]\n")), Some("{\"x\":2}".to_string()));
    assert!(matches!(stream_line(AiBackend::Gemini, "[\n"), StreamLine::Skip));
    assert!(matches!(stream_line(AiBackend::Ollama, "   \n"), StreamLine::Skip));
    assert_eq!(json(stream_line(AiBackend::ClaudeCli, " {\"type\":\"result\"} \n")), Some("{\"type\":\"result\"}".to_string()));
}

#[test]
fn events_carry_the_text_as_json() {
    assert_eq!(token_frame("a\"b\n"), "event: token\ndata: {\"t\":\"a\\\"b\\n\"}\n\n");
    assert_eq!(done_frame(), "event: done\ndata:\n\n");
    assert_eq!(error_frame("boom"), "event: error\ndata: {\"error\":\"boom\"}\n\nevent: done\ndata:\n\n");
}

#[test]
fn streamed_objects_become_tokens_or_end_the_answer() {
    let s = stream_step(AiBackend::Anthropic, &fields(Some("content_block_delta"), Some("hi"), false));
    assert_eq!(s.frames, vec![token_frame("hi")]);
    assert!(!s.stop);
    let s = stream_step(AiBackend::Anthropic, &fields(Some("content_block_delta"), Some(""), false));
    assert!(s.frames.is_empty());
    let s = stream_step(AiBackend::Anthropic, &fields(Some("message_stop"), None, false));
    assert!(s.frames.is_empty() && s.stop);
    let s = stream_step(AiBackend::Ollama, &fields(None, Some(""), true));
    assert_eq!(s.frames, vec![token_frame("")]);
    assert!(s.stop);
    let s = stream_step(AiBackend::OpenAi, &fields(None, Some("x"), true));
    assert_eq!(s.frames, vec![token_frame("x")]);
    assert!(!s.stop);
    let f = StreamFields {
        kind: Some("assistant".to_string()),
        text: None,
        done: false,
        blocks: vec![
            (Some("text".to_string()), Some("one".to_string())),
            (Some("tool_use".to_string()), Some("skip".to_string())),
            (Some("text".to_string()), Some(String::new())),
            (Some("text".to_string()), Some("two".to_string())),
        ],
    };
    let s = stream_step(AiBackend::ClaudeCli, &f);
    assert_eq!(s.frames, vec![token_frame("one"), token_frame("two")]);
    assert!(!s.stop);
    let s = stream_step(AiBackend::ClaudeCli, &fields(Some("result"), None, false));
    assert!(s.frames.is_empty() && s.stop);
}

#[test]
fn back_ends_are_named_on_the_command_line() {
    assert_eq!(AiBackend::from_name("anthropic"), AiBackend::Anthropic);
    assert_eq!(AiBackend::from_name("gemini"), AiBackend::Gemini);
    assert_eq!(AiBackend::from_name("ollama"), AiBackend::Ollama);
    assert_eq!(AiBackend::from_name("openai"), AiBackend::OpenAi);
    assert_eq!(AiBackend::from_name("cli"), AiBackend::ClaudeCli);
    assert_eq!(AiBackend::from_name("OpenAI"), AiBackend::ClaudeCli);
}

#[test]
fn token_frames_escape_control_characters_as_serde_json_does() {
    assert_eq!(
        token_frame("tab\there\u{1}\u{8}\u{c}\r\\é\u{7f}"),
        "event: token\ndata: {\"t\":\"tab\\there\\u0001\\b\\f\\r\\\\é\u{7f}\"}\n\n"
    );
    assert_eq!(
        error_frame("\u{1f}"),
        "event: error\ndata: {\"error\":\"\\u001f\"}\n\nevent: done\ndata:\n\n"
    );
}
