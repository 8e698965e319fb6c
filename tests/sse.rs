use token_optimizer::json::{parse_json, JsonValue};
use token_optimizer::sse::{anthropic_chunk, openai_chunk, parse_sse_line, SseDecoder, SseFormat, StreamChunk};

fn decode_all(format: SseFormat, text: &str) -> Vec<StreamChunk> {
    let mut d = SseDecoder::new(format);
    let mut out = d.feed(text.as_bytes());
    out.extend(d.finish());
    out
}

#[test]
fn test_openai_text_delta() {
    let line = r#"data: {"choices":[{"delta":{"content":"Hello"},"index":0}]}"#;
    match parse_sse_line(line, SseFormat::OpenAI) {
        Some(StreamChunk::TextDelta(text)) => assert_eq!(text, "Hello"),
        other => panic!("Expected TextDelta, got {:?}", other),
    }
}

#[test]
fn test_openai_done() {
    let line = "data: [DONE]";
    match parse_sse_line(line, SseFormat::OpenAI) {
        Some(StreamChunk::Done(_)) => {}
        other => panic!("Expected Done, got {:?}", other),
    }
}

#[test]
fn test_anthropic_text_delta() {
    let line = r#"data: {"type":"content_block_delta","delta":{"text":"world"}}"#;
    match parse_sse_line(line, SseFormat::Anthropic) {
        Some(StreamChunk::TextDelta(text)) => assert_eq!(text, "world"),
        other => panic!("Expected TextDelta, got {:?}", other),
    }
}

#[test]
fn test_anthropic_event_line_skipped() {
    let line = "event: content_block_delta";
    assert!(parse_sse_line(line, SseFormat::Anthropic).is_none());
}

#[test]
fn test_ollama_response() {
    let line = r#"{"message":{"content":"Hi"},"done":false}"#;
    match parse_sse_line(line, SseFormat::Ollama) {
        Some(StreamChunk::TextDelta(text)) => assert_eq!(text, "Hi"),
        other => panic!("Expected TextDelta, got {:?}", other),
    }
}

#[test]
fn test_ollama_done() {
    let line = r#"{"done":true,"prompt_eval_count":10,"eval_count":20}"#;
    match parse_sse_line(line, SseFormat::Ollama) {
        Some(StreamChunk::Done(usage)) => {
            assert_eq!(usage.prompt_tokens, 10);
            assert_eq!(usage.completion_tokens, 20);
        }
        other => panic!("Expected Done, got {:?}", other),
    }
}

#[test]
fn test_empty_line_skipped() {
    assert!(parse_sse_line("", SseFormat::OpenAI).is_none());
    assert!(parse_sse_line("  ", SseFormat::Anthropic).is_none());
}

#[test]
fn test_comment_skipped() {
    assert!(parse_sse_line(": keep-alive", SseFormat::OpenAI).is_none());
}

#[test]
fn openai_stream_scenario() {
    let chunks = decode_all(
        SseFormat::OpenAI,
        "data: {\"choices\":[{\"delta\":{\"content\":\"Hello\"},\"index\":0}]}\ndata: [DONE]\n",
    );
    assert_eq!(chunks.len(), 2);
    match &chunks[0] {
        StreamChunk::TextDelta(t) => assert_eq!(t, "Hello"),
        other => panic!("unexpected {:?}", other),
    }
    match &chunks[1] {
        StreamChunk::Done(u) => {
            assert_eq!(u.prompt_tokens, 0);
            assert_eq!(u.completion_tokens, 0);
        }
        other => panic!("unexpected {:?}", other),
    }
}

#[test]
fn anthropic_stream_skips_event_lines() {
    let chunks = decode_all(
        SseFormat::Anthropic,
        "event: content_block_delta\ndata: {\"type\":\"content_block_delta\",\"delta\":{\"text\":\"world\"}}\ndata: {\"type\":\"message_stop\"}\n",
    );
    assert_eq!(chunks.len(), 2);
    assert!(matches!(&chunks[0], StreamChunk::TextDelta(t) if t == "world"));
    assert!(matches!(&chunks[1], StreamChunk::Done(u) if u.total_tokens == 0));
}

#[test]
fn ollama_stream_with_usage() {
    let chunks = decode_all(
        SseFormat::Ollama,
        "{\"message\":{\"content\":\"Hi\"},\"done\":false}\n{\"done\":true,\"prompt_eval_count\":10,\"eval_count\":20}\n",
    );
    assert_eq!(chunks.len(), 2);
    assert!(matches!(&chunks[0], StreamChunk::TextDelta(t) if t == "Hi"));
    match &chunks[1] {
        StreamChunk::Done(u) => {
            assert_eq!(u.prompt_tokens, 10);
            assert_eq!(u.completion_tokens, 20);
            assert_eq!(u.total_tokens, 30);
        }
        other => panic!("unexpected {:?}", other),
    }
}

#[test]
fn empty_stream_yields_single_done() {
    let chunks = decode_all(SseFormat::OpenAI, "");
    assert_eq!(chunks.len(), 1);
    assert!(matches!(&chunks[0], StreamChunk::Done(u) if u.prompt_tokens == 0 && u.completion_tokens == 0));
}

#[test]
fn stream_split_across_reads_and_single_terminal() {
    let mut d = SseDecoder::new(SseFormat::OpenAI);
    let mut all = d.feed(b"data: {\"choices\":[{\"delta\":{\"con");
    assert!(all.is_empty());
    all.extend(d.feed(b"tent\":\"Hel\"}}]}\ndata: [DONE]\ndata: {\"choices\":[{\"delta\":{\"content\":\"late\"}}]}\n"));
    all.extend(d.finish());
    let terminals = all.iter().filter(|c| !matches!(c, StreamChunk::TextDelta(_))).count();
    assert_eq!(terminals, 1);
    assert_eq!(all.len(), 2);
    assert!(matches!(&all[0], StreamChunk::TextDelta(t) if t == "Hel"));
}

#[test]
fn malformed_payload_is_error_and_terminal() {
    let chunks = decode_all(SseFormat::OpenAI, "data: {not json\ndata: [DONE]\n");
    assert_eq!(chunks.len(), 1);
    assert!(matches!(&chunks[0], StreamChunk::Error(m) if m.starts_with("JSON parse error: ")));
}

#[test]
fn openai_finish_reason_carries_usage() {
    let v = parse_json(r#"{"choices":[{"delta":{},"finish_reason":"stop"}],"usage":{"prompt_tokens":7,"completion_tokens":3}}"#).unwrap();
    match openai_chunk(&v) {
        Some(StreamChunk::Done(u)) => {
            assert_eq!(u.prompt_tokens, 7);
            assert_eq!(u.completion_tokens, 3);
            assert_eq!(u.total_tokens, 10);
        }
        other => panic!("unexpected {:?}", other),
    }
}

#[test]
fn anthropic_error_and_message_delta() {
    let v = parse_json(r#"{"type":"error","error":{"message":"overloaded"}}"#).unwrap();
    assert!(matches!(anthropic_chunk(&v), Some(StreamChunk::Error(m)) if m == "overloaded"));
    let v = parse_json(r#"{"type":"message_delta","usage":{"input_tokens":5,"output_tokens":9}}"#).unwrap();
    assert!(matches!(anthropic_chunk(&v), Some(StreamChunk::Done(u)) if u.prompt_tokens == 5 && u.completion_tokens == 9));
    let v = JsonValue::Null;
    assert!(anthropic_chunk(&v).is_none());
}

#[test]
fn json_parse_models_values() {
    let v = parse_json(r#"{"a":[1,-2,"x",true,null]}"#).unwrap();
    match v {
        JsonValue::Object(fields) => {
            assert_eq!(fields.len(), 1);
            assert_eq!(fields[0].0, "a");
            match &fields[0].1 {
                JsonValue::Array(items) => {
                    assert!(matches!(items[0], JsonValue::Number(Some(1))));
                    assert!(matches!(items[1], JsonValue::Number(None)));
                    assert!(matches!(&items[2], JsonValue::Str(s) if s == "x"));
                    assert!(matches!(items[3], JsonValue::Bool(true)));
                    assert!(matches!(items[4], JsonValue::Null));
                }
                other => panic!("unexpected {:?}", other),
            }
        }
        other => panic!("unexpected {:?}", other),
    }
    assert!(parse_json("{").is_err());
}

#[test]
fn character_split_across_reads_is_kept() {
    let line = "data: {\"choices\":[{\"delta\":{\"content\":\"caf\u{e9}\"}}]}\n";
    let bytes = line.as_bytes();
    let cut = line.find('\u{e9}').unwrap() + 1;
    let mut d = SseDecoder::new(SseFormat::OpenAI);
    let mut all = d.feed(&bytes[..cut]);
    all.extend(d.feed(&bytes[cut..]));
    all.extend(d.finish());
    assert!(matches!(&all[0], StreamChunk::TextDelta(t) if t == "caf\u{e9}"));
}

#[test]
fn any_finish_reason_ends_openai_stream() {
    let chunks = decode_all(SseFormat::OpenAI, "data: {\"choices\":[{\"delta\":{},\"finish_reason\":\"tool_calls\"}]}\ndata: [DONE]\n");
    assert_eq!(chunks.len(), 1);
    assert!(matches!(&chunks[0], StreamChunk::Done(_)));
}
