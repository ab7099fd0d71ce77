use growth_companion::llm::{bearer_header, chat_completions_url, require_api_key, utf8_lossy, SseDecoder};

#[test]
fn test_sse_done_detection() {
    let line = "data: [DONE]";
    let data = &line[6..];
    assert_eq!(data, "[DONE]");
    let mut decoder = SseDecoder::new();
    let tokens = decoder.feed(&format!("{line}\n"));
    assert!(tokens.is_empty());
    assert!(decoder.finished);
    assert!(decoder.feed("data: {\"choices\":[{\"delta\":{\"content\":\"late\"}}]}\n").is_empty());
}

#[test]
fn test_sse_parsing() {
    let line = r#"data: {"id":"chatcmpl-123","choices":[{"delta":{"content":"Hello"},"index":0}]}"#;
    let mut decoder = SseDecoder::new();
    let tokens = decoder.feed(&format!("{line}\n"));
    assert_eq!(tokens, vec!["Hello"]);
    assert!(!decoder.finished);
}

#[test]
fn sse_tokens_do_not_depend_on_chunking() {
    let stream = "data: {\"choices\":[{\"delta\":{\"content\":\"你\"}}]}\n\nignored line\ndata: {\"choices\":[{\"delta\":{\"content\":\"\"}}]}\ndata: not json\ndata: {\"choices\":[{\"delta\":{\"content\":\"好\"}}]}\r\ndata: [DONE]\ndata: {\"choices\":[{\"delta\":{\"content\":\"after\"}}]}\n";
    let mut whole = SseDecoder::new();
    let all = whole.feed(stream);
    assert_eq!(all, vec!["你", "好"]);
    assert!(whole.finished);
    for cut in [1usize, 7, 20, 45] {
        let cut = stream.char_indices().nth(cut).unwrap().0;
        let mut d = SseDecoder::new();
        let mut tokens = d.feed(&stream[..cut]);
        tokens.extend(d.feed(&stream[cut..]));
        assert_eq!(tokens, all);
    }
}

#[test]
fn incomplete_line_waits_in_the_buffer() {
    let mut d = SseDecoder::new();
    assert!(d.feed("data: {\"choices\":[{\"delta\":{\"content\":\"x\"}}]}").is_empty());
    assert!(d.buffer.starts_with("data: "));
    assert_eq!(d.feed("\n"), vec!["x"]);
    assert_eq!(d.buffer, "");
}

#[test]
fn completions_url_drops_trailing_slashes() {
    assert_eq!(chat_completions_url("https://api.openai.com/v1"), "https://api.openai.com/v1/chat/completions");
    assert_eq!(chat_completions_url("https://x.test/v1//"), "https://x.test/v1/chat/completions");
}

#[test]
fn test_missing_api_key_error() {
    let err = require_api_key("").unwrap_err();
    assert_eq!(err.code, "llmConfig");
    assert_eq!(err.message, "LLM API key is not configured");
    assert!(require_api_key("sk-test").is_ok());
    assert_eq!(bearer_header("sk-test"), "Bearer sk-test");
}

#[test]
fn lossy_decoding_keeps_valid_text() {
    assert_eq!(utf8_lossy("数据 data".as_bytes()), "数据 data");
    assert_eq!(utf8_lossy(&[0x61, 0xff, 0x62]), "a\u{fffd}b");
}

#[test]
fn a_stream_fed_in_many_chunks_gives_the_tokens_of_the_whole_text() {
    let stream = "data: {\"choices\":[{\"delta\":{\"content\":\"一\"}}]}\ndata: {\"choices\":[{\"delta\":{\"content\":\"二\"}}]}\ndata: [DONE]\ndata: {\"choices\":[{\"delta\":{\"content\":\"三\"}}]}\n";
    let chars: Vec<char> = stream.chars().collect();
    let mut d = SseDecoder::new();
    let mut tokens = Vec::new();
    for piece in chars.chunks(5) {
        let text: String = piece.iter().collect();
        tokens.extend(d.feed(&text));
    }
    assert_eq!(tokens, vec!["一", "二"]);
    assert!(d.finished);
}
