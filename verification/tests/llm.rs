use fortytwo::engine::llm::{deltas_of, extract_deltas, extract_token, sse_data_payload, LlmClient, LlmDelta, SseDecoder};

#[test]
fn extract_token_parses_sse_lines() {
    assert_eq!(
        extract_token(r#"data: {"choices":[{"delta":{"content":"hi"}}]}"#),
        Some("hi".into())
    );
    assert_eq!(extract_token("data: [DONE]"), None);
    assert_eq!(extract_token(""), None);
    assert_eq!(extract_token(": keepalive comment"), None);
    // Empty delta (role-only chunk) yields no token.
    assert_eq!(
        extract_token(r#"data: {"choices":[{"delta":{"role":"assistant"}}]}"#),
        None
    );
}

#[test]
fn extract_token_handles_whitespace_and_bad_json() {
    assert_eq!(
        extract_token("  data:{\"choices\":[{\"delta\":{\"content\":\"x\"}}]}  \r\n"),
        Some("x".into())
    );
    assert_eq!(extract_token("data: {not json"), None);
    assert_eq!(extract_token("event: message"), None);
}

#[test]
fn payload_of_data_lines() {
    assert_eq!(sse_data_payload("data:  abc \n"), Some("abc".into()));
    assert_eq!(sse_data_payload("data: [DONE]\n"), None);
    assert_eq!(sse_data_payload("data:"), Some("".into()));
    assert_eq!(sse_data_payload("dat"), None);
}

#[test]
fn decoder_splits_lines_across_chunks() {
    let mut d = SseDecoder::new();
    let a = d.push_chunk(b"data: {\"choices\":[{\"delta\":{\"content\":\"Hel\"}}]}\n\ndata: {\"cho");
    assert_eq!(a, vec![LlmDelta::Token("Hel".to_string())]);
    let b = d.push_chunk(b"ices\":[{\"delta\":{\"content\":\"lo\"}}]}\n\ndata: [DONE]\n");
    assert_eq!(b, vec![LlmDelta::Token("lo".to_string())]);
    assert_eq!(d.finish(), vec![]);
}

#[test]
fn decoder_emits_trailing_line_on_finish() {
    let mut d = SseDecoder::new();
    assert!(d.push_chunk(b"data: {\"choices\":[{\"delta\":{\"content\":\"end\"}}]}").is_empty());
    assert_eq!(d.finish(), vec![LlmDelta::Token("end".to_string())]);
    assert_eq!(d.finish(), vec![]);
}

#[test]
fn decoder_reads_multibyte_text_split_across_chunks() {
    let line = "data: {\"choices\":[{\"delta\":{\"content\":\"é\"}}]}\n".as_bytes();
    let cut = line.iter().position(|&b| b == 0xc3).unwrap() + 1;
    let mut d = SseDecoder::new();
    assert!(d.push_chunk(&line[..cut]).is_empty());
    assert_eq!(d.push_chunk(&line[cut..]), vec![LlmDelta::Token("é".to_string())]);
}

#[test]
fn client_trims_trailing_slashes() {
    let c = LlmClient::new("http://host:9292/v1//", "m");
    assert_eq!(c.base_url, "http://host:9292/v1");
    assert_eq!(c.model, "m");
    assert_eq!(c.chat_completions_url(), "http://host:9292/v1/chat/completions");
    let c = LlmClient::new("http://host/v1", "m");
    assert_eq!(c.chat_completions_url(), "http://host/v1/chat/completions");
}

#[test]
fn reasoning_lines_are_thinking_deltas() {
    assert_eq!(
        extract_deltas(r#"data: {"choices":[{"delta":{"reasoning_content":"hmm"}}]}"#),
        vec![LlmDelta::Thinking("hmm".into())]
    );
    assert_eq!(
        extract_deltas(r#"data: {"choices":[{"delta":{"content":null,"reasoning_content":"a"}}]}"#),
        vec![LlmDelta::Thinking("a".into())]
    );
    assert_eq!(
        extract_deltas(r#"data: {"choices":[{"delta":{"content":"x","reasoning_content":"a"}}]}"#),
        vec![LlmDelta::Thinking("a".into()), LlmDelta::Token("x".into())]
    );
    assert_eq!(
        extract_deltas(r#"data: {"choices":[{"delta":{"content":""}}]}"#),
        vec![LlmDelta::Token("".into())]
    );
    assert_eq!(
        extract_deltas(r#"data: {"choices":[{"delta":{"content":"","reasoning_content":""}}]}"#),
        vec![LlmDelta::Token("".into())]
    );
    assert_eq!(
        extract_deltas(r#"data: {"choices":[{"delta":{"role":"assistant"}}]}"#),
        vec![]
    );
    assert_eq!(extract_deltas("data: [DONE]"), vec![]);
}

#[test]
fn deltas_of_forward_reasoning_then_content() {
    assert_eq!(
        deltas_of(Some("a".into()), Some("r".into())),
        vec![LlmDelta::Thinking("r".into()), LlmDelta::Token("a".into())]
    );
    assert_eq!(deltas_of(Some("".into()), Some("r".into())), vec![LlmDelta::Thinking("r".into())]);
    assert_eq!(deltas_of(None, Some("".into())), vec![]);
    assert_eq!(deltas_of(Some("".into()), None), vec![LlmDelta::Token("".into())]);
    assert_eq!(deltas_of(Some("".into()), Some("".into())), vec![LlmDelta::Token("".into())]);
    assert_eq!(deltas_of(None, None), vec![]);
}

#[test]
fn decoder_output_does_not_depend_on_chunking() {
    let body: &[u8] = b"data: {\"choices\":[{\"delta\":{\"reasoning_content\":\"r\"}}]}\n\ndata: {\"choices\":[{\"delta\":{\"content\":\"a\"}}]}\ndata: {\"choices\":[{\"delta\":{\"content\":\"b\"}}]}";
    let mut whole = SseDecoder::new();
    let mut expected = whole.push_chunk(body);
    expected.extend(whole.finish());
    assert_eq!(
        expected,
        vec![
            LlmDelta::Thinking("r".into()),
            LlmDelta::Token("a".into()),
            LlmDelta::Token("b".into())
        ]
    );
    for size in 1..body.len() {
        let mut d = SseDecoder::new();
        let mut got = Vec::new();
        for chunk in body.chunks(size) {
            got.extend(d.push_chunk(chunk));
        }
        got.extend(d.finish());
        assert_eq!(got, expected, "chunk size {size}");
    }
}
