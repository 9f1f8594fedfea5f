use thclaws_core::opencode_go::{
    detect_wire_format, endpoint_for, OpencodeGoProvider, WireFormat, DEFAULT_API_URL,
};
use thclaws_core::opencode_stream::{OpenaiParseState, ProviderEvent};

#[test]
fn test_detect_wire_format_openai() {
    assert_eq!(detect_wire_format("glm-5.1"), WireFormat::OpenAI);
    assert_eq!(detect_wire_format("kimi-k2.6"), WireFormat::OpenAI);
    assert_eq!(detect_wire_format("deepseek-v4-flash"), WireFormat::OpenAI);
    assert_eq!(detect_wire_format("mimo-v2.5"), WireFormat::OpenAI);
}

#[test]
fn test_detect_wire_format_anthropic() {
    assert_eq!(detect_wire_format("minimax-m2.7"), WireFormat::Anthropic);
    assert_eq!(detect_wire_format("minimax-m2.5"), WireFormat::Anthropic);
}

#[test]
fn test_detect_wire_format_alibaba() {
    assert_eq!(detect_wire_format("qwen3.6-plus"), WireFormat::Alibaba);
    assert_eq!(detect_wire_format("qwen3.5-plus"), WireFormat::Alibaba);
}

#[test]
fn test_endpoint_for() {
    assert_eq!(endpoint_for(WireFormat::OpenAI), "/chat/completions");
    assert_eq!(endpoint_for(WireFormat::Alibaba), "/chat/completions");
    assert_eq!(endpoint_for(WireFormat::Anthropic), "/messages");
}

#[test]
fn test_openai_parse_text_delta() {
    let mut state = OpenaiParseState::default();
    let text = r#"data: {"model":"glm-5.1","choices":[{"index":0,"delta":{"role":"assistant","content":"Hello"}}]}"#;
    let events = OpencodeGoProvider::parse_openai_chunk(text, &mut state).unwrap();
    assert_eq!(events.len(), 2);
    assert!(matches!(&events[0], ProviderEvent::MessageStart { .. }));
    assert!(matches!(&events[1], ProviderEvent::TextDelta(_)));
}

#[test]
fn test_anthropic_parse_text_delta() {
    let text = r#"event: content_block_delta
data: {"type":"content_block_delta","index":0,"delta":{"type":"text_delta","text":"Hello"}}"#;
    let event = OpencodeGoProvider::parse_anthropic_chunk(text)
        .unwrap()
        .unwrap();
    assert!(matches!(event, ProviderEvent::TextDelta(_)));
}

#[test]
fn test_anthropic_skip_ping() {
    let text = "event: ping\ndata: {}";
    let event = OpencodeGoProvider::parse_anthropic_chunk(text).unwrap();
    assert!(event.is_none());
}

#[test]
fn test_provider_default_url() {
    let provider = OpencodeGoProvider::new("test-key".to_string());
    assert_eq!(provider.base_url, DEFAULT_API_URL);
}

#[test]
fn test_provider_custom_url() {
    let provider =
        OpencodeGoProvider::new("test-key".to_string()).with_base_url("https://custom.example.com".to_string());
    assert_eq!(provider.base_url, "https://custom.example.com");
}

