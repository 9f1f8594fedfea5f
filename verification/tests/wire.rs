//! Requests and answers of the gateway, byte by byte.

use serde_json::Value;

use thclaws_core::assemble::Assembler;
use thclaws_core::content::{content_json, contents_json, redact_key};
use thclaws_core::json::{parse_json, render_json, render_pretty, Json};
use thclaws_core::opencode_go::{
    detect_wire_format, strip_model_prefix, OpencodeGoProvider, WireFormat,
};
use thclaws_core::opencode_stream::{
    after_response, cut_frames, feed_anthropic, feed_openai, idle_error, list_model_ids,
    rate_limit_notice, read_anthropic_document, read_openai_document, OpenaiParseState,
    ProviderEvent, ResponseStep,
};
use thclaws_core::turn::AssembledEvent;
use thclaws_core::types::{
    ContentBlock, Error, ImageSource, Message, Role, StreamRequest, ToolDef, ToolResultBlock,
    ToolResultContent, Usage,
};

fn value(j: &Json) -> Value {
    serde_json::from_str(&render_json(j)).unwrap()
}

fn json(s: &str) -> Json {
    parse_json(s).unwrap()
}

fn text_of(role: Role, s: &str) -> Message {
    Message { role, content: vec![ContentBlock::text(s.to_string())] }
}

fn request(messages: Vec<Message>) -> StreamRequest {
    StreamRequest {
        model: "glm-5.1".to_string(),
        system: Some("be brief".to_string()),
        messages,
        tools: Vec::new(),
        max_tokens: 1000,
        thinking_budget: None,
        stream_chunk_timeout_override: None,
    }
}

fn read_tool() -> ToolDef {
    ToolDef {
        name: "Read".to_string(),
        description: "reads".to_string(),
        input_schema: json(r#"{"type":"object"}"#),
    }
}

// ---------------------------------------------------------------------------
// Requests
// ---------------------------------------------------------------------------

#[test]
fn formats_are_told_apart_in_any_case() {
    assert_eq!(detect_wire_format("MiniMax-M2.7"), WireFormat::Anthropic);
    assert_eq!(detect_wire_format("QWEN3.6-PLUS"), WireFormat::Alibaba);
    assert_eq!(detect_wire_format("minimax-m2.7-turbo"), WireFormat::OpenAI);
}

#[test]
fn model_prefix_is_stripped_once() {
    assert_eq!(strip_model_prefix("opencode-go/glm-5.1"), "glm-5.1");
    assert_eq!(strip_model_prefix("opencode-go/opencode-go/x"), "opencode-go/x");
    assert_eq!(strip_model_prefix("glm-5.1"), "glm-5.1");
}

#[test]
fn addresses_do_not_double_slashes() {
    let p = OpencodeGoProvider::new("key".to_string()).with_base_url("https://x.test/v1//".to_string());
    assert_eq!(p.endpoint_url(WireFormat::Anthropic), "https://x.test/v1/messages");
    assert_eq!(p.endpoint_url(WireFormat::OpenAI), "https://x.test/v1/chat/completions");
    assert_eq!(p.models_list_url(), "https://x.test/v1/models");
    let p = p.with_list_models_url("https://y.test/m".to_string());
    assert_eq!(p.models_list_url(), "https://y.test/m");
}

#[test]
fn anthropic_models_get_a_key_header() {
    let p = OpencodeGoProvider::new("key".to_string());
    let h = p.auth_headers(WireFormat::Anthropic);
    assert!(h.contains(&("x-api-key".to_string(), "key".to_string())));
    let h = p.auth_headers(WireFormat::OpenAI);
    assert!(h.iter().all(|(n, _)| n != "x-api-key"));
    assert!(h.iter().any(|(_, v)| v == "Bearer key"));
}

#[test]
fn openai_body_has_system_cap_and_tools() {
    let mut req = request(vec![text_of(Role::User, "hi")]);
    let body = value(&OpencodeGoProvider::build_openai_body(&req));
    assert_eq!(body["model"], "glm-5.1");
    assert_eq!(body["max_completion_tokens"], 1000);
    assert_eq!(body["stream"], true);
    assert_eq!(body["stream_options"]["include_usage"], true);
    assert_eq!(body["messages"][0]["role"], "system");
    assert_eq!(body["messages"][0]["content"], "be brief");
    assert_eq!(body["messages"][1]["role"], "user");
    assert!(body.get("tools").is_none());
    req.tools.push(read_tool());
    let body = value(&OpencodeGoProvider::build_openai_body(&req));
    assert_eq!(body["tools"][0]["type"], "function");
    assert_eq!(body["tools"][0]["function"]["name"], "Read");
    assert_eq!(body["tools"][0]["function"]["parameters"]["type"], "object");
}

#[test]
fn openai_messages_carry_calls_and_results() {
    let req = request(vec![
        text_of(Role::User, "read it"),
        Message {
            role: Role::Assistant,
            content: vec![
                ContentBlock::text("sure".to_string()),
                ContentBlock::ToolUse {
                    id: "t1".to_string(),
                    name: "Read".to_string(),
                    input: json(r#"{"path":"a"}"#),
                    thought_signature: None,
                },
            ],
        },
        Message {
            role: Role::User,
            content: vec![ContentBlock::ToolResult {
                tool_use_id: "t1".to_string(),
                content: ToolResultContent::Blocks(vec![
                    ToolResultBlock::Text { text: "seen".to_string() },
                    ToolResultBlock::Image {
                        source: ImageSource::Base64 {
                            media_type: "image/png".to_string(),
                            data: "AAAA".to_string(),
                        },
                    },
                ]),
                is_error: false,
            }],
        },
    ]);
    let out: Vec<Value> = OpencodeGoProvider::messages_to_openai(&req).iter().map(value).collect();
    assert_eq!(out[2]["role"], "assistant");
    assert_eq!(out[2]["content"], "sure");
    assert_eq!(out[2]["tool_calls"][0]["id"], "t1");
    assert_eq!(out[2]["tool_calls"][0]["function"]["name"], "Read");
    assert_eq!(out[2]["tool_calls"][0]["function"]["arguments"], r#"{"path":"a"}"#);
    assert_eq!(out[3]["role"], "tool");
    assert_eq!(out[3]["tool_call_id"], "t1");
    let seen = serde_json::to_string(&out[3..]).unwrap();
    assert!(seen.contains("seen"));
    assert!(seen.contains("data:image/png;base64,AAAA"));
}

#[test]
fn cache_markers_go_to_the_system_prompt_and_one_message() {
    let req = request(vec![
        text_of(Role::User, "one"),
        text_of(Role::Assistant, "two"),
        text_of(Role::User, "three"),
    ]);
    let body = value(&OpencodeGoProvider::build_alibaba_body_inner(&req, true));
    assert_eq!(body["max_tokens"], 1000);
    assert_eq!(body["messages"][0]["content"][0]["cache_control"]["type"], "ephemeral");
    let marks = |b: &Value| serde_json::to_string(b).unwrap().matches("cache_control").count();
    assert_eq!(marks(&body), 2);
    let bare = value(&OpencodeGoProvider::build_alibaba_body_inner(&req, false));
    assert_eq!(marks(&bare), 0);
    let open = value(&OpencodeGoProvider::build_openai_body(&req));
    assert_eq!(marks(&open), 0);
}

#[test]
fn anthropic_body_marks_and_unmarks() {
    let mut req = request(vec![
        text_of(Role::User, "one"),
        text_of(Role::Assistant, "two"),
        text_of(Role::User, "three"),
    ]);
    req.model = "azure/minimax-m2.7".to_string();
    req.thinking_budget = Some(2048);
    req.tools.push(read_tool());
    let body = value(&OpencodeGoProvider::build_anthropic_body_inner(&req, true));
    assert_eq!(body["model"], "minimax-m2.7");
    assert_eq!(body["system"][0]["text"], "be brief");
    assert_eq!(body["system"][0]["cache_control"]["type"], "ephemeral");
    assert_eq!(body["messages"][1]["content"][0]["cache_control"]["type"], "ephemeral");
    assert!(body["messages"][2]["content"][0].get("cache_control").is_none());
    assert_eq!(body["tools"][0]["cache_control"]["type"], "ephemeral");
    assert_eq!(body["thinking"]["budget_tokens"], 2048);
    let same = value(&OpencodeGoProvider::build_body(&req, WireFormat::Anthropic, true));
    assert_eq!(same, body);
    let bare = value(&OpencodeGoProvider::build_body(&req, WireFormat::Anthropic, false));
    assert!(!serde_json::to_string(&bare).unwrap().contains("cache_control"));
    assert_eq!(bare["system"][0]["text"], "be brief");
    assert_eq!(
        bare["messages"],
        value(&json(
            r#"[{"role":"user","content":[{"type":"text","text":"one"}]},
                {"role":"assistant","content":[{"type":"text","text":"two"}]},
                {"role":"user","content":[{"type":"text","text":"three"}]}]"#
        ))
    );
}

// ---------------------------------------------------------------------------
// Answers
// ---------------------------------------------------------------------------

#[test]
fn frames_end_with_an_empty_line() {
    let mut buffer = b"one\n\ntwo\n\nthr".to_vec();
    let frames = cut_frames(&mut buffer);
    assert_eq!(frames.len(), 2);
    assert!(frames[0].starts_with(b"one"));
    assert!(frames[1].starts_with(b"two"));
    assert_eq!(buffer, b"thr".to_vec());
}

#[test]
fn chunking_makes_no_difference() {
    let stream = concat_bytes(&[
        b"data: {\"model\":\"m\",\"choices\":[{\"delta\":{\"content\":\"h\xc3\xa9\"}}]}\n\n",
        b"data: {\"choices\":[{\"delta\":{},\"finish_reason\":\"stop\"}]}\n\n",
        b"data: [DONE]\n\n",
    ]);
    let whole = {
        let (mut buffer, mut state) = (Vec::new(), OpenaiParseState::default());
        feed_openai(&mut buffer, &mut state, &stream)
    };
    assert_eq!(
        whole.0,
        vec![
            ProviderEvent::MessageStart { model: "m".to_string() },
            ProviderEvent::TextDelta("hé".to_string()),
            ProviderEvent::MessageStop { stop_reason: Some("stop".to_string()), usage: None },
        ]
    );
    for size in [1, 2, 3, 7, 50] {
        let (mut buffer, mut state) = (Vec::new(), OpenaiParseState::default());
        let mut events = Vec::new();
        for chunk in stream.chunks(size) {
            let (mut e, error) = feed_openai(&mut buffer, &mut state, chunk);
            assert!(error.is_none());
            events.append(&mut e);
        }
        assert_eq!(events, whole.0);
        assert!(buffer.is_empty());
    }
}

fn concat_bytes(parts: &[&[u8]]) -> Vec<u8> {
    let mut v = Vec::new();
    for p in parts {
        v.extend_from_slice(p);
    }
    v
}

#[test]
fn tool_calls_are_opened_and_closed() {
    let mut state = OpenaiParseState::default();
    let first = json(
        r#"{"model":"m","choices":[{"delta":{"tool_calls":[{"index":0,"id":"a","function":{"name":"Read","arguments":"{\"p"}}]}}]}"#,
    );
    let events = read_openai_document(&mut state, &first).unwrap();
    assert_eq!(
        events[1..],
        [
            ProviderEvent::ToolUseStart {
                id: "a".to_string(),
                name: "Read".to_string(),
                thought_signature: None
            },
            ProviderEvent::ToolUseDelta { partial_json: "{\"p".to_string() },
        ]
    );
    let second = json(
        r#"{"choices":[{"delta":{"tool_calls":[{"index":1,"id":"b","function":{"name":"Ls"}}]}}]}"#,
    );
    let events = read_openai_document(&mut state, &second).unwrap();
    assert_eq!(events[0], ProviderEvent::ContentBlockStop);
    assert_eq!(state.flush_eof(), vec![ProviderEvent::ContentBlockStop]);
    assert!(state.flush_eof().is_empty());
}

#[test]
fn cached_tokens_are_not_counted_as_input() {
    let mut state = OpenaiParseState::default();
    let doc = json(
        r#"{"model":"m","choices":[],"usage":{"prompt_tokens":100,"completion_tokens":20,"prompt_tokens_details":{"cached_tokens":30}}}"#,
    );
    let events = read_openai_document(&mut state, &doc).unwrap();
    assert_eq!(
        events[1],
        ProviderEvent::MessageStop {
            stop_reason: Some("stop".to_string()),
            usage: Some(Usage {
                input_tokens: 70,
                output_tokens: 20,
                cache_creation_input_tokens: None,
                cache_read_input_tokens: Some(30),
                reasoning_output_tokens: None,
            }),
        }
    );
    // The end is told once.
    assert!(read_openai_document(&mut state, &doc).unwrap().is_empty());
}

#[test]
fn errors_in_the_stream_are_reported() {
    let mut state = OpenaiParseState::default();
    let doc = json(r#"{"error":{"message":"overloaded"}}"#);
    match read_openai_document(&mut state, &doc) {
        Err(Error::Provider(m)) => assert!(m.contains("overloaded"), "got {m}"),
        other => panic!("{other:?}"),
    }
    match read_anthropic_document(&doc) {
        Err(Error::Provider(m)) => assert!(m.contains("overloaded"), "got {m}"),
        other => panic!("{other:?}"),
    }
    match OpencodeGoProvider::parse_openai_chunk("data: {oops", &mut state) {
        Err(Error::Provider(m)) => assert!(m.starts_with("json parse: "), "got {m}"),
        other => panic!("{other:?}"),
    }
    let mut buffer = Vec::new();
    let (events, error) = feed_anthropic(&mut buffer, b"event: x\ndata: {oops\n\n");
    assert!(events.is_empty());
    assert!(error.unwrap().message().starts_with("json parse: "));
}

#[test]
fn anthropic_answers_are_read_event_by_event() {
    let mut buffer = Vec::new();
    let stream = concat_bytes(&[
        b"event: message_start\ndata: {\"type\":\"message_start\",\"message\":{\"model\":\"m\"}}\n\n",
        b"event: content_block_start\ndata: {\"type\":\"content_block_start\",\"content_block\":{\"type\":\"tool_use\",\"id\":\"t\",\"name\":\"Ls\"}}\n\n",
        b"event: content_block_delta\ndata: {\"type\":\"content_block_delta\",\"delta\":{\"type\":\"input_json_delta\",\"partial_json\":\"{}\"}}\n\n",
        b"event: content_block_stop\ndata: {\"type\":\"content_block_stop\"}\n\n",
        b"event: message_delta\ndata: {\"type\":\"message_delta\",\"delta\":{\"stop_reason\":\"tool_use\"},\"usage\":{\"input_tokens\":5,\"output_tokens\":6}}\n\n",
        b"event: message_stop\ndata: {\"type\":\"message_stop\"}\n\n",
    ]);
    let (events, error) = feed_anthropic(&mut buffer, &stream);
    assert!(error.is_none());
    assert_eq!(
        events,
        vec![
            ProviderEvent::MessageStart { model: "m".to_string() },
            ProviderEvent::ToolUseStart {
                id: "t".to_string(),
                name: "Ls".to_string(),
                thought_signature: None
            },
            ProviderEvent::ToolUseDelta { partial_json: "{}".to_string() },
            ProviderEvent::ContentBlockStop,
            ProviderEvent::MessageStop {
                stop_reason: Some("tool_use".to_string()),
                usage: Some(Usage {
                    input_tokens: 5,
                    output_tokens: 6,
                    cache_creation_input_tokens: None,
                    cache_read_input_tokens: None,
                    reasoning_output_tokens: None,
                }),
            },
        ]
    );
}

#[test]
fn a_request_is_repeated_once_without_markers() {
    let body = "unknown field cache_control";
    let step = |format, retried, status| {
        after_response(format, retried, status, "400 Bad Request", body, "redacted")
    };
    assert_eq!(step(WireFormat::Anthropic, false, 200), ResponseStep::Stream);
    assert_eq!(step(WireFormat::Anthropic, false, 400), ResponseStep::RetryWithoutCache);
    assert_eq!(step(WireFormat::Alibaba, false, 400), ResponseStep::RetryWithoutCache);
    assert_eq!(
        step(WireFormat::OpenAI, false, 400),
        ResponseStep::Fail(Error::Provider("http 400 Bad Request: redacted".to_string()))
    );
    assert_eq!(
        step(WireFormat::Anthropic, true, 400),
        ResponseStep::Fail(Error::Provider(
            "http 400 Bad Request (retry without cache also failed): redacted".to_string()
        ))
    );
    assert_eq!(
        after_response(WireFormat::Alibaba, false, 400, "400", "nope", "nope"),
        ResponseStep::Fail(Error::Provider("http 400: nope".to_string()))
    );
}

#[test]
fn model_lists_are_read() {
    let doc = json(r#"{"data":[{"id":"b"},{"name":"none"},{"id":"a"}]}"#);
    assert_eq!(list_model_ids(&doc), vec!["opencode-go/a", "opencode-go/b"]);
    assert!(list_model_ids(&json("{}")).is_empty());
    assert!(rate_limit_notice("m").contains("429 Too Many Requests (m)"));
    assert!(idle_error(90).message().contains("90s"));
}

// ---------------------------------------------------------------------------
// Documents
// ---------------------------------------------------------------------------

#[test]
fn documents_read_back() {
    for text in [
        r#"{"a":[1,-2,null,true],"b":{"c":"é\n"}}"#,
        r#""plain""#,
        "[1.5,18446744073709551615,-9223372036854775808]",
    ] {
        let j = json(text);
        assert_eq!(render_json(&j), text);
        assert_eq!(json(&render_json(&j)), j);
    }
    assert!(parse_json("{").is_err());
    let pretty = String::from_utf8(render_pretty(&json(r#"{"a":1}"#)).unwrap()).unwrap();
    assert_eq!(pretty, "{\n  \"a\": 1\n}");
}

#[test]
fn members_are_set_and_found() {
    let mut j = Json::object();
    j.put("b", Json::num(1));
    j.put("a", Json::text("x"));
    j.put("b", Json::num(2));
    assert_eq!(j.u64_at("b"), Some(2));
    assert_eq!(j.str_at("a"), Some("x"));
    assert_eq!(j.str_at("b"), None);
    assert_eq!(j.get("c"), None);
    assert_eq!(value(&j), serde_json::from_str::<Value>(r#"{"a":"x","b":2}"#).unwrap());
}

// ---------------------------------------------------------------------------
// Pieces
// ---------------------------------------------------------------------------

#[test]
fn parts_are_put_together() {
    let start = |id: &str| ProviderEvent::ToolUseStart {
        id: id.to_string(),
        name: "Read".to_string(),
        thought_signature: None,
    };
    let delta = |s: &str| ProviderEvent::ToolUseDelta { partial_json: s.to_string() };
    let mut a = Assembler::new();
    assert!(a.push(ProviderEvent::MessageStart { model: "m".to_string() }).is_empty());
    assert_eq!(
        a.push(ProviderEvent::TextDelta("hi".to_string())),
        vec![AssembledEvent::Text("hi".to_string())]
    );
    assert!(a.push(start("a")).is_empty());
    assert!(a.push(delta("{\"p\"")).is_empty());
    assert!(a.push(delta(":1}")).is_empty());
    assert_eq!(
        a.push(ProviderEvent::ContentBlockStop),
        vec![AssembledEvent::ToolUse(ContentBlock::ToolUse {
            id: "a".to_string(),
            name: "Read".to_string(),
            input: json(r#"{"p":1}"#),
            thought_signature: None,
        })]
    );
    assert!(a.push(ProviderEvent::ContentBlockStop).is_empty());
    a.push(start("b"));
    a.push(start("c"));
    a.push(delta("{oops"));
    let last = a.push(ProviderEvent::MessageStop { stop_reason: None, usage: None });
    assert_eq!(last.len(), 2);
    match &last[0] {
        AssembledEvent::ToolParseFailed { id, error, .. } => {
            assert_eq!(id, "c");
            assert!(error.starts_with("tool input is not valid JSON: "));
        }
        other => panic!("{other:?}"),
    }
    assert_eq!(last[1], AssembledEvent::Done { stop_reason: None, usage: None });
}

#[test]
fn contents_are_encoded_block_by_block() {
    let image = || ImageSource::Base64 {
        media_type: "image/png".to_string(),
        data: "AA==".to_string(),
    };
    let blocks = vec![
        ContentBlock::Text { text: "hi".to_string() },
        ContentBlock::Thinking { content: "hm".to_string(), signature: None },
        ContentBlock::Thinking { content: "hm".to_string(), signature: Some("s".to_string()) },
        ContentBlock::Image { source: image() },
        ContentBlock::ToolUse {
            id: "t1".to_string(),
            name: "Read".to_string(),
            input: parse_json(r#"{"path":"x"}"#).unwrap(),
            thought_signature: None,
        },
        ContentBlock::ToolResult {
            tool_use_id: "t1".to_string(),
            content: ToolResultContent::Text("out".to_string()),
            is_error: false,
        },
        ContentBlock::ToolResult {
            tool_use_id: "t2".to_string(),
            content: ToolResultContent::Blocks(vec![
                ToolResultBlock::Text { text: "a".to_string() },
                ToolResultBlock::Image { source: image() },
            ]),
            is_error: true,
        },
    ];
    let want: Value = serde_json::from_str(
        r#"[{"type":"text","text":"hi"},
            {"type":"thinking","content":"hm"},
            {"type":"thinking","content":"hm","signature":"s"},
            {"type":"image","source":{"type":"base64","media_type":"image/png","data":"AA=="}},
            {"type":"tool_use","id":"t1","name":"Read","input":{"path":"x"}},
            {"type":"tool_result","tool_use_id":"t1","content":"out","is_error":false},
            {"type":"tool_result","tool_use_id":"t2","content":[
                {"type":"text","text":"a"},
                {"type":"image","source":{"type":"base64","media_type":"image/png","data":"AA=="}}
            ],"is_error":true}]"#,
    )
    .unwrap();
    assert_eq!(value(&content_json(&blocks)), want);
    let messages = vec![Message { role: Role::User, content: Vec::new() }];
    let contents = contents_json(&messages);
    assert_eq!(contents.len(), 1);
    assert_eq!(render_json(&contents[0]), "[]");
}

#[test]
fn keys_are_redacted() {
    assert_eq!(redact_key("bad key sk-1, sk-1!", "sk-1"), "bad key [redacted], [redacted]!");
    assert_eq!(redact_key("text", ""), "text");
}
