//! What the chat window and the terminal show.

use serde_json::Value;

use thclaws_core::ansi::{plain, strip_ansi};
use thclaws_core::event_render::{
    humanize_document, humanize_provider_error, render_chat_dispatches, render_terminal_ansi,
    terminal_data_envelope, terminal_history_replaced_envelope, TerminalRenderState, ViewEvent,
};
use thclaws_core::json::{parse_json, Json, JsonNumber};
use thclaws_core::plan::PermissionMode;
use thclaws_core::types::UiResource;

fn chat(ev: ViewEvent) -> Value {
    let d = render_chat_dispatches(&ev);
    assert_eq!(d.len(), 1);
    serde_json::from_str(&d[0]).unwrap()
}

fn call(label: &str) -> ViewEvent {
    ViewEvent::ToolCallStart {
        name: "Bash".to_string(),
        label: label.to_string(),
        input: Json::object(),
    }
}

fn result(source: Option<&str>) -> ViewEvent {
    ViewEvent::ToolCallResult {
        name: "Bash".to_string(),
        output: "\x1b[1mout\x1b[0m".to_string(),
        ui_resource: None,
        source: source.map(|s| s.to_string()),
    }
}

#[test]
fn chat_envelopes_carry_their_fields() {
    let v = chat(call("\x1b[2mBash ls\x1b[0m"));
    assert_eq!(v["type"], "chat_tool_call");
    assert_eq!(v["name"], "Bash ls");
    assert_eq!(v["tool_name"], "Bash");
    let v = chat(result(None));
    assert_eq!(v["type"], "chat_tool_result");
    assert_eq!(v["output"], "out");
    assert!(v.get("ui_resource").is_none());
    let v = chat(ViewEvent::ToolCallResult {
        name: "Show".to_string(),
        output: String::new(),
        ui_resource: Some(UiResource {
            uri: "ui://pinn.ai/x".to_string(),
            html: "<p>".to_string(),
            mime: Some("text/html".to_string()),
        }),
        source: None,
    });
    assert_eq!(v["ui_resource"]["uri"], "ui://pinn.ai/x");
    assert_eq!(v["ui_resource"]["mime"], "text/html");
    let v = chat(ViewEvent::McpAppCallToolResult {
        request_id: "r1".to_string(),
        content: "c".to_string(),
        is_error: true,
    });
    assert_eq!(v["requestId"], "r1");
    assert_eq!(v["isError"], true);
    let v = chat(ViewEvent::PermissionModeChanged(PermissionMode::Plan));
    assert_eq!(v["mode"], "plan");
    let v = chat(ViewEvent::ContextWarning {
        file_size_mb: JsonNumber::Pos(6),
        label: "6.0".to_string(),
    });
    assert_eq!(v["file_size_mb"], 6);
    let v = chat(ViewEvent::PlanUpdate(parse_json(r#"{"id":"p"}"#).unwrap()));
    assert_eq!(v["plan"]["id"], "p");
}

#[test]
fn texts_come_without_escape_sequences() {
    let dim = "\x1b[2mdim\x1b[0m".to_string();
    let id = || "1".to_string();
    let v = chat(ViewEvent::SkillModelNote(dim.clone()));
    assert_eq!(v["text"], "dim");
    let v = chat(ViewEvent::SideChannelTextDelta { id: id(), text: dim.clone() });
    assert_eq!(v["text"], "dim");
    let v = chat(ViewEvent::SideChannelError { id: id(), error: dim.clone() });
    assert_eq!(v["error"], "dim");
    let v = chat(ViewEvent::SideChannelToolCall {
        id: id(),
        tool_name: "Bash".to_string(),
        label: dim.clone(),
    });
    assert_eq!(v["label"], "dim");
    let v = chat(ViewEvent::SideChannelDone {
        id: id(),
        agent_name: "scout".to_string(),
        duration_ms: 1500,
        secs: "1.50".to_string(),
        result_text: dim.clone(),
    });
    assert_eq!(v["result_text"], "dim");
    assert_eq!(v["duration_ms"], 1500);
    let v = chat(ViewEvent::PlanStalled { step_id: id(), step_title: dim, turns: 3 });
    assert_eq!(v["step_title"], "dim");
}

#[test]
fn finished_envelopes_are_passed_on() {
    let d = render_chat_dispatches(&ViewEvent::KmsUpdate("{\"x\":1}".to_string()));
    assert_eq!(d, vec!["{\"x\":1}".to_string()]);
}

#[test]
fn quitting_shows_nothing() {
    assert!(render_chat_dispatches(&ViewEvent::QuitRequested).is_empty());
    let mut state = TerminalRenderState::default();
    assert_eq!(render_terminal_ansi(&mut state, &ViewEvent::QuitRequested), None);
}

#[test]
fn repeated_tool_shares_a_line() {
    let mut state = TerminalRenderState::default();
    assert_eq!(
        render_terminal_ansi(&mut state, &call("Bash ls")).unwrap(),
        "\r\n\x1b[2m[tool: Bash ls]\x1b[0m"
    );
    assert_eq!(
        render_terminal_ansi(&mut state, &result(Some("web"))).unwrap(),
        " \x1b[32m✓\x1b[0m \x1b[2m(via web)\x1b[0m"
    );
    assert_eq!(render_terminal_ansi(&mut state, &call("Bash ls")), None);
    assert_eq!(
        render_terminal_ansi(&mut state, &result(None)).unwrap(),
        "\r\x1b[2K\x1b[2m[tool: Bash ls]\x1b[0m \x1b[32m✓\x1b[0m \x1b[2m×2\x1b[0m"
    );
    // Another tool starts a line of its own.
    assert_eq!(
        render_terminal_ansi(&mut state, &call("Bash pwd")).unwrap(),
        "\r\n\x1b[2m[tool: Bash pwd]\x1b[0m"
    );
}

#[test]
fn text_after_a_tool_or_reasoning_starts_a_line() {
    let mut state = TerminalRenderState::default();
    render_terminal_ansi(&mut state, &call("x"));
    render_terminal_ansi(&mut state, &result(None));
    assert_eq!(
        render_terminal_ansi(&mut state, &ViewEvent::AssistantTextDelta("a\nb".to_string())),
        Some("\r\na\r\nb".to_string())
    );
    assert_eq!(
        render_terminal_ansi(&mut state, &ViewEvent::AssistantThinkingDelta("hm".to_string())),
        Some("\x1b[2;3mhm\x1b[0m".to_string())
    );
    assert_eq!(
        render_terminal_ansi(&mut state, &ViewEvent::AssistantTextDelta("so".to_string())),
        Some("\r\nso".to_string())
    );
}

#[test]
fn prompts_are_marked_and_indented() {
    let mut state = TerminalRenderState::default();
    assert_eq!(
        render_terminal_ansi(&mut state, &ViewEvent::UserPrompt("a\nb".to_string())),
        Some("\x1b[2m> \x1b[0ma\r\n  b\r\n".to_string())
    );
}

#[test]
fn background_agents_are_reported() {
    let mut state = TerminalRenderState::default();
    let done = render_terminal_ansi(
        &mut state,
        &ViewEvent::SideChannelDone {
            id: "1".to_string(),
            agent_name: "scout".to_string(),
            duration_ms: 1500,
            secs: "1.50".to_string(),
            result_text: "found\nit".to_string(),
        },
    )
    .unwrap();
    assert_eq!(strip_ansi(&done), "\r\n[agent scout (1) ✓ done in 1.50s]\r\nfound\r\nit\r\n");
}

#[test]
fn terminal_envelopes_hold_base64() {
    let v: Value = serde_json::from_str(&terminal_data_envelope("hi")).unwrap();
    assert_eq!(v["type"], "terminal_data");
    assert_eq!(v["data"], "aGk=");
    let v: Value = serde_json::from_str(&terminal_history_replaced_envelope("")).unwrap();
    assert_eq!(v["type"], "terminal_history_replaced");
    assert_eq!(v["data"], "");
}

#[test]
fn provider_errors_in_words() {
    let doc = parse_json(r#"{"error":{"message":"m","code":429}}"#).unwrap();
    assert_eq!(humanize_document("raw", &doc), "Rate limited: m");
    let doc = parse_json(r#"{"error":{"message":"m","metadata":{"raw":"upstream"}}}"#).unwrap();
    assert_eq!(humanize_document("raw", &doc), "upstream");
    let doc = parse_json("{}").unwrap();
    assert_eq!(humanize_document("raw", &doc), "raw");
    assert_eq!(humanize_provider_error("http 500: {\"error\":{\"message\":\"m\"}}"), "m");
    assert_eq!(humanize_provider_error("no document"), "no document");
    assert_eq!(humanize_provider_error("broken {"), "broken {");
}

#[test]
fn stripping_twice_is_stripping_once() {
    for s in ["\x1b[1mé\x1b[0m", "plain", "\x1b]0;t\x07x", "\x1b"] {
        let once = strip_ansi(s);
        assert_eq!(strip_ansi(&once), once);
    }
    assert_eq!(strip_ansi("\x1b[1mé\x1b[0m"), "é");
}

#[test]
fn stripped_texts_keep_no_escape_inside() {
    for s in ["plain ✓", "\u{1b}[1mé\u{1b}[0m", "\u{1b}é tail", "end\u{1b}", "\u{1b}]0;x\u{7}y"] {
        let once = strip_ansi(s);
        assert_eq!(strip_ansi(&once), once);
        assert!(!once.trim_end_matches('\u{1b}').contains('\u{1b}'));
        assert!(!plain(s).contains('\u{1b}'));
    }
    assert_eq!(strip_ansi("plain ✓"), "plain ✓");
    assert_eq!(strip_ansi("end\u{1b}"), "end\u{1b}");
    assert_eq!(plain("end\u{1b}"), "end");
}
