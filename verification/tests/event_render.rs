use thclaws_core::ansi::strip_ansi;
use thclaws_core::event_render::{
    render_chat_dispatches, render_terminal_ansi, DisplayMessage, TerminalRenderState, ViewEvent,
};

#[test]
fn strips_csi_sgr() {
    assert_eq!(strip_ansi("\x1b[2mhello\x1b[0m"), "hello");
    assert_eq!(
        strip_ansi("\x1b[31;1mred bold\x1b[0m text"),
        "red bold text"
    );
}

#[test]
fn strips_cursor_moves() {
    assert_eq!(strip_ansi("a\x1b[2K\rb"), "a\rb");
}

#[test]
fn passes_plain_text_through() {
    assert_eq!(strip_ansi("plain"), "plain");
    assert_eq!(strip_ansi("with\nnewlines"), "with\nnewlines");
}

#[test]
fn strips_osc_with_bel() {
    assert_eq!(strip_ansi("\x1b]0;title\x07after"), "after");
}

#[test]
fn user_prompt_renders_chat_user_message_with_ansi_stripped() {
    let dispatches =
        render_chat_dispatches(&ViewEvent::UserPrompt("\x1b[2mfoo\x1b[0m bar".into()));
    assert_eq!(dispatches.len(), 1);
    let parsed: serde_json::Value = serde_json::from_str(&dispatches[0]).unwrap();
    assert_eq!(parsed["type"], "chat_user_message");
    assert_eq!(parsed["text"], "foo bar");
}

#[test]
fn turn_done_renders_chat_done() {
    let dispatches = render_chat_dispatches(&ViewEvent::TurnDone);
    assert_eq!(dispatches.len(), 1);
    let parsed: serde_json::Value = serde_json::from_str(&dispatches[0]).unwrap();
    assert_eq!(parsed["type"], "chat_done");
}

#[test]
fn error_text_renders_humanized_chat_error() {
    let raw = r#"Error: provider error: http 429 Too Many Requests: {"error":{"message":"Provider returned error","code":429,"metadata":{"raw":"foo is temporarily rate-limited upstream."}}}"#;
    let dispatches = render_chat_dispatches(&ViewEvent::ErrorText(raw.into()));
    assert_eq!(dispatches.len(), 1);
    let parsed: serde_json::Value = serde_json::from_str(&dispatches[0]).unwrap();
    assert_eq!(parsed["type"], "chat_error");
    assert_eq!(
        parsed["text"],
        "Rate limited: foo is temporarily rate-limited upstream."
    );
}

#[test]
fn error_text_falls_back_to_raw_when_unparseable() {
    let raw = "Error: agent error: tool dispatcher panicked";
    let dispatches = render_chat_dispatches(&ViewEvent::ErrorText(raw.into()));
    assert_eq!(dispatches.len(), 1);
    let parsed: serde_json::Value = serde_json::from_str(&dispatches[0]).unwrap();
    assert_eq!(parsed["type"], "chat_error");
    assert_eq!(parsed["text"], raw);
}

#[test]
fn history_replaced_blank_line_before_user_messages() {
    let mut state = TerminalRenderState::default();
    let msgs = vec![
        DisplayMessage {
            role: "user".into(),
            content: "first prompt".into(),
        },
        DisplayMessage {
            role: "assistant".into(),
            content: "ok".into(),
        },
        DisplayMessage {
            role: "tool".into(),
            content: "Bash".into(),
        },
        DisplayMessage {
            role: "user".into(),
            content: "follow-up".into(),
        },
    ];
    let out = render_terminal_ansi(&mut state, &ViewEvent::HistoryReplaced(msgs))
        .expect("HistoryReplaced should produce ANSI");
    let stripped = strip_ansi(&out);
    assert!(stripped.contains("> first prompt"));
    assert!(
        stripped.contains("\r\n\r\n> follow-up"),
        "expected blank line before second user prompt; got: {stripped:?}"
    );
    assert!(
        !stripped.contains("\r\n\r\n> first prompt"),
        "first user prompt should not have a leading blank line; got: {stripped:?}"
    );
}

