use thclaws_core::history::redact_consumed_images_from_history;
use thclaws_core::types::{
    ContentBlock, ImageSource, Message, Role, ToolResultBlock, ToolResultContent,
};

#[test]
fn redact_consumed_images_strips_base64_keeps_summary() {
    let mut history = vec![Message {
        role: Role::User,
        content: vec![ContentBlock::ToolResult {
            tool_use_id: "id-1".into(),
            content: ToolResultContent::Blocks(vec![
                ToolResultBlock::Image {
                    source: ImageSource::Base64 {
                        media_type: "image/jpeg".into(),
                        data: "BIG_BASE64_PAYLOAD".into(),
                    },
                },
                ToolResultBlock::Text {
                    text: "image: foo.jpg · 234 KB · image/jpeg".into(),
                },
            ]),
            is_error: false,
        }],
    }];
    redact_consumed_images_from_history(&mut history);

    let ContentBlock::ToolResult { content, .. } = &history[0].content[0] else {
        panic!("expected ToolResult");
    };
    let ToolResultContent::Blocks(blocks) = content else {
        panic!("expected Blocks content");
    };
    assert_eq!(blocks.len(), 2);
    match &blocks[0] {
        ToolResultBlock::Text { text } => {
            assert!(
                text.contains("image/jpeg"),
                "marker should name media_type: {text}"
            );
            assert!(
                text.contains("redacted"),
                "marker should say redacted: {text}"
            );
        }
        _ => panic!("expected redacted Text marker, got {:?}", blocks[0]),
    }
    match &blocks[1] {
        ToolResultBlock::Text { text } => assert!(text.contains("foo.jpg")),
        _ => panic!("expected original summary text"),
    }
}

#[test]
fn redact_consumed_images_is_idempotent() {
    let mut history = vec![Message {
        role: Role::User,
        content: vec![ContentBlock::ToolResult {
            tool_use_id: "id-1".into(),
            content: ToolResultContent::Blocks(vec![ToolResultBlock::Image {
                source: ImageSource::Base64 {
                    media_type: "image/png".into(),
                    data: "X".into(),
                },
            }]),
            is_error: false,
        }],
    }];
    redact_consumed_images_from_history(&mut history);
    let snapshot = history.clone();
    redact_consumed_images_from_history(&mut history);
    assert_eq!(history, snapshot, "second pass should be a no-op");
}

#[test]
fn redact_consumed_images_leaves_text_only_results_alone() {
    let original = vec![Message {
        role: Role::User,
        content: vec![ContentBlock::ToolResult {
            tool_use_id: "id-1".into(),
            content: ToolResultContent::Text("plain output, no images".into()),
            is_error: false,
        }],
    }];
    let mut history = original.clone();
    redact_consumed_images_from_history(&mut history);
    assert_eq!(history, original);
}

