//! Keeping the conversation small: image bytes that the model has seen leave
//! the history, and long tool output is cut to a preview.

use vstd::prelude::*;

use crate::text;
use crate::types::{
    BlockView, ContentBlock, ImageSource, Message, MessageView, ResultBlockView, ResultView, Role,
    ToolResultBlock, ToolResultContent,
};

verus! {

// ---------------------------------------------------------------------------
// Images
// ---------------------------------------------------------------------------

/// What stands in the history for an image of this media type.
pub open spec fn redaction_marker(media_type: Seq<char>) -> Seq<char> {
    "["@ + media_type + " redacted from history to save context]"@
}

pub open spec fn redact_result_block(b: ResultBlockView) -> ResultBlockView {
    match b {
        ResultBlockView::Image(i) => ResultBlockView::Text(redaction_marker(i.media_type)),
        ResultBlockView::Text(t) => ResultBlockView::Text(t),
    }
}

pub open spec fn redact_block(b: BlockView) -> BlockView {
    match b {
        BlockView::ToolResult { tool_use_id, content: ResultView::Blocks(v), is_error } =>
            BlockView::ToolResult {
            tool_use_id,
            content: ResultView::Blocks(v.map_values(|x: ResultBlockView| redact_result_block(x))),
            is_error,
        },
        _ => b,
    }
}

/// A message with the images of its tool results replaced by markers; only
/// the user's messages carry tool results.
pub open spec fn redact_message(m: MessageView) -> MessageView {
    if m.role == Role::User {
        MessageView {
            role: m.role,
            content: m.content.map_values(|b: BlockView| redact_block(b)),
        }
    } else {
        m
    }
}

pub open spec fn redact_history(h: Seq<MessageView>) -> Seq<MessageView> {
    h.map_values(|m: MessageView| redact_message(m))
}

fn redact_result_blocks(blocks: &Vec<ToolResultBlock>) -> (r: Vec<ToolResultBlock>)
    ensures
        text::views(r@) == text::views(blocks@).map_values(
            |x: ResultBlockView| redact_result_block(x),
        ),
{
    let mut out: Vec<ToolResultBlock> = Vec::new();
    for i in 0..blocks.len()
        invariant
            out@.len() == i,
            forall|k: int| 0 <= k < i ==> (#[trigger] out@[k])@ == redact_result_block(blocks@[k]@),
    {
        match &blocks[i] {
            ToolResultBlock::Image { source: ImageSource::Base64 { media_type, .. } } => {
                let mut marker = "[".to_string();
                marker.append(media_type.as_str());
                marker.append(" redacted from history to save context]");
                out.push(ToolResultBlock::Text { text: marker });
            },
            ToolResultBlock::Text { text } => {
                out.push(ToolResultBlock::Text { text: text.clone() });
            },
        }
    }
    proof {
        assert(text::views(out@) =~= text::views(blocks@).map_values(
            |x: ResultBlockView| redact_result_block(x),
        ));
    }
    out
}

fn redact_one(block: ContentBlock) -> (r: ContentBlock)
    ensures
        r@ == redact_block(block@),
{
    match block {
        ContentBlock::ToolResult { tool_use_id, content, is_error } => match content {
            ToolResultContent::Blocks(v) => ContentBlock::ToolResult {
                tool_use_id,
                content: ToolResultContent::Blocks(redact_result_blocks(&v)),
                is_error,
            },
            ToolResultContent::Text(s) => ContentBlock::ToolResult {
                tool_use_id,
                content: ToolResultContent::Text(s),
                is_error,
            },
        },
        other => other,
    }
}

fn redact_content(content: &mut Vec<ContentBlock>)
    ensures
        text::views(final(content)@) == text::views(old(content)@).map_values(
            |b: BlockView| redact_block(b),
        ),
{
    let ghost before = content@;
    let n = content.len();
    let mut i: usize = 0;
    while i < n
        invariant
            i <= n,
            n == before.len(),
            content@.len() == n,
            forall|k: int|
                0 <= k < i ==> (#[trigger] content@[k])@ == redact_block(before[k]@),
            forall|k: int| i <= k < n ==> #[trigger] content@[k] == before[k],
        decreases n - i,
    {
        let mut block = ContentBlock::Text { text: String::new() };
        std::mem::swap(&mut block, &mut content[i]);
        content[i] = redact_one(block);
        i = i + 1;
    }
    proof {
        assert(text::views(content@) =~= text::views(before).map_values(
            |b: BlockView| redact_block(b),
        ));
    }
}

/// Replaces every image in a tool result of the history by a short marker
/// that names its media type. Everything else stays.
pub fn redact_consumed_images_from_history(history: &mut Vec<Message>)
    ensures
        text::views(final(history)@) == redact_history(text::views(old(history)@)),
{
    let ghost before = history@;
    let n = history.len();
    let mut i: usize = 0;
    while i < n
        invariant
            i <= n,
            n == before.len(),
            history@.len() == n,
            forall|k: int|
                0 <= k < i ==> (#[trigger] history@[k])@ == redact_message(before[k]@),
            forall|k: int| i <= k < n ==> #[trigger] history@[k] == before[k],
        decreases n - i,
    {
        if history[i].role == Role::User {
            let mut content: Vec<ContentBlock> = Vec::new();
            std::mem::swap(&mut content, &mut history[i].content);
            redact_content(&mut content);
            history[i] = Message { role: Role::User, content };
        }
        i = i + 1;
    }
    proof {
        assert(text::views(history@) =~= redact_history(text::views(before)));
    }
}

/// The tool results of a message hold no image.
pub open spec fn no_result_images(m: MessageView) -> bool {
    forall|i: int| 0 <= i < m.content.len() ==> match #[trigger] m.content[i] {
        BlockView::ToolResult { content: ResultView::Blocks(v), .. } => forall|k: int|
            0 <= k < v.len() ==> #[trigger] v[k] is Text,
        _ => true,
    }
}

/// Two blocks of a tool result that say the same, or an image and the text
/// that names its media type.
pub open spec fn same_part_but_image(a: ResultBlockView, b: ResultBlockView) -> bool {
    match a {
        ResultBlockView::Text(_) => b == a,
        ResultBlockView::Image(i) => b == ResultBlockView::Text(
            "["@ + i.media_type + " redacted from history to save context]"@,
        ),
    }
}

/// Two blocks that differ in no more than images of a tool result.
pub open spec fn same_block_but_images(a: BlockView, b: BlockView) -> bool {
    match (a, b) {
        (
            BlockView::ToolResult { tool_use_id: ia, content: ResultView::Blocks(va), is_error: ea },
            BlockView::ToolResult { tool_use_id: ib, content: ResultView::Blocks(vb), is_error: eb },
        ) => ia == ib && ea == eb && va.len() == vb.len() && forall|k: int|
            0 <= k < va.len() ==> same_part_but_image(va[k], #[trigger] vb[k]),
        _ => a == b,
    }
}

/// Two messages that differ in no more than images of the user's tool results.
pub open spec fn same_message_but_images(a: MessageView, b: MessageView) -> bool {
    if a.role == Role::User {
        &&& b.role == a.role
        &&& b.content.len() == a.content.len()
        &&& forall|k: int|
            0 <= k < a.content.len() ==> same_block_but_images(
                a.content[k],
                #[trigger] b.content[k],
            )
    } else {
        a == b
    }
}

/// Two conversations that differ in no more than images of tool results.
pub open spec fn same_but_images(a: Seq<MessageView>, b: Seq<MessageView>) -> bool {
    &&& a.len() == b.len()
    &&& forall|i: int| 0 <= i < a.len() ==> same_message_but_images(a[i], #[trigger] b[i])
}

/// Redaction touches nothing but the images of tool results: every message,
/// every block, every text, every id and every error mark stays where it is.
pub proof fn redaction_touches_images_only(h: Seq<MessageView>)
    ensures
        same_but_images(h, redact_history(h)),
{
    let r = redact_history(h);
    assert forall|i: int| 0 <= i < h.len() implies same_message_but_images(
        h[i],
        #[trigger] r[i],
    ) by {
        assert(r[i] == redact_message(h[i]));
        if h[i].role == Role::User {
            assert forall|k: int| 0 <= k < h[i].content.len() implies same_block_but_images(
                h[i].content[k],
                #[trigger] r[i].content[k],
            ) by {
                assert(r[i].content[k] == redact_block(h[i].content[k]));
            }
        }
    }
}

/// Redacting a redacted history changes nothing.
pub proof fn redaction_is_idempotent(h: Seq<MessageView>)
    ensures
        redact_history(redact_history(h)) == redact_history(h),
{
    let once = redact_history(h);
    assert forall|i: int| 0 <= i < once.len() implies redact_message(#[trigger] once[i])
        == once[i] by {
        redaction_leaves_image_free_alone(once[i]);
        redaction_removes_images(h[i]);
    }
    assert(redact_history(once) =~= once);
}

/// After redaction no tool result of a user message holds an image.
pub proof fn redaction_removes_images(m: MessageView)
    ensures
        m.role == Role::User ==> no_result_images(redact_message(m)),
{
    let r = redact_message(m);
    if m.role == Role::User {
        assert forall|i: int| 0 <= i < r.content.len() implies match #[trigger] r.content[i] {
            BlockView::ToolResult { content: ResultView::Blocks(v), .. } => forall|k: int|
                0 <= k < v.len() ==> #[trigger] v[k] is Text,
            _ => true,
        } by {
            assert(r.content[i] == redact_block(m.content[i]));
        }
    }
}

/// A message without images in its tool results keeps every word, and so does
/// a message of anybody but the user.
pub proof fn redaction_leaves_image_free_alone(m: MessageView)
    ensures
        no_result_images(m) || m.role != Role::User ==> redact_message(m) == m,
{
    if m.role == Role::User && no_result_images(m) {
        let r = redact_message(m);
        assert forall|i: int| 0 <= i < m.content.len() implies #[trigger] r.content[i]
            == m.content[i] by {
            match m.content[i] {
                BlockView::ToolResult { tool_use_id, content: ResultView::Blocks(v), is_error } => {
                    assert(v.map_values(|x: ResultBlockView| redact_result_block(x)) =~= v);
                },
                _ => {},
            }
        }
        assert(r.content =~= m.content);
    }
}

/// Redaction neither adds nor drops a message or a block, and keeps who
/// speaks.
pub proof fn redaction_keeps_shape(h: Seq<MessageView>, i: int)
    requires
        0 <= i < h.len(),
    ensures
        redact_history(h).len() == h.len(),
        redact_history(h)[i].role == h[i].role,
        redact_history(h)[i].content.len() == h[i].content.len(),
{
}

// ---------------------------------------------------------------------------
// Long tool output
// ---------------------------------------------------------------------------

/// The most bytes of a tool result that stay in the conversation.
pub const TOOL_RESULT_CONTEXT_LIMIT: usize = 50_000;

/// How many characters of a longer result are shown.
pub const TOOL_RESULT_PREVIEW_CHARS: usize = 2000;

/// Where the full text of a cut result went.
#[derive(Debug, PartialEq, Eq)]
pub enum SavedOutput {
    /// A file with this path.
    File(String),
    /// Nowhere, because of this error.
    Failed(String),
}

/// The number of bytes of a text.
pub open spec fn byte_len(s: Seq<char>) -> nat {
    vstd::utf8::encode_utf8(s).len()
}

/// A result that is too long for the conversation.
pub open spec fn is_too_long(content: Seq<char>) -> bool {
    byte_len(content) > TOOL_RESULT_CONTEXT_LIMIT
}

/// The preview of a long result, followed by where the rest is.
pub open spec fn truncated(content: Seq<char>, saved: SavedOutput) -> Seq<char> {
    content.take(TOOL_RESULT_PREVIEW_CHARS as int) + "\n\n... [truncated: "@ + text::decimal_of(
        byte_len(content),
    ) + (match saved {
        SavedOutput::File(path) => " total bytes — full output saved to "@ + path@ + "]"@,
        SavedOutput::Failed(e) => " total bytes — could not save full output to disk ("@ + e@
            + "); preview only]"@,
    })
}

/// Whether a result is too long for the conversation.
pub fn exceeds_context_limit(content: &str) -> (r: bool)
    ensures
        r == is_too_long(content@),
{
    content.as_bytes().len() > TOOL_RESULT_CONTEXT_LIMIT
}

proof fn lemma_bytes_of_chars(s: Seq<char>)
    ensures
        byte_len(s) <= 4 * s.len(),
    decreases s.len(),
{
    if s.len() > 0 {
        lemma_bytes_of_chars(s.drop_first());
    }
}

/// The preview of a long result, followed by where the rest is.
pub fn truncate_result(content: &str, saved: &SavedOutput) -> (r: String)
    requires
        is_too_long(content@),
    ensures
        r@ == truncated(content@, *saved),
{
    proof {
        lemma_bytes_of_chars(content@);
        assert(content@.take(TOOL_RESULT_PREVIEW_CHARS as int) == content@.subrange(
            0,
            TOOL_RESULT_PREVIEW_CHARS as int,
        ));
    }
    let mut out = content.substring_char(0, TOOL_RESULT_PREVIEW_CHARS).to_string();
    out.append("\n\n... [truncated: ");
    out.append(text::decimal(content.as_bytes().len() as u64).as_str());
    let mut tail = String::new();
    match saved {
        SavedOutput::File(path) => {
            tail = " total bytes — full output saved to ".to_string();
            tail.append(path.as_str());
            tail.append("]");
        },
        SavedOutput::Failed(e) => {
            tail = " total bytes — could not save full output to disk (".to_string();
            tail.append(e.as_str());
            tail.append("); preview only]");
        },
    }
    out.append(tail.as_str());
    out
}

/// A result that is cut keeps its beginning, and ends with where the rest is,
/// or why it is nowhere.
pub proof fn cut_results_keep_their_beginning(content: Seq<char>, saved: SavedOutput)
    requires
        vstd::utf8::encode_utf8(content).len() > TOOL_RESULT_CONTEXT_LIMIT,
    ensures
        ({
            let r = truncated(content, saved);
            let end = match saved {
                SavedOutput::File(path) => path@ + "]"@,
                SavedOutput::Failed(e) => e@ + "); preview only]"@,
            };
            &&& content.len() >= TOOL_RESULT_PREVIEW_CHARS
            &&& r.take(TOOL_RESULT_PREVIEW_CHARS as int) == content.take(
                TOOL_RESULT_PREVIEW_CHARS as int,
            )
            &&& r.len() >= end.len()
            &&& r.skip(r.len() - end.len()) == end
        }),
{
    lemma_bytes_of_chars(content);
    let r = truncated(content, saved);
    assert(r.take(TOOL_RESULT_PREVIEW_CHARS as int) =~= content.take(
        TOOL_RESULT_PREVIEW_CHARS as int,
    ));
    match saved {
        SavedOutput::File(path) => {
            let end = path@ + "]"@;
            assert(r.skip(r.len() - end.len()) =~= end);
        },
        SavedOutput::Failed(e) => {
            let end = e@ + "); preview only]"@;
            assert(r.skip(r.len() - end.len()) =~= end);
        },
    }
}

} // verus!
