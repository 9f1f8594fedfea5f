//! The content of messages as a request has it, and texts that are fit to be
//! shown.

use vstd::prelude::*;

use crate::json::{Json, JsonView};
use crate::text;
use crate::types::{
    BlockView, ContentBlock, ImageSource, ImageView, Message, MessageView, ResultBlockView,
    ResultView, ToolResultBlock, ToolResultContent,
};

verus! {

pub open spec fn typed(kind: Seq<char>) -> JsonView {
    JsonView::obj().with("type"@, JsonView::text(kind))
}

fn object_of(kind: &str) -> (r: Json)
    ensures
        r@ == typed(kind@),
{
    let mut j = Json::object();
    j.put("type", Json::text(kind));
    j
}

/// An image as a request has it.
pub open spec fn image_of(i: ImageView) -> JsonView {
    typed("image"@).with(
        "source"@,
        typed("base64"@).with("media_type"@, JsonView::text(i.media_type)).with(
            "data"@,
            JsonView::text(i.data),
        ),
    )
}

fn image_json(i: &ImageSource) -> (r: Json)
    ensures
        r@ == image_of(i@),
{
    let ImageSource::Base64 { media_type, data } = i;
    let mut source = object_of("base64");
    source.put("media_type", Json::text(media_type.as_str()));
    source.put("data", Json::text(data.as_str()));
    let mut j = object_of("image");
    j.put("source", source);
    j
}

/// A part of a tool result as a request has it.
pub open spec fn result_block_of(b: ResultBlockView) -> JsonView {
    match b {
        ResultBlockView::Text(t) => typed("text"@).with("text"@, JsonView::text(t)),
        ResultBlockView::Image(i) => image_of(i),
    }
}

fn result_block_json(b: &ToolResultBlock) -> (r: Json)
    ensures
        r@ == result_block_of(b@),
{
    match b {
        ToolResultBlock::Text { text } => {
            let mut j = object_of("text");
            j.put("text", Json::text(text.as_str()));
            j
        },
        ToolResultBlock::Image { source } => image_json(source),
    }
}

/// A tool result as a request has it: a text, or a list of parts.
pub open spec fn result_of(c: ResultView) -> JsonView {
    match c {
        ResultView::Text(s) => JsonView::text(s),
        ResultView::Blocks(b) => JsonView::Arr(Seq::new(b.len(), |i: int| result_block_of(b[i]))),
    }
}

fn result_json(c: &ToolResultContent) -> (r: Json)
    ensures
        r@ == result_of(c@),
{
    match c {
        ToolResultContent::Text(s) => Json::text(s.as_str()),
        ToolResultContent::Blocks(blocks) => {
            let ghost all = text::views(blocks@);
            let ghost each = |i: int| result_block_of(all[i]);
            let mut list = Json::array();
            let n = blocks.len();
            let mut i: usize = 0;
            proof {
                assert(list@.items() =~= Seq::new(0, each));
            }
            while i < n
                invariant
                    n == blocks@.len(),
                    all == text::views(blocks@),
                    i <= n,
                    each == |i: int| result_block_of(all[i]),
                    list@ == JsonView::Arr(Seq::new(i as nat, each)),
                decreases n - i,
            {
                let j = result_block_json(&blocks[i]);
                proof {
                    assert(all[i as int] == blocks@[i as int]@);
                    assert(Seq::new((i + 1) as nat, each) =~= Seq::new(i as nat, each).push(j@));
                }
                list.append(j);
                i = i + 1;
            }
            list
        },
    }
}

/// A part of a message as a request has it.
pub open spec fn block_of(b: BlockView) -> JsonView {
    match b {
        BlockView::Text(t) => typed("text"@).with("text"@, JsonView::text(t)),
        BlockView::Thinking { content, signature } => {
            let j = typed("thinking"@).with("content"@, JsonView::text(content));
            match signature {
                Some(s) => j.with("signature"@, JsonView::text(s)),
                None => j,
            }
        },
        BlockView::Image(i) => image_of(i),
        BlockView::ToolUse { id, name, input, .. } => typed("tool_use"@).with(
            "id"@,
            JsonView::text(id),
        ).with("name"@, JsonView::text(name)).with("input"@, input),
        BlockView::ToolResult { tool_use_id, content, is_error } => typed("tool_result"@).with(
            "tool_use_id"@,
            JsonView::text(tool_use_id),
        ).with("content"@, result_of(content)).with("is_error"@, JsonView::Bool(is_error)),
    }
}

fn block_json(b: &ContentBlock) -> (r: Json)
    ensures
        r@ == block_of(b@),
{
    match b {
        ContentBlock::Text { text } => {
            let mut j = object_of("text");
            j.put("text", Json::text(text.as_str()));
            j
        },
        ContentBlock::Thinking { content, signature } => {
            let mut j = object_of("thinking");
            j.put("content", Json::text(content.as_str()));
            if let Some(s) = signature {
                j.put("signature", Json::text(s.as_str()));
            }
            j
        },
        ContentBlock::Image { source } => image_json(source),
        ContentBlock::ToolUse { id, name, input, .. } => {
            let mut j = object_of("tool_use");
            j.put("id", Json::text(id.as_str()));
            j.put("name", Json::text(name.as_str()));
            j.put("input", input.copy());
            j
        },
        ContentBlock::ToolResult { tool_use_id, content, is_error } => {
            let mut j = object_of("tool_result");
            j.put("tool_use_id", Json::text(tool_use_id.as_str()));
            j.put("content", result_json(content));
            j.put("is_error", Json::Bool(*is_error));
            j
        },
    }
}

/// The content of a message as a request has it.
pub open spec fn content_of(b: Seq<BlockView>) -> JsonView {
    JsonView::Arr(Seq::new(b.len(), |i: int| block_of(b[i])))
}

/// The content of a message as a request has it.
pub fn content_json(content: &Vec<ContentBlock>) -> (r: Json)
    ensures
        r@ == content_of(text::views(content@)),
{
    let ghost all = text::views(content@);
    let ghost each = |i: int| block_of(all[i]);
    let mut list = Json::array();
    let n = content.len();
    let mut i: usize = 0;
    proof {
        assert(list@.items() =~= Seq::new(0, each));
    }
    while i < n
        invariant
            n == content@.len(),
            all == text::views(content@),
            i <= n,
            each == |i: int| block_of(all[i]),
            list@ == JsonView::Arr(Seq::new(i as nat, each)),
        decreases n - i,
    {
        let j = block_json(&content[i]);
        proof {
            assert(all[i as int] == content@[i as int]@);
            assert(Seq::new((i + 1) as nat, each) =~= Seq::new(i as nat, each).push(j@));
        }
        list.append(j);
        i = i + 1;
    }
    list
}

/// The contents of messages as a request has them.
pub open spec fn contents_of(messages: Seq<MessageView>) -> Seq<JsonView> {
    messages.map_values(|m: MessageView| content_of(m.content))
}

/// The contents of messages as a request has them.
pub fn contents_json(messages: &Vec<Message>) -> (r: Vec<Json>)
    ensures
        text::views(r@) == contents_of(text::views(messages@)),
{
    let mut r: Vec<Json> = Vec::new();
    let n = messages.len();
    let mut i: usize = 0;
    while i < n
        invariant
            n == messages@.len(),
            i <= n,
            r@.len() == i,
            forall|k: int| 0 <= k < i ==> (#[trigger] r@[k])@ == content_of(messages@[k]@.content),
        decreases n - i,
    {
        r.push(content_json(&messages[i].content));
        i = i + 1;
    }
    proof {
        assert(text::views(r@) =~= contents_of(text::views(messages@)));
    }
    r
}

/// A text without a key in it.
pub open spec fn redacted(s: Seq<char>, key: Seq<char>) -> Seq<char> {
    if key.len() == 0 {
        s
    } else {
        text::replace_of(s, key, "[redacted]"@)
    }
}

/// The text without the key in it.
pub fn redact_key(s: &str, key: &str) -> (r: String)
    ensures
        r@ == redacted(s@, key@),
{
    if key.unicode_len() == 0 {
        s.to_string()
    } else {
        text::replace(s, key, "[redacted]")
    }
}

/// A key that was redacted is gone, unless its own characters could grow
/// together with the mark that takes its place; a text without the key's first
/// character stays as it is.
pub proof fn redacted_keys_are_gone(s: Seq<char>, key: Seq<char>)
    requires
        key.len() > 0,
    ensures
        !"[redacted]"@.contains(key[0]) && !key.contains('[') ==> !text::contains_text(
            redacted(s, key),
            key,
        ),
        !s.contains(key[0]) ==> redacted(s, key) == s,
        redacted(s, Seq::empty()) == s,
{
    reveal_strlit("[redacted]");
    if !"[redacted]"@.contains(key[0]) && !key.contains('[') {
        text::replaced_text_is_gone(s, key, "[redacted]"@);
    }
    if !s.contains(key[0]) {
        text::occurrences_are_replaced(s, Seq::empty(), key, "[redacted]"@);
    }
}

} // verus!
