//! Conversation data: messages, their content blocks, token usage, tool
//! definitions, and the library's error.

use vstd::prelude::*;

use crate::json::{Json, JsonView};
use crate::text;

verus! {

/// What can go wrong, by the part of the system that reports it.
#[derive(Debug, PartialEq, Eq)]
pub enum Error {
    Config(String),
    Provider(String),
    Tool(String),
    Agent(String),
}

/// Which part of the system an [`Error`] comes from, with its message.
#[verifier::ext_equal]
pub enum ErrorView {
    Config(Seq<char>),
    Provider(Seq<char>),
    Tool(Seq<char>),
    Agent(Seq<char>),
}

impl View for Error {
    type V = ErrorView;

    open spec fn view(&self) -> ErrorView {
        match self {
            Error::Config(m) => ErrorView::Config(m@),
            Error::Provider(m) => ErrorView::Provider(m@),
            Error::Tool(m) => ErrorView::Tool(m@),
            Error::Agent(m) => ErrorView::Agent(m@),
        }
    }
}

impl ErrorView {
    /// The message of the error.
    pub open spec fn text(self) -> Seq<char> {
        match self {
            ErrorView::Config(m) => m,
            ErrorView::Provider(m) => m,
            ErrorView::Tool(m) => m,
            ErrorView::Agent(m) => m,
        }
    }

    /// The error as it is printed: where it comes from, and the message.
    pub open spec fn described(self) -> Seq<char> {
        match self {
            ErrorView::Config(m) => "config error: "@ + m,
            ErrorView::Provider(m) => "provider error: "@ + m,
            ErrorView::Tool(m) => "tool error: "@ + m,
            ErrorView::Agent(m) => "agent error: "@ + m,
        }
    }
}

impl Error {
    /// The message of the error.
    pub fn message(&self) -> (r: &str)
        ensures
            r@ == self@.text(),
    {
        match self {
            Error::Config(m) => m.as_str(),
            Error::Provider(m) => m.as_str(),
            Error::Tool(m) => m.as_str(),
            Error::Agent(m) => m.as_str(),
        }
    }

    /// The error as it is printed: where it comes from, and the message.
    pub fn describe(&self) -> (r: String)
        ensures
            r@ == self@.described(),
    {
        let mut m = (match self {
            Error::Config(_) => "config error: ",
            Error::Provider(_) => "provider error: ",
            Error::Tool(_) => "tool error: ",
            Error::Agent(_) => "agent error: ",
        }).to_string();
        m.append(self.message());
        m
    }
}

/// Who speaks a message.
#[derive(Clone, Copy, Debug, PartialEq, Eq, Structural)]
pub enum Role {
    User,
    Assistant,
    System,
}

/// Where an image's bytes are.
#[derive(Debug, PartialEq, Eq)]
pub enum ImageSource {
    Base64 { media_type: String, data: String },
}

/// An image: its media type and its base64 text.
#[verifier::ext_equal]
pub struct ImageView {
    pub media_type: Seq<char>,
    pub data: Seq<char>,
}

impl View for ImageSource {
    type V = ImageView;

    open spec fn view(&self) -> ImageView {
        match self {
            ImageSource::Base64 { media_type, data } => ImageView {
                media_type: media_type@,
                data: data@,
            },
        }
    }
}

impl Clone for ImageSource {
    fn clone(&self) -> (r: ImageSource)
        ensures
            r@ == self@,
    {
        match self {
            ImageSource::Base64 { media_type, data } => ImageSource::Base64 {
                media_type: media_type.clone(),
                data: data.clone(),
            },
        }
    }
}

/// One block of a multi-part tool result.
#[derive(Debug, PartialEq, Eq)]
pub enum ToolResultBlock {
    Text { text: String },
    Image { source: ImageSource },
}

#[verifier::ext_equal]
pub enum ResultBlockView {
    Text(Seq<char>),
    Image(ImageView),
}

impl View for ToolResultBlock {
    type V = ResultBlockView;

    open spec fn view(&self) -> ResultBlockView {
        match self {
            ToolResultBlock::Text { text } => ResultBlockView::Text(text@),
            ToolResultBlock::Image { source } => ResultBlockView::Image(source@),
        }
    }
}

impl Clone for ToolResultBlock {
    fn clone(&self) -> (r: ToolResultBlock)
        ensures
            r@ == self@,
    {
        match self {
            ToolResultBlock::Text { text } => ToolResultBlock::Text { text: text.clone() },
            ToolResultBlock::Image { source } => ToolResultBlock::Image { source: source.clone() },
        }
    }
}

/// What a tool hands back.
#[derive(Debug, PartialEq, Eq)]
pub enum ToolResultContent {
    Text(String),
    Blocks(Vec<ToolResultBlock>),
}

#[verifier::ext_equal]
pub enum ResultView {
    Text(Seq<char>),
    Blocks(Seq<ResultBlockView>),
}

impl View for ToolResultContent {
    type V = ResultView;

    open spec fn view(&self) -> ResultView {
        match self {
            ToolResultContent::Text(s) => ResultView::Text(s@),
            ToolResultContent::Blocks(b) => ResultView::Blocks(text::views(b@)),
        }
    }
}

/// The texts among the blocks of a result, in order.
pub open spec fn block_texts(b: Seq<ResultBlockView>) -> Seq<Seq<char>>
    decreases b.len(),
{
    if b.len() == 0 {
        Seq::empty()
    } else {
        match b.last() {
            ResultBlockView::Text(t) => block_texts(b.drop_last()).push(t),
            ResultBlockView::Image(_) => block_texts(b.drop_last()),
        }
    }
}

/// The images among the blocks of a result, in order.
pub open spec fn block_images(b: Seq<ResultBlockView>) -> Seq<ImageView>
    decreases b.len(),
{
    if b.len() == 0 {
        Seq::empty()
    } else {
        match b.last() {
            ResultBlockView::Text(_) => block_images(b.drop_last()),
            ResultBlockView::Image(i) => block_images(b.drop_last()).push(i),
        }
    }
}

impl ResultView {
    /// Nothing to show: an empty text, or no blocks.
    pub open spec fn is_empty(self) -> bool {
        match self {
            ResultView::Text(s) => s.len() == 0,
            ResultView::Blocks(b) => b.len() == 0,
        }
    }

    /// The text of the result: its text blocks, one per line.
    pub open spec fn text(self) -> Seq<char> {
        match self {
            ResultView::Text(s) => s,
            ResultView::Blocks(b) => text::join_of(block_texts(b), "\n"@),
        }
    }

    /// The images of the result.
    pub open spec fn images(self) -> Seq<ImageView> {
        match self {
            ResultView::Text(_) => Seq::empty(),
            ResultView::Blocks(b) => block_images(b),
        }
    }
}

impl Clone for ToolResultContent {
    fn clone(&self) -> (r: ToolResultContent)
        ensures
            r@ == self@,
    {
        match self {
            ToolResultContent::Text(s) => ToolResultContent::Text(s.clone()),
            ToolResultContent::Blocks(b) => {
                let mut v: Vec<ToolResultBlock> = Vec::new();
                for i in 0..b.len()
                    invariant
                        v@.len() == i,
                        forall|k: int| 0 <= k < i ==> (#[trigger] v@[k])@ == b@[k]@,
                {
                    v.push(b[i].clone());
                }
                proof {
                    assert(text::views(v@) =~= text::views(b@));
                }
                ToolResultContent::Blocks(v)
            },
        }
    }
}

impl ToolResultContent {
    pub fn is_empty(&self) -> (r: bool)
        ensures
            r == self@.is_empty(),
    {
        match self {
            ToolResultContent::Text(s) => s.as_str().is_empty(),
            ToolResultContent::Blocks(b) => b.is_empty(),
        }
    }

    /// The text of the result: its text blocks, one per line.
    pub fn to_text(&self) -> (r: String)
        ensures
            r@ == self@.text(),
    {
        broadcast use text::views_push;

        match self {
            ToolResultContent::Text(s) => s.clone(),
            ToolResultContent::Blocks(b) => {
                let mut texts: Vec<String> = Vec::new();
                proof {
                    assert(text::views(texts@) =~= block_texts(text::views(b@).take(0)));
                }
                for i in 0..b.len()
                    invariant
                        text::views(texts@) == block_texts(text::views(b@).take(i as int)),
                {
                    broadcast use text::views_push;

                    proof {
                        assert(text::views(b@).take(i + 1).drop_last() == text::views(b@).take(i as int));
                        assert(text::views(b@).take(i + 1).last() == b@[i as int]@);
                    }
                    if let ToolResultBlock::Text { text } = &b[i] {
                        texts.push(text.clone());
                    }
                }
                proof {
                    assert(text::views(b@).take(b@.len() as int) == text::views(b@));
                }
                text::join(&texts, "\n")
            },
        }
    }
}

/// The images of a tool result, in order.
pub fn extract_images(content: &ToolResultContent) -> (r: Vec<ImageSource>)
    ensures
        text::views(r@) == content@.images(),
{
    let mut out: Vec<ImageSource> = Vec::new();
    proof {
        assert(text::views(out@) =~= Seq::<ImageView>::empty());
    }
    if let ToolResultContent::Blocks(b) = content {
        proof {
            assert(text::views(out@) =~= block_images(text::views(b@).take(0)));
        }
        for i in 0..b.len()
            invariant
                text::views(out@) == block_images(text::views(b@).take(i as int)),
        {
            broadcast use text::views_push;

            proof {
                assert(text::views(b@).take(i + 1).drop_last() == text::views(b@).take(i as int));
                assert(text::views(b@).take(i + 1).last() == b@[i as int]@);
            }
            if let ToolResultBlock::Image { source } = &b[i] {
                out.push(source.clone());
            }
        }
        proof {
            assert(text::views(b@).take(b@.len() as int) == text::views(b@));
        }
    }
    out
}

/// One block of a message.
#[allow(inconsistent_fields)]
#[derive(Debug, PartialEq)]
pub enum ContentBlock {
    Text { text: String },
    Thinking { content: String, signature: Option<String> },
    Image { source: ImageSource },
    ToolUse { id: String, name: String, input: Json, thought_signature: Option<String> },
    ToolResult { tool_use_id: String, content: ToolResultContent, is_error: bool },
}

#[allow(inconsistent_fields)]
#[verifier::ext_equal]
pub enum BlockView {
    Text(Seq<char>),
    Thinking { content: Seq<char>, signature: Option<Seq<char>> },
    Image(ImageView),
    ToolUse {
        id: Seq<char>,
        name: Seq<char>,
        input: JsonView,
        thought_signature: Option<Seq<char>>,
    },
    ToolResult { tool_use_id: Seq<char>, content: ResultView, is_error: bool },
}

impl View for ContentBlock {
    type V = BlockView;

    open spec fn view(&self) -> BlockView {
        match self {
            ContentBlock::Text { text } => BlockView::Text(text@),
            ContentBlock::Thinking { content, signature } => BlockView::Thinking {
                content: content@,
                signature: text::view_opt(*signature),
            },
            ContentBlock::Image { source } => BlockView::Image(source@),
            ContentBlock::ToolUse { id, name, input, thought_signature } => BlockView::ToolUse {
                id: id@,
                name: name@,
                input: input@,
                thought_signature: text::view_opt(*thought_signature),
            },
            ContentBlock::ToolResult { tool_use_id, content, is_error } => BlockView::ToolResult {
                tool_use_id: tool_use_id@,
                content: content@,
                is_error: *is_error,
            },
        }
    }
}

impl Clone for ContentBlock {
    fn clone(&self) -> (r: ContentBlock)
        ensures
            r@ == self@,
    {
        match self {
            ContentBlock::Text { text } => ContentBlock::Text { text: text.clone() },
            ContentBlock::Thinking { content, signature } => ContentBlock::Thinking {
                content: content.clone(),
                signature: text::copy_opt(signature),
            },
            ContentBlock::Image { source } => ContentBlock::Image { source: source.clone() },
            ContentBlock::ToolUse { id, name, input, thought_signature } => ContentBlock::ToolUse {
                id: id.clone(),
                name: name.clone(),
                input: input.copy(),
                thought_signature: text::copy_opt(thought_signature),
            },
            ContentBlock::ToolResult { tool_use_id, content, is_error } =>
                ContentBlock::ToolResult {
                tool_use_id: tool_use_id.clone(),
                content: content.clone(),
                is_error: *is_error,
            },
        }
    }
}

impl ContentBlock {
    /// A text block.
    pub fn text(text: String) -> (r: ContentBlock)
        ensures
            r@ == BlockView::Text(text@),
    {
        ContentBlock::Text { text }
    }
}

/// One message of a conversation.
#[derive(Debug, PartialEq)]
pub struct Message {
    pub role: Role,
    pub content: Vec<ContentBlock>,
}

#[verifier::ext_equal]
pub struct MessageView {
    pub role: Role,
    pub content: Seq<BlockView>,
}

impl View for Message {
    type V = MessageView;

    open spec fn view(&self) -> MessageView {
        MessageView { role: self.role, content: text::views(self.content@) }
    }
}

/// A copy of a list of blocks.
pub fn copy_blocks(b: &Vec<ContentBlock>) -> (r: Vec<ContentBlock>)
    ensures
        text::views(r@) == text::views(b@),
{
    let mut v: Vec<ContentBlock> = Vec::new();
    for i in 0..b.len()
        invariant
            v@.len() == i,
            forall|k: int| 0 <= k < i ==> (#[trigger] v@[k])@ == b@[k]@,
    {
        v.push(b[i].clone());
    }
    proof {
        assert(text::views(v@) =~= text::views(b@));
    }
    v
}

impl Clone for Message {
    fn clone(&self) -> (r: Message)
        ensures
            r@ == self@,
    {
        Message { role: self.role, content: copy_blocks(&self.content) }
    }
}

/// A copy of a conversation.
pub fn copy_messages(m: &Vec<Message>) -> (r: Vec<Message>)
    ensures
        text::views(r@) == text::views(m@),
{
    let mut v: Vec<Message> = Vec::new();
    for i in 0..m.len()
        invariant
            v@.len() == i,
            forall|k: int| 0 <= k < i ==> (#[trigger] v@[k])@ == m@[k]@,
    {
        v.push(m[i].clone());
    }
    proof {
        assert(text::views(v@) =~= text::views(m@));
    }
    v
}

/// Tokens that one or more requests have used.
#[derive(Clone, Copy, Debug, PartialEq, Eq, Structural)]
pub struct Usage {
    pub input_tokens: u32,
    pub output_tokens: u32,
    pub cache_creation_input_tokens: Option<u32>,
    pub cache_read_input_tokens: Option<u32>,
    pub reasoning_output_tokens: Option<u32>,
}

/// The smaller of `a + b` and the largest `u32`.
pub open spec fn sat_sum(a: u32, b: u32) -> u32 {
    if a + b > u32::MAX {
        u32::MAX
    } else {
        (a + b) as u32
    }
}

/// The sum of two counts that may be absent; absent only where both are.
pub open spec fn sat_sum_opt(a: Option<u32>, b: Option<u32>) -> Option<u32> {
    match (a, b) {
        (Some(x), Some(y)) => Some(sat_sum(x, y)),
        (Some(x), None) => Some(x),
        (None, Some(y)) => Some(y),
        (None, None) => None,
    }
}

fn sum_opt(a: Option<u32>, b: Option<u32>) -> (r: Option<u32>)
    ensures
        r == sat_sum_opt(a, b),
{
    match (a, b) {
        (Some(x), Some(y)) => Some(x.saturating_add(y)),
        (Some(x), None) => Some(x),
        (None, y) => y,
    }
}

impl Usage {
    pub open spec fn zero() -> Usage {
        Usage {
            input_tokens: 0,
            output_tokens: 0,
            cache_creation_input_tokens: None,
            cache_read_input_tokens: None,
            reasoning_output_tokens: None,
        }
    }

    /// Both usages together.
    pub open spec fn plus(self, u: Usage) -> Usage {
        Usage {
            input_tokens: sat_sum(self.input_tokens, u.input_tokens),
            output_tokens: sat_sum(self.output_tokens, u.output_tokens),
            cache_creation_input_tokens: sat_sum_opt(
                self.cache_creation_input_tokens,
                u.cache_creation_input_tokens,
            ),
            cache_read_input_tokens: sat_sum_opt(
                self.cache_read_input_tokens,
                u.cache_read_input_tokens,
            ),
            reasoning_output_tokens: sat_sum_opt(
                self.reasoning_output_tokens,
                u.reasoning_output_tokens,
            ),
        }
    }

    /// Adds another usage to this one.
    pub fn accumulate(&mut self, u: &Usage)
        ensures
            *final(self) == old(self).plus(*u),
    {
        self.input_tokens = self.input_tokens.saturating_add(u.input_tokens);
        self.output_tokens = self.output_tokens.saturating_add(u.output_tokens);
        self.cache_creation_input_tokens = sum_opt(
            self.cache_creation_input_tokens,
            u.cache_creation_input_tokens,
        );
        self.cache_read_input_tokens = sum_opt(
            self.cache_read_input_tokens,
            u.cache_read_input_tokens,
        );
        self.reasoning_output_tokens = sum_opt(
            self.reasoning_output_tokens,
            u.reasoning_output_tokens,
        );
    }
}

impl Default for Usage {
    fn default() -> (r: Usage)
        ensures
            r == Usage::zero(),
    {
        Usage {
            input_tokens: 0,
            output_tokens: 0,
            cache_creation_input_tokens: None,
            cache_read_input_tokens: None,
            reasoning_output_tokens: None,
        }
    }
}

/// What the model is told of a tool.
#[derive(Debug, PartialEq)]
pub struct ToolDef {
    pub name: String,
    pub description: String,
    pub input_schema: Json,
}

/// A widget that a tool's server wants shown with its result.
#[derive(Debug, PartialEq, Eq)]
pub struct UiResource {
    pub uri: String,
    pub html: String,
    pub mime: Option<String>,
}

#[verifier::ext_equal]
pub struct UiView {
    pub uri: Seq<char>,
    pub html: Seq<char>,
    pub mime: Option<Seq<char>>,
}

impl View for UiResource {
    type V = UiView;

    open spec fn view(&self) -> UiView {
        UiView { uri: self.uri@, html: self.html@, mime: text::view_opt(self.mime) }
    }
}

/// One request to a provider.
#[derive(Debug)]
pub struct StreamRequest {
    pub model: String,
    pub system: Option<String>,
    pub messages: Vec<Message>,
    pub tools: Vec<ToolDef>,
    pub max_tokens: u32,
    pub thinking_budget: Option<u32>,
    pub stream_chunk_timeout_override: Option<std::time::Duration>,
}

} // verus!
