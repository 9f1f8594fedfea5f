//! Requests to the OpenCode Go gateway, which serves its models in three wire
//! formats behind one base URL.

use vstd::prelude::*;

use crate::content;
use crate::json::{self, Json, JsonView};
use crate::text;
use crate::types::{
    self, BlockView, ContentBlock, Error, ErrorView, ImageSource, ImageView, Message, MessageView,
    Role, StreamRequest, ToolDef,
};

verus! {

pub const DEFAULT_API_URL: &'static str = "https://opencode.ai/zen/go/v1";

pub const MODELS_URL: &'static str = "https://opencode.ai/zen/go/v1/models";

/// The prefix that marks a model as one of this gateway.
pub const MODEL_PREFIX: &'static str = "opencode-go/";

/// How a model is spoken to.
#[derive(Clone, Copy, Debug, PartialEq, Eq, Structural)]
pub enum WireFormat {
    OpenAI,
    Anthropic,
    Alibaba,
}

// ---------------------------------------------------------------------------
// Choosing a format
// ---------------------------------------------------------------------------

/// What `str::to_lowercase` makes of a text.
pub uninterp spec fn lowercase(s: Seq<char>) -> Seq<char>;

/// `str::to_lowercase`: the lower-case text follows from the text alone.
#[verifier::external_body]
pub(crate) fn to_lowercase(s: &str) -> (r: String)
    ensures
        r@ == lowercase(s@),
{
    s.to_lowercase()
}

/// The format of a model, by its name in lower case.
pub open spec fn format_of(lower: Seq<char>) -> WireFormat {
    if lower == "minimax-m2.5"@ || lower == "minimax-m2.7"@ {
        WireFormat::Anthropic
    } else if lower == "qwen3.5-plus"@ || lower == "qwen3.6-plus"@ {
        WireFormat::Alibaba
    } else {
        WireFormat::OpenAI
    }
}

/// The format of a model, by its name in lower case.
pub fn wire_format_of(lower: &str) -> (r: WireFormat)
    ensures
        r == format_of(lower@),
{
    if text::same(lower, "minimax-m2.5") || text::same(lower, "minimax-m2.7") {
        WireFormat::Anthropic
    } else if text::same(lower, "qwen3.5-plus") || text::same(lower, "qwen3.6-plus") {
        WireFormat::Alibaba
    } else {
        WireFormat::OpenAI
    }
}

/// The format of a model, whatever the case of its name.
pub fn detect_wire_format(model: &str) -> (r: WireFormat)
    ensures
        r == format_of(lowercase(model@)),
{
    wire_format_of(to_lowercase(model).as_str())
}

/// The path of a format's endpoint.
pub open spec fn endpoint_of(format: WireFormat) -> Seq<char> {
    match format {
        WireFormat::OpenAI => "/chat/completions"@,
        WireFormat::Alibaba => "/chat/completions"@,
        WireFormat::Anthropic => "/messages"@,
    }
}

pub fn endpoint_for(format: WireFormat) -> (r: &'static str)
    ensures
        r@ == endpoint_of(format),
{
    match format {
        WireFormat::OpenAI => "/chat/completions",
        WireFormat::Alibaba => "/chat/completions",
        WireFormat::Anthropic => "/messages",
    }
}

// ---------------------------------------------------------------------------
// The provider
// ---------------------------------------------------------------------------

/// How the gateway is reached.
#[derive(Debug, PartialEq, Eq)]
pub struct OpencodeGoProvider {
    pub api_key: String,
    pub base_url: String,
    pub list_models_url: Option<String>,
}

impl OpencodeGoProvider {
    /// A provider at the default address.
    pub fn new(api_key: String) -> (r: OpencodeGoProvider)
        ensures
            r.api_key == api_key,
            r.base_url@ == DEFAULT_API_URL@,
            r.list_models_url is None,
    {
        OpencodeGoProvider {
            api_key,
            base_url: DEFAULT_API_URL.to_string(),
            list_models_url: None,
        }
    }

    /// The provider at another address.
    pub fn with_base_url(self, url: String) -> (r: OpencodeGoProvider)
        ensures
            r == (OpencodeGoProvider { base_url: url, ..self }),
    {
        OpencodeGoProvider { base_url: url, ..self }
    }

    /// The provider with its list of models at another address.
    pub fn with_list_models_url(self, url: String) -> (r: OpencodeGoProvider)
        ensures
            r == (OpencodeGoProvider { list_models_url: Some(url), ..self }),
    {
        OpencodeGoProvider { list_models_url: Some(url), ..self }
    }

    /// Where the list of models is.
    pub fn models_list_url(&self) -> (r: String)
        ensures
            r@ == match self.list_models_url {
                Some(u) => u@,
                None => text::trim_end_char_of(self.base_url@, '/') + "/models"@,
            },
    {
        match &self.list_models_url {
            Some(u) => u.clone(),
            None => {
                let mut s = text::trim_end_char(self.base_url.as_str(), '/').to_string();
                s.append("/models");
                s
            },
        }
    }

    /// Where requests of a format go.
    pub fn endpoint_url(&self, format: WireFormat) -> (r: String)
        ensures
            r@ == text::trim_end_char_of(self.base_url@, '/') + endpoint_of(format),
    {
        let mut s = text::trim_end_char(self.base_url.as_str(), '/').to_string();
        s.append(endpoint_for(format));
        s
    }

    /// The headers that say who asks.
    pub fn auth_headers(&self, format: WireFormat) -> (r: Vec<(String, String)>)
        ensures
            ({
                let v = Seq::new(r@.len(), |i: int| (r@[i].0@, r@[i].1@));
                v == if format == WireFormat::Anthropic {
                    seq![
                        ("x-api-key"@, self.api_key@),
                        ("anthropic-version"@, "2023-06-01"@),
                    ]
                } else {
                    seq![("authorization"@, "Bearer "@ + self.api_key@)]
                }
            }),
    {
        let mut r: Vec<(String, String)> = Vec::new();
        if format == WireFormat::Anthropic {
            r.push(("x-api-key".to_string(), self.api_key.clone()));
            r.push(("anthropic-version".to_string(), "2023-06-01".to_string()));
        } else {
            let mut bearer = "Bearer ".to_string();
            bearer.append(self.api_key.as_str());
            r.push(("authorization".to_string(), bearer));
        }
        r
    }
}

/// A model's name without the gateway's prefix.
pub open spec fn bare_model(model: Seq<char>) -> Seq<char> {
    if text::has_prefix(model, MODEL_PREFIX@) {
        model.skip(MODEL_PREFIX@.len() as int)
    } else {
        model
    }
}

/// A model's name without the gateway's prefix.
pub fn strip_model_prefix(model: &str) -> (r: String)
    ensures
        r@ == bare_model(model@),
{
    match text::strip_prefix(model, MODEL_PREFIX) {
        Some(rest) => rest.to_string(),
        None => model.to_string(),
    }
}

// ---------------------------------------------------------------------------
// Messages in the OpenAI format
// ---------------------------------------------------------------------------

pub open spec fn role_name(role: Role) -> Seq<char> {
    match role {
        Role::User => "user"@,
        Role::Assistant => "assistant"@,
        Role::System => "system"@,
    }
}

fn role_text(role: Role) -> (r: &'static str)
    ensures
        r@ == role_name(role),
{
    match role {
        Role::User => "user",
        Role::Assistant => "assistant",
        Role::System => "system",
    }
}

/// The texts of a message, one after the other.
pub open spec fn words_of(b: Seq<BlockView>) -> Seq<char>
    decreases b.len(),
{
    if b.len() == 0 {
        Seq::empty()
    } else {
        match b.last() {
            BlockView::Text(t) => words_of(b.drop_last()) + t,
            _ => words_of(b.drop_last()),
        }
    }
}

/// The reasoning of a message, one piece after the other.
pub open spec fn reasoning_of(b: Seq<BlockView>) -> Seq<char>
    decreases b.len(),
{
    if b.len() == 0 {
        Seq::empty()
    } else {
        match b.last() {
            BlockView::Thinking { content, .. } => reasoning_of(b.drop_last()) + content,
            _ => reasoning_of(b.drop_last()),
        }
    }
}

/// The images of a message.
pub open spec fn images_of(b: Seq<BlockView>) -> Seq<ImageView>
    decreases b.len(),
{
    if b.len() == 0 {
        Seq::empty()
    } else {
        match b.last() {
            BlockView::Image(i) => images_of(b.drop_last()).push(i),
            _ => images_of(b.drop_last()),
        }
    }
}

pub open spec fn call_json(id: Seq<char>, name: Seq<char>, input: JsonView) -> JsonView {
    JsonView::obj().with("id"@, JsonView::text(id)).with("type"@, JsonView::text("function"@)).with(
        "function"@,
        JsonView::obj().with("name"@, JsonView::text(name)).with(
            "arguments"@,
            JsonView::text(json::json_text(input)),
        ),
    )
}

/// The tool calls of a message.
pub open spec fn calls_of(b: Seq<BlockView>) -> Seq<JsonView>
    decreases b.len(),
{
    if b.len() == 0 {
        Seq::empty()
    } else {
        match b.last() {
            BlockView::ToolUse { id, name, input, .. } => calls_of(b.drop_last()).push(
                call_json(id, name, input),
            ),
            _ => calls_of(b.drop_last()),
        }
    }
}

/// A tool result of a message: whose it is, its text, its images.
#[verifier::ext_equal]
pub struct ResultPart {
    pub id: Seq<char>,
    pub text: Seq<char>,
    pub images: Seq<ImageView>,
}

/// The tool results of a message.
pub open spec fn results_of(b: Seq<BlockView>) -> Seq<ResultPart>
    decreases b.len(),
{
    if b.len() == 0 {
        Seq::empty()
    } else {
        match b.last() {
            BlockView::ToolResult { tool_use_id, content, .. } => results_of(b.drop_last()).push(
                ResultPart { id: tool_use_id, text: content.text(), images: content.images() },
            ),
            _ => results_of(b.drop_last()),
        }
    }
}

pub open spec fn text_part(t: Seq<char>) -> JsonView {
    JsonView::obj().with("type"@, JsonView::text("text"@)).with("text"@, JsonView::text(t))
}

pub open spec fn image_part(i: ImageView) -> JsonView {
    JsonView::obj().with("type"@, JsonView::text("image_url"@)).with(
        "image_url"@,
        JsonView::obj().with(
            "url"@,
            JsonView::text("data:"@ + i.media_type + ";base64,"@ + i.data),
        ),
    )
}

pub open spec fn image_parts(i: Seq<ImageView>) -> Seq<JsonView> {
    i.map_values(|x: ImageView| image_part(x))
}

/// What the message says in one piece: text and reasoning, images and tool
/// calls; none where it has none of them.
pub open spec fn main_message(m: MessageView) -> Option<JsonView> {
    let words = words_of(m.content);
    let reasoning = reasoning_of(m.content);
    let calls = calls_of(m.content);
    let images = images_of(m.content);
    if words.len() == 0 && reasoning.len() == 0 && calls.len() == 0 && images.len() == 0 {
        None
    } else {
        let a = JsonView::obj().with("role"@, JsonView::text(role_name(m.role)));
        let b = if images.len() > 0 {
            a.with(
                "content"@,
                JsonView::Arr(
                    (if words.len() > 0 {
                        seq![text_part(words)]
                    } else {
                        Seq::empty()
                    }) + image_parts(images),
                ),
            )
        } else if words.len() > 0 {
            a.with("content"@, JsonView::text(words))
        } else if calls.len() > 0 {
            a.with("content"@, JsonView::Null)
        } else {
            a
        };
        let c = if calls.len() > 0 {
            b.with("tool_calls"@, JsonView::Arr(calls))
        } else {
            b
        };
        let d = if reasoning.len() > 0 {
            c.with("reasoning_content"@, JsonView::text(reasoning))
        } else {
            c
        };
        Some(d)
    }
}

pub open spec fn tool_message(r: ResultPart) -> JsonView {
    JsonView::obj().with("role"@, JsonView::text("tool"@)).with(
        "tool_call_id"@,
        JsonView::text(r.id),
    ).with("content"@, JsonView::text(r.text))
}

pub open spec fn tool_messages(r: Seq<ResultPart>) -> Seq<JsonView> {
    r.map_values(|x: ResultPart| tool_message(x))
}

/// How many images tool results hold.
pub open spec fn image_count(r: Seq<ResultPart>) -> nat
    decreases r.len(),
{
    if r.len() == 0 {
        0
    } else {
        image_count(r.drop_last()) + r.last().images.len()
    }
}

/// The tool results that hold images.
pub open spec fn ids_with_images(r: Seq<ResultPart>) -> Seq<Seq<char>>
    decreases r.len(),
{
    if r.len() == 0 {
        Seq::empty()
    } else if r.last().images.len() > 0 {
        ids_with_images(r.drop_last()).push(r.last().id)
    } else {
        ids_with_images(r.drop_last())
    }
}

/// The images of one result, each under a line that says whose it is.
pub open spec fn labelled_images(id: Seq<char>, i: Seq<ImageView>) -> Seq<JsonView>
    decreases i.len(),
{
    if i.len() == 0 {
        Seq::empty()
    } else {
        labelled_images(id, i.drop_last()).push(text_part("from "@ + id + ":"@)).push(
            image_part(i.last()),
        )
    }
}

pub open spec fn all_labelled_images(r: Seq<ResultPart>) -> Seq<JsonView>
    decreases r.len(),
{
    if r.len() == 0 {
        Seq::empty()
    } else {
        all_labelled_images(r.drop_last()) + labelled_images(r.last().id, r.last().images)
    }
}

pub open spec fn plural(n: nat) -> Seq<char> {
    if n == 1 {
        ""@
    } else {
        "s"@
    }
}

/// The message that carries the images of tool results, which a tool message
/// cannot hold.
pub open spec fn images_message(r: Seq<ResultPart>) -> JsonView {
    let ids = ids_with_images(r);
    let head = text_part(
        "(image"@ + plural(image_count(r)) + " attached from preceding tool_result"@ + plural(
            ids.len(),
        ) + ": "@ + text::join_of(ids, ", "@) + ")"@,
    );
    JsonView::obj().with("role"@, JsonView::text("user"@)).with(
        "content"@,
        JsonView::Arr(seq![head] + all_labelled_images(r)),
    )
}

/// The messages that one message becomes.
pub open spec fn openai_message(m: MessageView) -> Seq<JsonView> {
    let r = results_of(m.content);
    (match main_message(m) {
        Some(j) => seq![j],
        None => Seq::empty(),
    }) + tool_messages(r) + (if image_count(r) > 0 {
        seq![images_message(r)]
    } else {
        Seq::empty()
    })
}

/// The messages that a conversation becomes.
pub open spec fn openai_conversation(m: Seq<MessageView>) -> Seq<JsonView>
    decreases m.len(),
{
    if m.len() == 0 {
        Seq::empty()
    } else {
        openai_conversation(m.drop_last()) + openai_message(m.last())
    }
}

pub open spec fn openai_messages(system: Option<Seq<char>>, m: Seq<MessageView>) -> Seq<JsonView> {
    (match system {
        Some(s) => if s.len() > 0 {
            seq![
                JsonView::obj().with("role"@, JsonView::text("system"@)).with(
                    "content"@,
                    JsonView::text(s),
                ),
            ]
        } else {
            Seq::empty()
        },
        None => Seq::empty(),
    }) + openai_conversation(m)
}

/// A tool result of a message.
struct ToolResultPart {
    id: String,
    text: String,
    images: Vec<ImageSource>,
}

impl View for ToolResultPart {
    type V = ResultPart;

    closed spec fn view(&self) -> ResultPart {
        ResultPart { id: self.id@, text: self.text@, images: text::views(self.images@) }
    }
}

fn text_json(t: &str) -> (r: Json)
    ensures
        r@ == text_part(t@),
{
    let mut j = Json::object();
    j.put("type", Json::text("text"));
    j.put("text", Json::text(t));
    j
}

fn image_json(i: &ImageSource) -> (r: Json)
    ensures
        r@ == image_part(i@),
{
    let ImageSource::Base64 { media_type, data } = i;
    let mut url = "data:".to_string();
    url.append(media_type.as_str());
    url.append(";base64,");
    url.append(data.as_str());
    let mut inner = Json::object();
    inner.put("url", Json::Str(url));
    let mut j = Json::object();
    j.put("type", Json::text("image_url"));
    j.put("image_url", inner);
    j
}

fn tool_call_json(id: &str, name: &str, input: &Json) -> (r: Json)
    ensures
        r@ == call_json(id@, name@, input@),
{
    let mut f = Json::object();
    f.put("name", Json::text(name));
    f.put("arguments", Json::Str(json::render_json(input)));
    let mut j = Json::object();
    j.put("id", Json::text(id));
    j.put("type", Json::text("function"));
    j.put("function", f);
    j
}

fn push_image_parts(arr: &mut Vec<Json>, images: &Vec<ImageSource>)
    ensures
        text::views(final(arr)@) == text::views(old(arr)@) + image_parts(text::views(images@)),
{
    let ghost base = text::views(arr@);
    let ghost all = text::views(images@);
    let mut i: usize = 0;
    proof {
        assert(base + image_parts(all.take(0)) =~= base);
    }
    while i < images.len()
        invariant
            i <= images@.len(),
            all == text::views(images@),
            text::views(arr@) == base + image_parts(all.take(i as int)),
        decreases images@.len() - i,
    {
        broadcast use text::views_push;

        arr.push(image_json(&images[i]));
        proof {
            assert(base + image_parts(all.take(i + 1)) =~= (base + image_parts(
                all.take(i as int),
            )).push(image_part(all[i as int])));
        }
        i = i + 1;
    }
    proof {
        assert(all.take(i as int) == all);
    }
}

fn main_json(
    role: Role,
    words: &str,
    reasoning: &str,
    calls: Vec<Json>,
    images: &Vec<ImageSource>,
    Ghost(m): Ghost<MessageView>,
) -> (r: Option<Json>)
    requires
        m.role == role,
        words@ == words_of(m.content),
        reasoning@ == reasoning_of(m.content),
        text::views(calls@) == calls_of(m.content),
        text::views(images@) == images_of(m.content),
    ensures
        text::view_opt(r) == main_message(m),
{
    proof {
        assert(calls@.len() == text::views(calls@).len());
        assert(images@.len() == text::views(images@).len());
    }
    let has_calls = calls.len() > 0;
    let has_images = images.len() > 0;
    if words.is_empty() && reasoning.is_empty() && !has_calls && !has_images {
        return None;
    }
    let mut msg = Json::object();
    msg.put("role", Json::text(role_text(role)));
    if has_images {
        let mut arr: Vec<Json> = Vec::new();
        if !words.is_empty() {
            arr.push(text_json(words));
        }
        let ghost head = if words@.len() > 0 {
            seq![text_part(words@)]
        } else {
            Seq::empty()
        };
        proof {
            assert(text::views(arr@) =~= head);
        }
        push_image_parts(&mut arr, images);
        let j = json_array(arr);
        msg.put("content", j);
    } else if !words.is_empty() {
        msg.put("content", Json::text(words));
    } else if has_calls {
        msg.put("content", Json::Null);
    }
    if has_calls {
        msg.put("tool_calls", json_array(calls));
    }
    if !reasoning.is_empty() {
        msg.put("reasoning_content", Json::text(reasoning));
    }
    Some(msg)
}

/// A JSON array of values.
pub(crate) fn json_array(items: Vec<Json>) -> (r: Json)
    ensures
        r@ == JsonView::Arr(text::views(items@)),
{
    let r = Json::Arr(items);
    proof {
        assert(r@.items() =~= text::views(items@));
    }
    r
}

fn images_json(results: &Vec<ToolResultPart>, single: bool) -> (r: Json)
    requires
        single == (image_count(text::views(results@)) == 1),
    ensures
        r@ == images_message(text::views(results@)),
{
    let ghost all = text::views(results@);
    let mut ids: Vec<String> = Vec::new();
    let mut parts: Vec<Json> = Vec::new();
    let mut i: usize = 0;
    proof {
        assert(text::views(ids@) =~= ids_with_images(all.take(0)));
        assert(text::views(parts@) =~= all_labelled_images(all.take(0)));
    }
    while i < results.len()
        invariant
            i <= results@.len(),
            all == text::views(results@),
            text::views(ids@) == ids_with_images(all.take(i as int)),
            text::views(parts@) == all_labelled_images(all.take(i as int)),
        decreases results@.len() - i,
    {
        broadcast use text::views_push;

        let part = &results[i];
        let ghost base = text::views(parts@);
        let ghost imgs = text::views(part.images@);
        proof {
            let t = all.take(i + 1);
            assert(t.drop_last() == all.take(i as int));
            assert(t.last() == part@);
            assert(imgs.len() == part.images@.len());
            assert(base + labelled_images(part.id@, imgs.take(0)) =~= base);
        }
        if part.images.len() > 0 {
            ids.push(part.id.clone());
        }
        let mut k: usize = 0;
        while k < part.images.len()
            invariant
                k <= part.images@.len(),
                imgs == text::views(part.images@),
                text::views(parts@) == base + labelled_images(part.id@, imgs.take(k as int)),
            decreases part.images@.len() - k,
        {
            broadcast use text::views_push;

            let mut label = "from ".to_string();
            label.append(part.id.as_str());
            label.append(":");
            parts.push(text_json(label.as_str()));
            parts.push(image_json(&part.images[k]));
            proof {
                let t = imgs.take(k + 1);
                assert(t.drop_last() == imgs.take(k as int));
                assert(t.last() == part.images@[k as int]@);
                assert(text::views(parts@) =~= base + labelled_images(part.id@, t));
            }
            k = k + 1;
        }
        proof {
            assert(imgs.take(k as int) == imgs);
        }
        i = i + 1;
    }
    proof {
        assert(all.take(i as int) == all);
        assert(ids@.len() == text::views(ids@).len());
    }
    let mut head = "(image".to_string();
    head.append(if single { "" } else { "s" });
    head.append(" attached from preceding tool_result");
    head.append(if ids.len() == 1 { "" } else { "s" });
    head.append(": ");
    head.append(text::join(&ids, ", ").as_str());
    head.append(")");
    let mut content: Vec<Json> = Vec::new();
    content.push(text_json(head.as_str()));
    let ghost h = text_part(head@);
    let ghost p = text::views(parts@);
    content.append(&mut parts);
    proof {
        assert(text::views(content@) =~= seq![h] + p);
    }
    let mut j = Json::object();
    j.put("role", Json::text("user"));
    j.put("content", json_array(content));
    j
}

fn push_message(out: &mut Vec<Json>, m: &Message)
    ensures
        text::views(final(out)@) == text::views(old(out)@) + openai_message(m@),
{
    let ghost base = text::views(out@);
    let ghost all = m@.content;
    let mut words = String::new();
    let mut reasoning = String::new();
    let mut calls: Vec<Json> = Vec::new();
    let mut images: Vec<ImageSource> = Vec::new();
    let mut results: Vec<ToolResultPart> = Vec::new();
    let mut i: usize = 0;
    proof {
        assert(text::views(calls@) =~= calls_of(all.take(0)));
        assert(text::views(images@) =~= images_of(all.take(0)));
        assert(text::views(results@) =~= results_of(all.take(0)));
    }
    while i < m.content.len()
        invariant
            i <= m.content@.len(),
            all == text::views(m.content@),
            words@ == words_of(all.take(i as int)),
            reasoning@ == reasoning_of(all.take(i as int)),
            text::views(calls@) == calls_of(all.take(i as int)),
            text::views(images@) == images_of(all.take(i as int)),
            text::views(results@) == results_of(all.take(i as int)),
        decreases m.content@.len() - i,
    {
        broadcast use text::views_push;

        proof {
            let t = all.take(i + 1);
            assert(t.drop_last() == all.take(i as int));
            assert(t.last() == m.content@[i as int]@);
        }
        match &m.content[i] {
            ContentBlock::Text { text } => {
                words.append(text.as_str());
            },
            ContentBlock::Thinking { content, signature: _ } => {
                reasoning.append(content.as_str());
            },
            ContentBlock::Image { source } => {
                images.push(source.clone());
            },
            ContentBlock::ToolUse { id, name, input, thought_signature: _ } => {
                calls.push(tool_call_json(id.as_str(), name.as_str(), input));
            },
            ContentBlock::ToolResult { tool_use_id, content, is_error: _ } => {
                let part = ToolResultPart {
                    id: tool_use_id.clone(),
                    text: content.to_text(),
                    images: types::extract_images(content),
                };
                results.push(part);
            },
        }
        i = i + 1;
    }
    proof {
        assert(all.take(i as int) == all);
    }
    let ghost r = results_of(all);
    let ghost main = match main_message(m@) {
        Some(j) => seq![j],
        None => Seq::empty(),
    };
    if let Some(j) = main_json(
        m.role,
        words.as_str(),
        reasoning.as_str(),
        calls,
        &images,
        Ghost(m@),
    ) {
        out.push(j);
    }
    proof {
        assert(text::views(out@) =~= base + main);
    }
    let mut some: bool = false;
    let mut single: bool = false;
    let mut k: usize = 0;
    proof {
        assert(base + main + tool_messages(r.take(0)) =~= base + main);
    }
    while k < results.len()
        invariant
            k <= results@.len(),
            r == text::views(results@),
            some == (image_count(r.take(k as int)) > 0),
            single == (image_count(r.take(k as int)) == 1),
            text::views(out@) == base + main + tool_messages(r.take(k as int)),
        decreases results@.len() - k,
    {
        broadcast use text::views_push;

        let mut j = Json::object();
        j.put("role", Json::text("tool"));
        j.put("tool_call_id", Json::text(results[k].id.as_str()));
        j.put("content", Json::text(results[k].text.as_str()));
        out.push(j);
        proof {
            let t = r.take(k + 1);
            assert(t.drop_last() == r.take(k as int));
            assert(t.last() == results@[k as int]@);
            assert(text::views(out@) =~= base + main + tool_messages(t));
        }
        let n = results[k].images.len();
        single = (single && n == 0) || (!some && n == 1);
        some = some || n > 0;
        k = k + 1;
    }
    proof {
        assert(r.take(k as int) == r);
    }
    let ghost before = text::views(out@);
    let ghost tail = if image_count(r) > 0 {
        seq![images_message(r)]
    } else {
        Seq::empty()
    };
    if some {
        out.push(images_json(&results, single));
    }
    proof {
        assert(text::views(out@) =~= before + tail);
        assert(openai_message(m@) == main + tool_messages(r) + tail);
        assert(text::views(out@) =~= base + openai_message(m@));
    }
}

// ---------------------------------------------------------------------------
// Bodies
// ---------------------------------------------------------------------------

/// The part of a body that names a tool, in the OpenAI format.
pub open spec fn function_json(t: ToolDef) -> JsonView {
    JsonView::obj().with("type"@, JsonView::text("function"@)).with(
        "function"@,
        JsonView::obj().with("name"@, JsonView::text(t.name@)).with(
            "description"@,
            JsonView::text(t.description@),
        ).with("parameters"@, t.input_schema@),
    )
}

pub open spec fn function_list(t: Seq<ToolDef>) -> Seq<JsonView> {
    t.map_values(|x: ToolDef| function_json(x))
}

/// A body in the OpenAI format, with the output cap under `cap_key`.
pub open spec fn chat_body(
    model: Seq<char>,
    cap_key: Seq<char>,
    max_tokens: u32,
    messages: Seq<JsonView>,
    tools: Seq<ToolDef>,
) -> JsonView {
    let body = JsonView::obj().with("model"@, JsonView::text(model)).with(
        cap_key,
        JsonView::num(max_tokens as u64),
    ).with("messages"@, JsonView::Arr(messages)).with("stream"@, JsonView::Bool(true)).with(
        "stream_options"@,
        JsonView::obj().with("include_usage"@, JsonView::Bool(true)),
    );
    if tools.len() > 0 {
        body.with("tools"@, JsonView::Arr(function_list(tools)))
    } else {
        body
    }
}

/// The marker that asks for a prompt prefix to be cached.
pub open spec fn ephemeral() -> JsonView {
    JsonView::obj().with("type"@, JsonView::text("ephemeral"@))
}

/// A text as the only block of a content list, marked for caching.
pub open spec fn cached_text(t: Seq<char>) -> JsonView {
    JsonView::Arr(seq![text_part(t).with("cache_control"@, ephemeral())])
}

pub open spec fn has_role(m: JsonView, role: Seq<char>) -> bool {
    m.get("role"@) == Some(JsonView::Str(role))
}

/// A system message with its text marked.
pub open spec fn mark_system(m: JsonView) -> JsonView {
    match m.text_at("content"@) {
        Some(t) => if t.len() > 0 {
            m.with("content"@, cached_text(t))
        } else {
            m
        },
        None => m,
    }
}

/// The messages with the first system message marked.
pub open spec fn mark_first_system(m: Seq<JsonView>) -> Seq<JsonView>
    decreases m.len(),
{
    if m.len() == 0 {
        m
    } else if has_role(m[0], "system"@) {
        seq![mark_system(m[0])] + m.skip(1)
    } else {
        seq![m[0]] + mark_first_system(m.skip(1))
    }
}

/// A block that is a text with words in it.
pub open spec fn is_text_block(b: JsonView) -> bool {
    &&& b.get("type"@) == Some(JsonView::Str("text"@))
    &&& match b.text_at("text"@) {
        Some(t) => t.len() > 0,
        None => false,
    }
}

/// The blocks with the first text block marked, where there is one.
pub open spec fn mark_first_text(b: Seq<JsonView>) -> Option<Seq<JsonView>>
    decreases b.len(),
{
    if b.len() == 0 {
        None
    } else if is_text_block(b[0]) {
        Some(seq![b[0].with("cache_control"@, ephemeral())] + b.skip(1))
    } else {
        match mark_first_text(b.skip(1)) {
            Some(rest) => Some(seq![b[0]] + rest),
            None => None,
        }
    }
}

/// A message of the user with its text marked, where it has a text.
pub open spec fn mark_user(m: JsonView) -> Option<JsonView> {
    if !has_role(m, "user"@) || m.get("tool_call_id"@) is Some {
        None
    } else {
        match m.get("content"@) {
            Some(JsonView::Str(t)) => if t.len() > 0 {
                Some(m.with("content"@, cached_text(t)))
            } else {
                None
            },
            Some(JsonView::Arr(b)) => match mark_first_text(b) {
                Some(marked) => Some(m.with("content"@, JsonView::Arr(marked))),
                None => None,
            },
            _ => None,
        }
    }
}

/// The messages with the last message of the user that has a text marked.
pub open spec fn mark_last_user(m: Seq<JsonView>) -> Seq<JsonView>
    decreases m.len(),
{
    if m.len() == 0 {
        m
    } else {
        match mark_user(m.last()) {
            Some(marked) => m.drop_last().push(marked),
            None => mark_last_user(m.drop_last()).push(m.last()),
        }
    }
}

pub open spec fn alibaba_messages(
    system: Option<Seq<char>>,
    m: Seq<MessageView>,
    with_cache: bool,
) -> Seq<JsonView> {
    let plain = openai_messages(system, m);
    if with_cache {
        mark_last_user(mark_first_system(plain))
    } else {
        plain
    }
}

fn cached_text_json(t: &str) -> (r: Json)
    ensures
        r@ == cached_text(t@),
{
    let mut block = text_json(t);
    block.put("cache_control", ephemeral_json());
    let ghost b = block@;
    let mut arr: Vec<Json> = Vec::new();
    arr.push(block);
    proof {
        assert(text::views(arr@) =~= seq![b]);
    }
    json_array(arr)
}

fn ephemeral_json() -> (r: Json)
    ensures
        r@ == ephemeral(),
{
    let mut j = Json::object();
    j.put("type", Json::text("ephemeral"));
    j
}

fn is_role(m: &Json, role: &str) -> (r: bool)
    ensures
        r == has_role(m@, role@),
{
    match m.str_at("role") {
        Some(s) => text::same(s, role),
        None => false,
    }
}

proof fn lemma_mark_first_system(m: Seq<JsonView>, i: int)
    requires
        0 <= i <= m.len(),
        forall|k: int| 0 <= k < i ==> !has_role(#[trigger] m[k], "system"@),
        i < m.len() ==> has_role(m[i], "system"@),
    ensures
        mark_first_system(m) == if i < m.len() {
            m.update(i, mark_system(m[i]))
        } else {
            m
        },
    decreases i,
{
    if m.len() > 0 {
        if i == 0 {
            assert(mark_first_system(m) =~= m.update(0, mark_system(m[0])));
        } else {
            lemma_mark_first_system(m.skip(1), i - 1);
            if i < m.len() {
                assert(mark_first_system(m) =~= m.update(i, mark_system(m[i])));
            } else {
                assert(mark_first_system(m) =~= m);
            }
        }
    }
}

fn mark_first_system_json(msgs: &mut Vec<Json>)
    ensures
        text::views(final(msgs)@) == mark_first_system(text::views(old(msgs)@)),
{
    let ghost all = text::views(msgs@);
    let n = msgs.len();
    let mut i: usize = 0;
    while i < n
        invariant
            i <= n == msgs@.len(),
            all == text::views(msgs@),
            *msgs == *old(msgs),
            forall|k: int| 0 <= k < i ==> !has_role(#[trigger] all[k], "system"@),
        decreases n - i,
    {
        if is_role(&msgs[i], "system") {
            let marked = match msgs[i].str_at("content") {
                Some(t) => if t.is_empty() {
                    None
                } else {
                    Some(cached_text_json(t))
                },
                None => None,
            };
            let ghost m = msgs@[i as int]@;
            if let Some(content) = marked {
                let mut msg = Json::Null;
                std::mem::swap(&mut msg, &mut msgs[i]);
                msg.put("content", content);
                msgs[i] = msg;
            }
            proof {
                lemma_mark_first_system(all, i as int);
                assert(text::views(msgs@) =~= all.update(i as int, mark_system(m)));
            }
            return;
        }
        i = i + 1;
    }
    proof {
        lemma_mark_first_system(all, i as int);
    }
}

proof fn lemma_mark_first_text(b: Seq<JsonView>, i: int)
    requires
        0 <= i <= b.len(),
        forall|k: int| 0 <= k < i ==> !is_text_block(#[trigger] b[k]),
        i < b.len() ==> is_text_block(b[i]),
    ensures
        mark_first_text(b) == if i < b.len() {
            Some(b.update(i, b[i].with("cache_control"@, ephemeral())))
        } else {
            None::<Seq<JsonView>>
        },
    decreases i,
{
    if b.len() > 0 {
        if i == 0 {
            assert(mark_first_text(b)->0 =~= b.update(
                0,
                b[0].with("cache_control"@, ephemeral()),
            ));
        } else {
            lemma_mark_first_text(b.skip(1), i - 1);
            if i < b.len() {
                assert(mark_first_text(b)->0 =~= b.update(
                    i,
                    b[i].with("cache_control"@, ephemeral()),
                ));
            }
        }
    }
}

fn is_text_json(b: &Json) -> (r: bool)
    ensures
        r == is_text_block(b@),
{
    let kind = match b.str_at("type") {
        Some(s) => text::same(s, "text"),
        None => false,
    };
    let words = match b.str_at("text") {
        Some(s) => !s.is_empty(),
        None => false,
    };
    kind && words
}

fn mark_first_text_json(content: &Json) -> (r: Option<Json>)
    ensures
        text::view_opt(r) == match content@ {
            JsonView::Arr(b) => match mark_first_text(b) {
                Some(marked) => Some(JsonView::Arr(marked)),
                None => None,
            },
            _ => None,
        },
{
    match content {
        Json::Arr(b) => {
            let ghost all = content@.items();
            let mut i: usize = 0;
            while i < b.len() && !is_text_json(&b[i])
                invariant
                    i <= b@.len() == all.len(),
                    all == content@.items(),
                    forall|k: int| 0 <= k < b@.len() ==> #[trigger] all[k] == b@[k]@,
                    forall|k: int| 0 <= k < i ==> !is_text_block(#[trigger] all[k]),
                decreases b@.len() - i,
            {
                i = i + 1;
            }
            proof {
                lemma_mark_first_text(all, i as int);
            }
            if i == b.len() {
                return None;
            }
            let mut arr: Vec<Json> = Vec::new();
            let mut k: usize = 0;
            while k < b.len()
                invariant
                    k <= b@.len(),
                    arr@.len() == k,
                    forall|j: int| 0 <= j < k ==> (#[trigger] arr@[j])@ == b@[j]@,
                decreases b@.len() - k,
            {
                arr.push(b[k].copy());
                k = k + 1;
            }
            let mut block = b[i].copy();
            block.put("cache_control", ephemeral_json());
            arr[i] = block;
            proof {
                assert(text::views(arr@) =~= mark_first_text(all)->0);
            }
            Some(json_array(arr))
        },
        _ => None,
    }
}

fn mark_user_json(m: &Json) -> (r: Option<Json>)
    ensures
        text::view_opt(r) == mark_user(m@),
{
    if !is_role(m, "user") || m.get("tool_call_id").is_some() {
        return None;
    }
    let content = match m.get("content") {
        Some(c) => c,
        None => {
            return None;
        },
    };
    let marked = match content {
        Json::Str(t) => if t.as_str().is_empty() {
            None
        } else {
            Some(cached_text_json(t.as_str()))
        },
        c => mark_first_text_json(c),
    };
    match marked {
        Some(c) => {
            let mut msg = m.copy();
            msg.put("content", c);
            Some(msg)
        },
        None => None,
    }
}

proof fn lemma_mark_last_user(m: Seq<JsonView>, i: int)
    requires
        0 <= i <= m.len(),
        forall|k: int| i <= k < m.len() ==> mark_user(#[trigger] m[k]) is None,
        i > 0 ==> mark_user(m[i - 1]) is Some,
    ensures
        mark_last_user(m) == if i > 0 {
            m.update(i - 1, mark_user(m[i - 1])->0)
        } else {
            m
        },
    decreases m.len(),
{
    if m.len() > 0 {
        if i == m.len() {
            assert(mark_last_user(m) =~= m.update(i - 1, mark_user(m[i - 1])->0));
        } else {
            assert(mark_user(m[m.len() - 1]) is None);
            lemma_mark_last_user(m.drop_last(), i);
            if i > 0 {
                assert(mark_last_user(m) =~= m.update(i - 1, mark_user(m[i - 1])->0));
            } else {
                assert(mark_last_user(m) =~= m);
            }
        }
    }
}

fn mark_last_user_json(msgs: &mut Vec<Json>)
    ensures
        text::views(final(msgs)@) == mark_last_user(text::views(old(msgs)@)),
{
    let ghost all = text::views(msgs@);
    let mut i = msgs.len();
    while i > 0
        invariant
            i <= msgs@.len(),
            all == text::views(msgs@),
            *msgs == *old(msgs),
            forall|k: int| i <= k < all.len() ==> mark_user(#[trigger] all[k]) is None,
        decreases i,
    {
        if let Some(marked) = mark_user_json(&msgs[i - 1]) {
            let ghost v = marked@;
            proof {
                lemma_mark_last_user(all, i as int);
            }
            msgs[i - 1] = marked;
            proof {
                assert(text::views(msgs@) =~= all.update(i - 1, v));
            }
            return;
        }
        i = i - 1;
    }
    proof {
        lemma_mark_last_user(all, 0);
    }
}

fn chat_body_json(
    model: &str,
    cap_key: &str,
    max_tokens: u32,
    messages: Vec<Json>,
    tools: &Vec<ToolDef>,
) -> (r: Json)
    ensures
        r@ == chat_body(model@, cap_key@, max_tokens, text::views(messages@), tools@),
{
    let mut options = Json::object();
    options.put("include_usage", Json::Bool(true));
    let mut body = Json::object();
    body.put("model", Json::text(model));
    body.put(cap_key, Json::num(max_tokens as u64));
    body.put("messages", json_array(messages));
    body.put("stream", Json::Bool(true));
    body.put("stream_options", options);
    if tools.len() > 0 {
        let mut list: Vec<Json> = Vec::new();
        let mut i: usize = 0;
        while i < tools.len()
            invariant
                i <= tools@.len(),
                list@.len() == i,
                forall|k: int| 0 <= k < i ==> (#[trigger] list@[k])@ == function_json(tools@[k]),
            decreases tools@.len() - i,
        {
            let t = &tools[i];
            let mut f = Json::object();
            f.put("name", Json::text(t.name.as_str()));
            f.put("description", Json::text(t.description.as_str()));
            f.put("parameters", t.input_schema.copy());
            let mut j = Json::object();
            j.put("type", Json::text("function"));
            j.put("function", f);
            list.push(j);
            i = i + 1;
        }
        proof {
            assert(text::views(list@) =~= function_list(tools@));
        }
        body.put("tools", json_array(list));
    }
    body
}

/// A message in the Anthropic format; `content` is the encoded content.
pub open spec fn anthropic_message(role: Role, content: JsonView) -> JsonView {
    JsonView::obj().with("role"@, JsonView::text(role_name(role))).with("content"@, content)
}

/// The conversation in the Anthropic format, which has no system messages.
pub open spec fn anthropic_messages(m: Seq<MessageView>, contents: Seq<JsonView>) -> Seq<JsonView>
    decreases m.len(),
{
    if m.len() == 0 || contents.len() == 0 {
        Seq::empty()
    } else {
        let before = anthropic_messages(m.drop_last(), contents.drop_last());
        if m.last().role == Role::System {
            before
        } else {
            before.push(anthropic_message(m.last().role, contents.last()))
        }
    }
}

/// A value marked for caching, where it is an object.
pub open spec fn mark_object(b: JsonView) -> JsonView {
    if b is Obj {
        b.with("cache_control"@, ephemeral())
    } else {
        b
    }
}

/// A message with the last block of its content list marked.
pub open spec fn mark_last_block(m: JsonView) -> JsonView {
    match m.get("content"@) {
        Some(JsonView::Arr(b)) => if b.len() > 0 {
            m.with("content"@, JsonView::Arr(b.update(b.len() - 1, mark_object(b.last()))))
        } else {
            m
        },
        _ => m,
    }
}

/// The messages with the one before the last marked, from three on.
pub open spec fn mark_rolling(m: Seq<JsonView>) -> Seq<JsonView> {
    if m.len() >= 3 {
        m.update(m.len() - 2, mark_last_block(m[m.len() - 2]))
    } else {
        m
    }
}

/// A model's name without the prefix of another provider.
pub open spec fn backend_model(model: Seq<char>) -> Seq<char> {
    if text::has_prefix(model, "oa/"@) {
        model.skip("oa/"@.len() as int)
    } else if text::has_prefix(model, "azure/"@) {
        model.skip("azure/"@.len() as int)
    } else {
        model
    }
}

pub open spec fn tool_json(t: ToolDef) -> JsonView {
    JsonView::obj().with("name"@, JsonView::text(t.name@)).with(
        "description"@,
        JsonView::text(t.description@),
    ).with("input_schema"@, t.input_schema@)
}

/// The tools in the Anthropic format, the last one marked where caching is
/// wanted.
pub open spec fn anthropic_tools(t: Seq<ToolDef>, with_cache: bool) -> Seq<JsonView> {
    let list = t.map_values(|x: ToolDef| tool_json(x));
    if with_cache && list.len() > 0 {
        list.update(list.len() - 1, list.last().with("cache_control"@, ephemeral()))
    } else {
        list
    }
}

/// A body in the Anthropic format.
pub open spec fn anthropic_body(
    req: StreamRequest,
    contents: Seq<JsonView>,
    with_cache: bool,
) -> JsonView {
    let plain = anthropic_messages(text::views(req.messages@), contents);
    let messages = if with_cache {
        mark_rolling(plain)
    } else {
        plain
    };
    let a = JsonView::obj().with("model"@, JsonView::text(backend_model(req.model@))).with(
        "max_tokens"@,
        JsonView::num(req.max_tokens as u64),
    ).with("messages"@, JsonView::Arr(messages)).with("stream"@, JsonView::Bool(true));
    let b = match req.system {
        Some(s) => if s@.len() == 0 {
            a
        } else if with_cache {
            a.with("system"@, cached_text(s@))
        } else {
            a.with("system"@, JsonView::Arr(seq![text_part(s@)]))
        },
        None => a,
    };
    let c = match req.thinking_budget {
        Some(budget) => if budget > 0 {
            b.with(
                "thinking"@,
                JsonView::obj().with("type"@, JsonView::text("enabled"@)).with(
                    "budget_tokens"@,
                    JsonView::num(budget as u64),
                ),
            )
        } else {
            b
        },
        None => b,
    };
    if req.tools@.len() > 0 {
        c.with("tools"@, JsonView::Arr(anthropic_tools(req.tools@, with_cache)))
    } else {
        c
    }
}

fn anthropic_list(m: &Vec<Message>, contents: &Vec<Json>) -> (r: Vec<Json>)
    requires
        m@.len() == contents@.len(),
    ensures
        text::views(r@) == anthropic_messages(text::views(m@), text::views(contents@)),
{
    let ghost ms = text::views(m@);
    let ghost cs = text::views(contents@);
    let mut out: Vec<Json> = Vec::new();
    let mut i: usize = 0;
    proof {
        assert(text::views(out@) =~= anthropic_messages(ms.take(0), cs.take(0)));
    }
    while i < m.len()
        invariant
            i <= m@.len() == contents@.len(),
            ms == text::views(m@),
            cs == text::views(contents@),
            text::views(out@) == anthropic_messages(ms.take(i as int), cs.take(i as int)),
        decreases m@.len() - i,
    {
        broadcast use text::views_push;

        proof {
            assert(ms.take(i + 1).drop_last() == ms.take(i as int));
            assert(cs.take(i + 1).drop_last() == cs.take(i as int));
        }
        if m[i].role != Role::System {
            let mut j = Json::object();
            j.put("role", Json::text(role_text(m[i].role)));
            j.put("content", contents[i].copy());
            out.push(j);
        }
        i = i + 1;
    }
    proof {
        assert(ms.take(i as int) == ms);
        assert(cs.take(i as int) == cs);
    }
    out
}

fn mark_last_block_json(m: &mut Json)
    ensures
        final(m)@ == mark_last_block(old(m)@),
{
    let ghost before = m@;
    let marked = match m.get("content") {
        Some(Json::Arr(b)) => {
            let n = b.len();
            if n == 0 {
                None
            } else {
                let ghost items = before.get("content"@)->0.items();
                let mut arr: Vec<Json> = Vec::new();
                let mut k: usize = 0;
                while k < n - 1
                    invariant
                        k <= n - 1,
                        n == b@.len(),
                        arr@.len() == k,
                        forall|j: int| 0 <= j < k ==> (#[trigger] arr@[j])@ == b@[j]@,
                    decreases n - 1 - k,
                {
                    arr.push(b[k].copy());
                    k = k + 1;
                }
                let mut last = b[n - 1].copy();
                let is_object = match &last {
                    Json::Obj(_) => true,
                    _ => false,
                };
                if is_object {
                    last.put("cache_control", ephemeral_json());
                }
                arr.push(last);
                proof {
                    assert(text::views(arr@) =~= items.update(n - 1, mark_object(items.last())));
                }
                Some(json_array(arr))
            }
        },
        _ => None,
    };
    if let Some(c) = marked {
        m.put("content", c);
    }
}

impl OpencodeGoProvider {
    /// The messages of a request in the OpenAI format.
    pub fn messages_to_openai(req: &StreamRequest) -> (r: Vec<Json>)
        ensures
            text::views(r@) == openai_messages(
                text::view_opt(req.system),
                text::views(req.messages@),
            ),
    {
        let mut out: Vec<Json> = Vec::new();
        if let Some(sys) = &req.system {
            if !sys.as_str().is_empty() {
                let mut j = Json::object();
                j.put("role", Json::text("system"));
                j.put("content", Json::text(sys.as_str()));
                out.push(j);
            }
        }
        let ghost head = text::views(out@);
        let ghost all = text::views(req.messages@);
        let mut i: usize = 0;
        proof {
            assert(head =~= openai_messages(text::view_opt(req.system), Seq::empty()));
            assert(head + openai_conversation(all.take(0)) =~= head);
        }
        while i < req.messages.len()
            invariant
                i <= req.messages@.len(),
                all == text::views(req.messages@),
                text::views(out@) == head + openai_conversation(all.take(i as int)),
            decreases req.messages@.len() - i,
        {
            push_message(&mut out, &req.messages[i]);
            proof {
                let t = all.take(i + 1);
                assert(t.drop_last() == all.take(i as int));
                assert(t.last() == req.messages@[i as int]@);
                assert(text::views(out@) =~= head + openai_conversation(t));
            }
            i = i + 1;
        }
        proof {
            assert(all.take(i as int) == all);
            assert(openai_messages(text::view_opt(req.system), Seq::empty()) =~= head);
            assert(text::views(out@) =~= openai_messages(text::view_opt(req.system), all));
        }
        out
    }

    /// The body of a request in the OpenAI format.
    pub fn build_openai_body(req: &StreamRequest) -> (r: Json)
        ensures
            r@ == chat_body(
                req.model@,
                "max_completion_tokens"@,
                req.max_tokens,
                openai_messages(text::view_opt(req.system), text::views(req.messages@)),
                req.tools@,
            ),
    {
        let messages = Self::messages_to_openai(req);
        chat_body_json(
            req.model.as_str(),
            "max_completion_tokens",
            req.max_tokens,
            messages,
            &req.tools,
        )
    }

    /// The messages of a request in the Alibaba format: as in the OpenAI
    /// format, and where caching is wanted with the first system message and
    /// the last message of the user marked.
    pub fn messages_to_alibaba(req: &StreamRequest, with_cache: bool) -> (r: Vec<Json>)
        ensures
            text::views(r@) == alibaba_messages(
                text::view_opt(req.system),
                text::views(req.messages@),
                with_cache,
            ),
    {
        let mut msgs = Self::messages_to_openai(req);
        if with_cache {
            mark_first_system_json(&mut msgs);
            mark_last_user_json(&mut msgs);
        }
        msgs
    }

    /// The body of a request in the Alibaba format.
    pub fn build_alibaba_body_inner(req: &StreamRequest, with_cache: bool) -> (r: Json)
        ensures
            r@ == chat_body(
                req.model@,
                "max_tokens"@,
                req.max_tokens,
                alibaba_messages(
                    text::view_opt(req.system),
                    text::views(req.messages@),
                    with_cache,
                ),
                req.tools@,
            ),
    {
        let messages = Self::messages_to_alibaba(req, with_cache);
        chat_body_json(req.model.as_str(), "max_tokens", req.max_tokens, messages, &req.tools)
    }

    /// The body of a request in the Anthropic format. Where caching is wanted,
    /// the system prompt, the last tool and the last block of the message
    /// before the newest are marked.
    pub fn build_anthropic_body_inner(req: &StreamRequest, with_cache: bool) -> (r: Json)
        ensures
            r@ == anthropic_body(
                *req,
                content::contents_of(text::views(req.messages@)),
                with_cache,
            ),
    {
        let contents = content::contents_json(&req.messages);
        proof {
            assert(text::views(contents@).len() == contents@.len());
            assert(text::views(req.messages@).len() == req.messages@.len());
        }
        let mut msgs = anthropic_list(&req.messages, &contents);
        let ghost plain = text::views(msgs@);
        let n = msgs.len();
        if with_cache && n >= 3 {
            let mut m = Json::Null;
            std::mem::swap(&mut m, &mut msgs[n - 2]);
            mark_last_block_json(&mut m);
            msgs[n - 2] = m;
            proof {
                assert(text::views(msgs@) =~= mark_rolling(plain));
            }
        }
        let model = match text::strip_prefix(req.model.as_str(), "oa/") {
            Some(rest) => rest,
            None => match text::strip_prefix(req.model.as_str(), "azure/") {
                Some(rest) => rest,
                None => req.model.as_str(),
            },
        };
        let mut body = Json::object();
        body.put("model", Json::text(model));
        body.put("max_tokens", Json::num(req.max_tokens as u64));
        body.put("messages", json_array(msgs));
        body.put("stream", Json::Bool(true));
        if let Some(sys) = &req.system {
            if !sys.as_str().is_empty() {
                if with_cache {
                    body.put("system", cached_text_json(sys.as_str()));
                } else {
                    let part = text_json(sys.as_str());
                    let ghost p = part@;
                    let mut arr: Vec<Json> = Vec::new();
                    arr.push(part);
                    proof {
                        assert(text::views(arr@) =~= seq![p]);
                    }
                    body.put("system", json_array(arr));
                }
            }
        }
        if let Some(budget) = req.thinking_budget {
            if budget > 0 {
                let mut t = Json::object();
                t.put("type", Json::text("enabled"));
                t.put("budget_tokens", Json::num(budget as u64));
                body.put("thinking", t);
            }
        }
        if req.tools.len() > 0 {
            let mut list: Vec<Json> = Vec::new();
            let mut i: usize = 0;
            while i < req.tools.len()
                invariant
                    i <= req.tools@.len(),
                    list@.len() == i,
                    forall|k: int|
                        0 <= k < i ==> (#[trigger] list@[k])@ == if with_cache && k
                            == req.tools@.len() - 1 {
                            tool_json(req.tools@[k]).with("cache_control"@, ephemeral())
                        } else {
                            tool_json(req.tools@[k])
                        },
                decreases req.tools@.len() - i,
            {
                let t = &req.tools[i];
                let mut j = Json::object();
                j.put("name", Json::text(t.name.as_str()));
                j.put("description", Json::text(t.description.as_str()));
                j.put("input_schema", t.input_schema.copy());
                if with_cache && i == req.tools.len() - 1 {
                    j.put("cache_control", ephemeral_json());
                }
                list.push(j);
                i = i + 1;
            }
            proof {
                assert(text::views(list@) =~= anthropic_tools(req.tools@, with_cache));
            }
            body.put("tools", json_array(list));
        }
        body
    }

    /// The body of a request in a format.
    pub fn build_body(req: &StreamRequest, format: WireFormat, with_cache: bool) -> (r: Json)
        ensures
            r@ == request_body(
                *req,
                content::contents_of(text::views(req.messages@)),
                format,
                with_cache,
            ),
    {
        match format {
            WireFormat::OpenAI => Self::build_openai_body(req),
            WireFormat::Alibaba => Self::build_alibaba_body_inner(req, with_cache),
            WireFormat::Anthropic => Self::build_anthropic_body_inner(req, with_cache),
        }
    }
}

/// The body of a request in a format, given the contents of its messages as a
/// request has them; only the Anthropic format takes them over.
pub open spec fn request_body(
    req: StreamRequest,
    contents: Seq<JsonView>,
    format: WireFormat,
    with_cache: bool,
) -> JsonView {
    let system = text::view_opt(req.system);
    let messages = text::views(req.messages@);
    match format {
        WireFormat::OpenAI => chat_body(
            req.model@,
            "max_completion_tokens"@,
            req.max_tokens,
            openai_messages(system, messages),
            req.tools@,
        ),
        WireFormat::Alibaba => chat_body(
            req.model@,
            "max_tokens"@,
            req.max_tokens,
            alibaba_messages(system, messages, with_cache),
            req.tools@,
        ),
        WireFormat::Anthropic => anthropic_body(req, contents, with_cache),
    }
}

// ---------------------------------------------------------------------------
// What the cache markers change
// ---------------------------------------------------------------------------

/// The lists agree everywhere but at two positions.
pub open spec fn same_but_for(a: Seq<JsonView>, b: Seq<JsonView>, i: int, j: int) -> bool {
    forall|k: int| 0 <= k < a.len() && k != i && k != j ==> #[trigger] b[k] == a[k]
}

/// Marking for the cache neither adds nor drops a message, and touches at most
/// two: one system message and one message of the user.
pub proof fn caching_touches_two_messages(system: Option<Seq<char>>, m: Seq<MessageView>)
    ensures
        ({
            let plain = alibaba_messages(system, m, false);
            let marked = alibaba_messages(system, m, true);
            &&& marked.len() == plain.len()
            &&& exists|i: int, j: int| same_but_for(plain, marked, i, j)
        }),
{
    let plain = openai_messages(system, m);
    let a = mark_first_system(plain);
    let i = lemma_one_system_marked(plain);
    let j = lemma_one_user_marked(a);
    assert forall|k: int| 0 <= k < plain.len() && k != i && k != j implies #[trigger] mark_last_user(
        a,
    )[k] == plain[k] by {
        assert(a[k] == plain[k]);
    }
    assert(same_but_for(plain, mark_last_user(a), i, j));
}

proof fn lemma_one_system_marked(m: Seq<JsonView>) -> (i: int)
    ensures
        mark_first_system(m).len() == m.len(),
        forall|k: int| 0 <= k < m.len() && k != i ==> #[trigger] mark_first_system(m)[k] == m[k],
    decreases m.len(),
{
    if m.len() == 0 {
        0
    } else if has_role(m[0], "system"@) {
        0
    } else {
        let j = lemma_one_system_marked(m.skip(1));
        assert forall|k: int| 0 <= k < m.len() && k != j + 1 implies #[trigger] mark_first_system(
            m,
        )[k] == m[k] by {
            if k > 0 {
                assert(mark_first_system(m)[k] == mark_first_system(m.skip(1))[k - 1]);
            }
        }
        j + 1
    }
}

proof fn lemma_one_user_marked(m: Seq<JsonView>) -> (i: int)
    ensures
        mark_last_user(m).len() == m.len(),
        forall|k: int| 0 <= k < m.len() && k != i ==> #[trigger] mark_last_user(m)[k] == m[k],
    decreases m.len(),
{
    if m.len() == 0 {
        0
    } else if mark_user(m.last()) is Some {
        m.len() - 1
    } else {
        let j = lemma_one_user_marked(m.drop_last());
        assert forall|k: int| 0 <= k < m.len() && k != j implies #[trigger] mark_last_user(m)[k]
            == m[k] by {
            if k < m.len() - 1 {
                assert(mark_last_user(m)[k] == mark_last_user(m.drop_last())[k]);
            }
        }
        j
    }
}

/// A request in the OpenAI format is the same with and without caching.
pub proof fn openai_is_never_marked(req: StreamRequest, contents: Seq<JsonView>)
    ensures
        request_body(req, contents, WireFormat::OpenAI, true) == request_body(
            req,
            contents,
            WireFormat::OpenAI,
            false,
        ),
{
}

} // verus!
