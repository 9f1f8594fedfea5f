//! What happens in a session, as the two surfaces show it: JSON envelopes for
//! the chat, and terminal bytes.

use vstd::prelude::*;

use base64::Engine;

use crate::ansi;
use crate::json::{self, Json, JsonNumber, JsonView};
use crate::plan::PermissionMode;
use crate::text;
use crate::types::{UiResource, UiView};

verus! {

/// One line of a restored conversation.
#[derive(Debug, PartialEq, Eq)]
pub struct DisplayMessage {
    pub role: String,
    pub content: String,
}

/// What happens in a session.
#[allow(inconsistent_fields)]
#[derive(Debug, PartialEq)]
pub enum ViewEvent {
    UserPrompt(String),
    AssistantTextDelta(String),
    AssistantThinkingDelta(String),
    ToolCallStart { name: String, label: String, input: Json },
    /// A tool call is over; `source` is where its result comes from, where
    /// the tool says so.
    ToolCallResult {
        name: String,
        output: String,
        ui_resource: Option<UiResource>,
        source: Option<String>,
    },
    SlashOutput(String),
    TurnDone,
    HistoryReplaced(Vec<DisplayMessage>),
    /// The next eight carry a finished envelope.
    SessionListRefresh(String),
    ProviderUpdate(String),
    KmsUpdate(String),
    McpUpdate(String),
    LineStatus(String),
    ResearchUpdate(String),
    ModelPickerOpen(String),
    ScheduleAddOpen(String),
    /// The session file is large: its size in megabytes as a number, and with
    /// one decimal as a text.
    ContextWarning { file_size_mb: JsonNumber, label: String },
    ErrorText(String),
    McpAppCallToolResult { request_id: String, content: String, is_error: bool },
    QuitRequested,
    /// The next three carry the encoded state.
    PlanUpdate(Json),
    TodoUpdate(Json),
    GoalUpdate(Json),
    SkillModelNote(String),
    PermissionModeChanged(PermissionMode),
    PlanStalled { step_id: String, step_title: String, turns: u64 },
    SideChannelStart { id: String, agent_name: String },
    SideChannelTextDelta { id: String, text: String },
    SideChannelToolCall { id: String, tool_name: String, label: String },
    /// A background agent is done; `secs` is its duration in seconds with two
    /// decimals.
    SideChannelDone {
        id: String,
        agent_name: String,
        duration_ms: u64,
        secs: String,
        result_text: String,
    },
    SideChannelError { id: String, error: String },
}

// ---------------------------------------------------------------------------
// Errors of a provider
// ---------------------------------------------------------------------------

/// The member `key` of an optional value.
pub open spec fn member(v: Option<JsonView>, key: Seq<char>) -> Option<JsonView> {
    match v {
        Some(j) => j.get(key),
        None => None,
    }
}

/// The text that an optional value is.
pub open spec fn member_text(v: Option<JsonView>) -> Option<Seq<char>> {
    match v {
        Some(j) => j.as_text(),
        None => None,
    }
}

/// What a provider says in an error document: what its upstream said, or its
/// own message.
pub open spec fn provider_message(doc: JsonView) -> Option<Seq<char>> {
    let error = doc.get("error"@);
    match member_text(member(member(error, "metadata"@), "raw"@)) {
        Some(m) => Some(m),
        None => member_text(member(error, "message"@)),
    }
}

/// An error document in words.
pub open spec fn humanized_document(raw: Seq<char>, doc: JsonView) -> Seq<char> {
    match provider_message(doc) {
        Some(m) => if member(doc.get("error"@), "code"@) == Some(JsonView::num(429)) {
            "Rate limited: "@ + m
        } else {
            m
        },
        None => raw,
    }
}

/// The first brace of a text, from which on an error document may stand.
pub open spec fn document_start(raw: Seq<char>) -> Option<nat>
    decreases raw.len(),
{
    if raw.len() == 0 {
        None
    } else if raw[0] == '{' {
        Some(0)
    } else {
        match document_start(raw.skip(1)) {
            Some(i) => Some(i + 1),
            None => None,
        }
    }
}

/// An error text in words: what the provider says in the document that ends
/// the text. A text without such a document stays as it is.
pub open spec fn humanized(raw: Seq<char>) -> Seq<char> {
    match document_start(raw) {
        Some(i) => match json::json_parse(raw.skip(i as int)) {
            Ok(doc) => humanized_document(raw, doc),
            Err(_) => raw,
        },
        None => raw,
    }
}

/// An error document in words.
pub fn humanize_document(raw: &str, doc: &Json) -> (r: String)
    ensures
        r@ == humanized_document(raw@, doc@),
{
    let error = match doc.get("error") {
        Some(e) => e,
        None => {
            return raw.to_string();
        },
    };
    let upstream = match error.get("metadata") {
        Some(m) => m.str_at("raw"),
        None => None,
    };
    let message = match upstream {
        Some(m) => m,
        None => match error.str_at("message") {
            Some(m) => m,
            None => {
                return raw.to_string();
            },
        },
    };
    let limited = match error.get("code") {
        Some(Json::Num(JsonNumber::Pos(n))) => *n == 429,
        _ => false,
    };
    if limited {
        let mut r = "Rate limited: ".to_string();
        r.append(message);
        r
    } else {
        message.to_string()
    }
}

proof fn lemma_document_start(s: Seq<char>, i: int)
    requires
        0 <= i <= s.len(),
        forall|k: int| 0 <= k < i ==> #[trigger] s[k] != '{',
        i < s.len() ==> s[i] == '{',
    ensures
        document_start(s) == if i < s.len() {
            Some(i as nat)
        } else {
            None::<nat>
        },
    decreases i,
{
    if i > 0 {
        assert forall|k: int| 0 <= k < i - 1 implies #[trigger] s.skip(1)[k] != '{' by {
            assert(s.skip(1)[k] == s[k + 1]);
        }
        lemma_document_start(s.skip(1), i - 1);
    }
}

/// An error text in words.
pub fn humanize_provider_error(raw: &str) -> (r: String)
    ensures
        r@ == humanized(raw@),
{
    let v = text::chars_of(raw);
    let mut i: usize = 0;
    while i < v.len() && v[i] != '{'
        invariant
            i <= v@.len(),
            forall|k: int| 0 <= k < i ==> #[trigger] v@[k] != '{',
        decreases v@.len() - i,
    {
        i = i + 1;
    }
    proof {
        lemma_document_start(raw@, i as int);
        assert(raw@.skip(i as int) == raw@.subrange(i as int, raw@.len() as int));
    }
    if i == v.len() {
        return raw.to_string();
    }
    match json::parse_json(raw.substring_char(i, v.len())) {
        Ok(doc) => humanize_document(raw, &doc),
        Err(_) => raw.to_string(),
    }
}

// ---------------------------------------------------------------------------
// The chat
// ---------------------------------------------------------------------------

/// An envelope of a kind.
pub open spec fn envelope_of(kind: Seq<char>) -> JsonView {
    JsonView::obj().with("type"@, JsonView::text(kind))
}

pub open spec fn mode_name(mode: PermissionMode) -> Seq<char> {
    match mode {
        PermissionMode::Auto => "auto"@,
        PermissionMode::Ask => "ask"@,
        PermissionMode::Plan => "plan"@,
        PermissionMode::LineGated => "linegated"@,
    }
}

pub open spec fn history_items(m: Seq<DisplayMessage>) -> Seq<JsonView>
    decreases m.len(),
{
    if m.len() == 0 {
        Seq::empty()
    } else {
        history_items(m.drop_last()).push(
            JsonView::obj().with("role"@, JsonView::text(m.last().role@)).with(
                "content"@,
                JsonView::text(ansi::stripped_text(m.last().content@)),
            ),
        )
    }
}

pub open spec fn ui_member(ui: UiView) -> JsonView {
    JsonView::obj().with("uri"@, JsonView::text(ui.uri)).with("html"@, JsonView::text(ui.html)).with(
        "mime"@,
        JsonView::opt_text(ui.mime),
    )
}

/// The envelope that the chat gets for an event, where it gets one that is
/// made here.
pub open spec fn chat_envelope(ev: ViewEvent) -> Option<JsonView> {
    match ev {
        ViewEvent::UserPrompt(t) => Some(
            envelope_of("chat_user_message"@).with(
                "text"@,
                JsonView::text(ansi::stripped_text(t@)),
            ),
        ),
        ViewEvent::AssistantTextDelta(t) => Some(
            envelope_of("chat_text_delta"@).with("text"@, JsonView::text(ansi::stripped_text(t@))),
        ),
        ViewEvent::AssistantThinkingDelta(t) => Some(
            envelope_of("chat_thinking_delta"@).with(
                "text"@,
                JsonView::text(ansi::stripped_text(t@)),
            ),
        ),
        ViewEvent::ToolCallStart { name, label, input } => Some(
            envelope_of("chat_tool_call"@).with(
                "name"@,
                JsonView::text(ansi::stripped_text(label@)),
            ).with("tool_name"@, JsonView::text(name@)).with("input"@, input@),
        ),
        ViewEvent::ToolCallResult { name, output, ui_resource, source: _ } => {
            let e = envelope_of("chat_tool_result"@).with("name"@, JsonView::text(name@)).with(
                "output"@,
                JsonView::text(ansi::stripped_text(output@)),
            );
            Some(
                match ui_resource {
                    Some(ui) => e.with("ui_resource"@, ui_member(ui@)),
                    None => e,
                },
            )
        },
        ViewEvent::SlashOutput(t) => Some(
            envelope_of("chat_slash_output"@).with(
                "text"@,
                JsonView::text(ansi::stripped_text(t@)),
            ),
        ),
        ViewEvent::TurnDone => Some(envelope_of("chat_done"@)),
        ViewEvent::HistoryReplaced(m) => Some(
            envelope_of("chat_history_replaced"@).with(
                "messages"@,
                JsonView::Arr(history_items(m@)),
            ),
        ),
        ViewEvent::ContextWarning { file_size_mb, label: _ } => Some(
            envelope_of("chat_context_warning"@).with("file_size_mb"@, JsonView::Num(file_size_mb)),
        ),
        ViewEvent::ErrorText(t) => Some(
            envelope_of("chat_error"@).with(
                "text"@,
                JsonView::text(humanized(ansi::stripped_text(t@))),
            ),
        ),
        ViewEvent::McpAppCallToolResult { request_id, content, is_error } => Some(
            envelope_of("mcp_call_tool_result"@).with(
                "requestId"@,
                JsonView::text(request_id@),
            ).with("content"@, JsonView::text(content@)).with("isError"@, JsonView::Bool(is_error)),
        ),
        ViewEvent::PlanUpdate(plan) => Some(
            envelope_of("chat_plan_update"@).with("plan"@, plan@),
        ),
        ViewEvent::TodoUpdate(todos) => Some(
            envelope_of("chat_todo_update"@).with("todos"@, todos@),
        ),
        ViewEvent::GoalUpdate(goal) => Some(
            envelope_of("chat_goal_update"@).with("goal"@, goal@),
        ),
        ViewEvent::SkillModelNote(t) => Some(
            envelope_of("chat_skill_model_note"@).with(
                "text"@,
                JsonView::text(ansi::stripped_text(t@)),
            ),
        ),
        ViewEvent::PermissionModeChanged(mode) => Some(
            envelope_of("chat_permission_mode"@).with("mode"@, JsonView::text(mode_name(mode))),
        ),
        ViewEvent::PlanStalled { step_id, step_title, turns } => Some(
            envelope_of("chat_plan_stalled"@).with("step_id"@, JsonView::text(step_id@)).with(
                "step_title"@,
                JsonView::text(ansi::stripped_text(step_title@)),
            ).with("turns"@, JsonView::num(turns)),
        ),
        ViewEvent::SideChannelStart { id, agent_name } => Some(
            envelope_of("chat_side_channel_start"@).with("id"@, JsonView::text(id@)).with(
                "agent_name"@,
                JsonView::text(agent_name@),
            ),
        ),
        ViewEvent::SideChannelTextDelta { id, text } => Some(
            envelope_of("chat_side_channel_text_delta"@).with("id"@, JsonView::text(id@)).with(
                "text"@,
                JsonView::text(ansi::stripped_text(text@)),
            ),
        ),
        ViewEvent::SideChannelToolCall { id, tool_name, label } => Some(
            envelope_of("chat_side_channel_tool_call"@).with("id"@, JsonView::text(id@)).with(
                "tool_name"@,
                JsonView::text(tool_name@),
            ).with("label"@, JsonView::text(ansi::stripped_text(label@))),
        ),
        ViewEvent::SideChannelDone { id, agent_name, duration_ms, secs: _, result_text } => Some(
            envelope_of("chat_side_channel_done"@).with("id"@, JsonView::text(id@)).with(
                "agent_name"@,
                JsonView::text(agent_name@),
            ).with("duration_ms"@, JsonView::num(duration_ms)).with(
                "result_text"@,
                JsonView::text(ansi::stripped_text(result_text@)),
            ),
        ),
        ViewEvent::SideChannelError { id, error } => Some(
            envelope_of("chat_side_channel_error"@).with("id"@, JsonView::text(id@)).with(
                "error"@,
                JsonView::text(ansi::stripped_text(error@)),
            ),
        ),
        _ => None,
    }
}

/// The finished envelope that an event carries.
pub open spec fn ready_envelope(ev: ViewEvent) -> Option<Seq<char>> {
    match ev {
        ViewEvent::SessionListRefresh(j) => Some(j@),
        ViewEvent::ProviderUpdate(j) => Some(j@),
        ViewEvent::KmsUpdate(j) => Some(j@),
        ViewEvent::McpUpdate(j) => Some(j@),
        ViewEvent::LineStatus(j) => Some(j@),
        ViewEvent::ResearchUpdate(j) => Some(j@),
        ViewEvent::ModelPickerOpen(j) => Some(j@),
        ViewEvent::ScheduleAddOpen(j) => Some(j@),
        _ => None,
    }
}

/// What the chat gets for an event: one envelope, or nothing where the
/// session is about to quit.
pub open spec fn chat_dispatches(ev: ViewEvent) -> Seq<Seq<char>> {
    match chat_envelope(ev) {
        Some(e) => seq![json::json_text(e)],
        None => match ready_envelope(ev) {
            Some(t) => seq![t],
            None => Seq::empty(),
        },
    }
}

fn envelope(kind: &str) -> (r: Json)
    ensures
        r@ == envelope_of(kind@),
{
    let mut e = Json::object();
    e.put("type", Json::text(kind));
    e
}

fn text_envelope(kind: &str, key: &str, value: &str) -> (r: Json)
    ensures
        r@ == envelope_of(kind@).with(key@, JsonView::text(value@)),
{
    let mut e = envelope(kind);
    e.put(key, Json::text(value));
    e
}

fn mode_text(mode: PermissionMode) -> (r: &'static str)
    ensures
        r@ == mode_name(mode),
{
    match mode {
        PermissionMode::Auto => "auto",
        PermissionMode::Ask => "ask",
        PermissionMode::Plan => "plan",
        PermissionMode::LineGated => "linegated",
    }
}

fn history_array(m: &Vec<DisplayMessage>) -> (r: Json)
    ensures
        r@ == JsonView::Arr(history_items(m@)),
{
    let mut arr = Json::array();
    let mut i: usize = 0;
    while i < m.len()
        invariant
            i <= m@.len(),
            arr@ == JsonView::Arr(history_items(m@.take(i as int))),
        decreases m@.len() - i,
    {
        let mut item = Json::object();
        item.put("role", Json::text(m[i].role.as_str()));
        item.put("content", Json::Str(ansi::strip_ansi(m[i].content.as_str())));
        arr.append(item);
        proof {
            assert(m@.take(i + 1).drop_last() == m@.take(i as int));
        }
        i = i + 1;
    }
    proof {
        assert(m@.take(i as int) == m@);
    }
    arr
}

fn ui_json(ui: &UiResource) -> (r: Json)
    ensures
        r@ == ui_member(ui@),
{
    let mut u = Json::object();
    u.put("uri", Json::text(ui.uri.as_str()));
    u.put("html", Json::text(ui.html.as_str()));
    u.put("mime", Json::opt_text(&ui.mime));
    u
}

fn chat_json(ev: &ViewEvent) -> (r: Option<Json>)
    ensures
        text::view_opt(r) == chat_envelope(*ev),
{
    let e = match ev {
        ViewEvent::UserPrompt(t) => text_envelope(
            "chat_user_message",
            "text",
            ansi::strip_ansi(t.as_str()).as_str(),
        ),
        ViewEvent::AssistantTextDelta(t) => text_envelope(
            "chat_text_delta",
            "text",
            ansi::strip_ansi(t.as_str()).as_str(),
        ),
        ViewEvent::AssistantThinkingDelta(t) => text_envelope(
            "chat_thinking_delta",
            "text",
            ansi::strip_ansi(t.as_str()).as_str(),
        ),
        ViewEvent::ToolCallStart { name, label, input } => {
            let mut e = text_envelope(
                "chat_tool_call",
                "name",
                ansi::strip_ansi(label.as_str()).as_str(),
            );
            e.put("tool_name", Json::text(name.as_str()));
            e.put("input", input.copy());
            e
        },
        ViewEvent::ToolCallResult { name, output, ui_resource, source: _ } => {
            let mut e = text_envelope("chat_tool_result", "name", name.as_str());
            e.put("output", Json::Str(ansi::strip_ansi(output.as_str())));
            if let Some(ui) = ui_resource {
                e.put("ui_resource", ui_json(ui));
            }
            e
        },
        ViewEvent::SlashOutput(t) => text_envelope(
            "chat_slash_output",
            "text",
            ansi::strip_ansi(t.as_str()).as_str(),
        ),
        ViewEvent::TurnDone => envelope("chat_done"),
        ViewEvent::HistoryReplaced(m) => {
            let mut e = envelope("chat_history_replaced");
            e.put("messages", history_array(m));
            e
        },
        ViewEvent::ContextWarning { file_size_mb, label: _ } => {
            let mut e = envelope("chat_context_warning");
            e.put("file_size_mb", Json::Num(file_size_mb.clone()));
            e
        },
        ViewEvent::ErrorText(t) => {
            let cleaned = ansi::strip_ansi(t.as_str());
            text_envelope(
                "chat_error",
                "text",
                humanize_provider_error(cleaned.as_str()).as_str(),
            )
        },
        ViewEvent::McpAppCallToolResult { request_id, content, is_error } => {
            let mut e = text_envelope("mcp_call_tool_result", "requestId", request_id.as_str());
            e.put("content", Json::text(content.as_str()));
            e.put("isError", Json::Bool(*is_error));
            e
        },
        ViewEvent::PlanUpdate(plan) => {
            let mut e = envelope("chat_plan_update");
            e.put("plan", plan.copy());
            e
        },
        ViewEvent::TodoUpdate(todos) => {
            let mut e = envelope("chat_todo_update");
            e.put("todos", todos.copy());
            e
        },
        ViewEvent::GoalUpdate(goal) => {
            let mut e = envelope("chat_goal_update");
            e.put("goal", goal.copy());
            e
        },
        ViewEvent::SkillModelNote(t) => text_envelope(
            "chat_skill_model_note",
            "text",
            ansi::strip_ansi(t.as_str()).as_str(),
        ),
        ViewEvent::PermissionModeChanged(mode) => text_envelope(
            "chat_permission_mode",
            "mode",
            mode_text(*mode),
        ),
        ViewEvent::PlanStalled { step_id, step_title, turns } => {
            let mut e = text_envelope("chat_plan_stalled", "step_id", step_id.as_str());
            e.put("step_title", Json::Str(ansi::strip_ansi(step_title.as_str())));
            e.put("turns", Json::num(*turns));
            e
        },
        ViewEvent::SideChannelStart { id, agent_name } => {
            let mut e = text_envelope("chat_side_channel_start", "id", id.as_str());
            e.put("agent_name", Json::text(agent_name.as_str()));
            e
        },
        ViewEvent::SideChannelTextDelta { id, text } => {
            let mut e = text_envelope("chat_side_channel_text_delta", "id", id.as_str());
            e.put("text", Json::Str(ansi::strip_ansi(text.as_str())));
            e
        },
        ViewEvent::SideChannelToolCall { id, tool_name, label } => {
            let mut e = text_envelope("chat_side_channel_tool_call", "id", id.as_str());
            e.put("tool_name", Json::text(tool_name.as_str()));
            e.put("label", Json::Str(ansi::strip_ansi(label.as_str())));
            e
        },
        ViewEvent::SideChannelDone { id, agent_name, duration_ms, secs: _, result_text } => {
            let mut e = text_envelope("chat_side_channel_done", "id", id.as_str());
            e.put("agent_name", Json::text(agent_name.as_str()));
            e.put("duration_ms", Json::num(*duration_ms));
            e.put("result_text", Json::Str(ansi::strip_ansi(result_text.as_str())));
            e
        },
        ViewEvent::SideChannelError { id, error } => {
            let mut e = text_envelope("chat_side_channel_error", "id", id.as_str());
            e.put("error", Json::Str(ansi::strip_ansi(error.as_str())));
            e
        },
        _ => {
            return None;
        },
    };
    Some(e)
}

fn ready_text(ev: &ViewEvent) -> (r: Option<String>)
    ensures
        text::view_opt(r) == ready_envelope(*ev),
{
    match ev {
        ViewEvent::SessionListRefresh(j) => Some(j.clone()),
        ViewEvent::ProviderUpdate(j) => Some(j.clone()),
        ViewEvent::KmsUpdate(j) => Some(j.clone()),
        ViewEvent::McpUpdate(j) => Some(j.clone()),
        ViewEvent::LineStatus(j) => Some(j.clone()),
        ViewEvent::ResearchUpdate(j) => Some(j.clone()),
        ViewEvent::ModelPickerOpen(j) => Some(j.clone()),
        ViewEvent::ScheduleAddOpen(j) => Some(j.clone()),
        _ => None,
    }
}

/// The envelopes that the chat gets for an event, as JSON texts. Texts that
/// the user reads in the bubble come without escape sequences.
pub fn render_chat_dispatches(ev: &ViewEvent) -> (r: Vec<String>)
    ensures
        text::views(r@) == chat_dispatches(*ev),
{
    let mut out: Vec<String> = Vec::new();
    match chat_json(ev) {
        Some(e) => {
            out.push(json::render_json(&e));
        },
        None => {
            if let Some(t) = ready_text(ev) {
                out.push(t);
            }
        },
    }
    proof {
        assert(text::views(out@) =~= chat_dispatches(*ev));
    }
    out
}

// ---------------------------------------------------------------------------
// The terminal
// ---------------------------------------------------------------------------

/// What the terminal has to remember between events.
#[derive(Debug, PartialEq, Eq)]
pub struct TerminalRenderState {
    /// The tool on the current tool line.
    pub last_tool_label: Option<String>,
    /// How often that tool has been called in a row.
    pub last_tool_count: u32,
    /// The running call is counted on the line of the previous one.
    pub merging: bool,
    /// The tool line is still open.
    pub pending_newline_after_tool: bool,
    /// The last thing shown was reasoning.
    pub last_was_thinking: bool,
}

#[verifier::ext_equal]
pub struct TerminalView {
    pub label: Option<Seq<char>>,
    pub count: u32,
    pub merging: bool,
    pub pending_newline: bool,
    pub thinking: bool,
}

impl View for TerminalRenderState {
    type V = TerminalView;

    open spec fn view(&self) -> TerminalView {
        TerminalView {
            label: text::view_opt(self.last_tool_label),
            count: self.last_tool_count,
            merging: self.merging,
            pending_newline: self.pending_newline_after_tool,
            thinking: self.last_was_thinking,
        }
    }
}

impl Default for TerminalRenderState {
    fn default() -> (r: TerminalRenderState)
        ensures
            r@ == (TerminalView {
                label: None,
                count: 0,
                merging: false,
                pending_newline: false,
                thinking: false,
            }),
    {
        TerminalRenderState {
            last_tool_label: None,
            last_tool_count: 0,
            merging: false,
            pending_newline_after_tool: false,
            last_was_thinking: false,
        }
    }
}

/// Line feeds as a terminal wants them.
pub open spec fn crlf_of(s: Seq<char>) -> Seq<char> {
    text::replace_of(s, "\n"@, "\r\n"@)
}

/// A prompt of the user: a marker, and further lines indented.
pub open spec fn prompt_of(s: Seq<char>) -> Seq<char> {
    "\x1b[2m> \x1b[0m"@ + text::join_of(text::split_of(s, '\n'), "\r\n  "@) + "\r\n"@
}

/// One message of a restored conversation; a prompt after the first message
/// has an empty line before it.
pub open spec fn history_line(m: DisplayMessage, first: bool) -> Seq<char> {
    if m.role@ == "user"@ {
        (if first {
            Seq::empty()
        } else {
            "\r\n"@
        }) + prompt_of(m.content@)
    } else if m.role@ == "assistant"@ {
        crlf_of(m.content@) + "\r\n"@
    } else {
        "\x1b[2m"@ + crlf_of(m.content@) + "\x1b[0m\r\n"@
    }
}

pub open spec fn history_text(m: Seq<DisplayMessage>) -> Seq<char>
    decreases m.len(),
{
    if m.len() == 0 {
        "\x1b[3J\x1b[2J\x1b[H"@
    } else {
        history_text(m.drop_last()) + history_line(m.last(), m.len() == 1)
    }
}

/// Where a tool's result comes from.
pub open spec fn source_suffix(source: Option<Seq<char>>) -> Seq<char> {
    match source {
        Some(s) => " \x1b[2m(via "@ + s + ")\x1b[0m"@,
        None => Seq::empty(),
    }
}

/// What the terminal shows of an event that is no tool call.
pub open spec fn terminal_body(ev: ViewEvent) -> Option<Seq<char>> {
    match ev {
        ViewEvent::UserPrompt(t) => Some(prompt_of(t@)),
        ViewEvent::AssistantTextDelta(t) => Some(crlf_of(t@)),
        ViewEvent::AssistantThinkingDelta(t) => Some("\x1b[2;3m"@ + crlf_of(t@) + "\x1b[0m"@),
        ViewEvent::SlashOutput(t) => Some("\x1b[2m"@ + crlf_of(t@) + "\x1b[0m\r\n"@),
        ViewEvent::HistoryReplaced(m) => Some(history_text(m@)),
        ViewEvent::ErrorText(t) => Some("\r\n\x1b[31m"@ + t@ + "\x1b[0m\r\n"@),
        ViewEvent::ContextWarning { file_size_mb: _, label } => Some(
            "\r\n\x1b[33m[ session "@ + label@
                + " MB — /fork to continue in a new session with summary ]\x1b[0m\r\n"@,
        ),
        ViewEvent::SkillModelNote(t) => Some("\r\n\x1b[2;3m"@ + t@ + "\x1b[0m\r\n"@),
        ViewEvent::SideChannelStart { id, agent_name } => Some(
            "\r\n\x1b[2m[agent "@ + agent_name@ + " ("@ + id@
                + ") — running in background]\x1b[0m\r\n"@,
        ),
        ViewEvent::SideChannelDone { id, agent_name, duration_ms: _, secs, result_text } => Some(
            "\r\n\x1b[36m[agent "@ + agent_name@ + " ("@ + id@ + ") ✓ done in "@ + secs@
                + "s]\x1b[0m\r\n\x1b[2;3m"@ + crlf_of(result_text@) + "\x1b[0m\r\n"@,
        ),
        ViewEvent::SideChannelError { id, error } => Some(
            "\r\n\x1b[31m[agent "@ + id@ + " ✗ "@ + error@ + "]\x1b[0m\r\n"@,
        ),
        _ => None,
    }
}

/// What the terminal shows of an event, and what it remembers afterwards. A
/// tool called again right after itself is counted on its line; what follows
/// a tool line or reasoning starts on a line of its own.
pub open spec fn terminal_step(s: TerminalView, ev: ViewEvent) -> (TerminalView, Option<Seq<char>>) {
    match ev {
        ViewEvent::ToolCallStart { name: _, label, input: _ } => if s.pending_newline && s.label
            == Some(label@) && s.count >= 1 {
            (TerminalView { pending_newline: false, merging: true, thinking: false, ..s }, None)
        } else {
            (
                TerminalView {
                    label: Some(label@),
                    count: 0,
                    merging: false,
                    pending_newline: false,
                    thinking: false,
                },
                Some("\r\n\x1b[2m[tool: "@ + label@ + "]\x1b[0m"@),
            )
        },
        ViewEvent::ToolCallResult { name: _, output: _, ui_resource: _, source } => {
            let suffix = source_suffix(text::view_opt(source));
            if s.merging {
                let count = (s.count + 1) as u32;
                (
                    TerminalView {
                        merging: false,
                        count,
                        pending_newline: true,
                        thinking: false,
                        ..s
                    },
                    Some(
                        "\r\x1b[2K\x1b[2m[tool: "@ + (match s.label {
                            Some(l) => l,
                            None => Seq::empty(),
                        }) + "]\x1b[0m \x1b[32m✓\x1b[0m"@ + suffix + " \x1b[2m×"@
                            + text::decimal_of(count as nat) + "\x1b[0m"@,
                    ),
                )
            } else {
                (
                    TerminalView { count: 1, pending_newline: true, thinking: false, ..s },
                    Some(" \x1b[32m✓\x1b[0m"@ + suffix),
                )
            }
        },
        _ => match terminal_body(ev) {
            Some(body) => {
                let thinking = ev is AssistantThinkingDelta;
                (
                    TerminalView {
                        label: None,
                        count: 0,
                        merging: false,
                        pending_newline: false,
                        thinking,
                    },
                    Some(
                        (if s.pending_newline {
                            "\r\n"@
                        } else {
                            Seq::empty()
                        }) + (if s.thinking && !thinking {
                            "\r\n"@
                        } else {
                            Seq::empty()
                        }) + body,
                    ),
                )
            },
            None => (s, None),
        },
    }
}

fn crlf(s: &str) -> (r: String)
    ensures
        r@ == crlf_of(s@),
{
    proof {
        reveal_strlit("\n");
    }
    text::replace(s, "\n", "\r\n")
}

fn prompt_text(s: &str) -> (r: String)
    ensures
        r@ == prompt_of(s@),
{
    let lines = text::split(s, '\n');
    let mut body = "\x1b[2m> \x1b[0m".to_string();
    body.append(text::join(&lines, "\r\n  ").as_str());
    body.append("\r\n");
    body
}

fn between(head: &str, body: &str, tail: &str) -> (r: String)
    ensures
        r@ == head@ + body@ + tail@,
{
    let mut s = head.to_string();
    s.append(body);
    s.append(tail);
    s
}

fn history_line_text(m: &DisplayMessage, first: bool) -> (r: String)
    ensures
        r@ == history_line(*m, first),
{
    if text::same(m.role.as_str(), "user") {
        let mut s = String::new();
        if !first {
            s.append("\r\n");
        }
        s.append(prompt_text(m.content.as_str()).as_str());
        proof {
            assert(s@ =~= history_line(*m, first));
        }
        s
    } else if text::same(m.role.as_str(), "assistant") {
        let mut s = crlf(m.content.as_str());
        s.append("\r\n");
        s
    } else {
        between("\x1b[2m", crlf(m.content.as_str()).as_str(), "\x1b[0m\r\n")
    }
}

fn history_body(m: &Vec<DisplayMessage>) -> (r: String)
    ensures
        r@ == history_text(m@),
{
    let mut out = "\x1b[3J\x1b[2J\x1b[H".to_string();
    let mut i: usize = 0;
    while i < m.len()
        invariant
            i <= m@.len(),
            out@ == history_text(m@.take(i as int)),
        decreases m@.len() - i,
    {
        out.append(history_line_text(&m[i], i == 0).as_str());
        proof {
            assert(m@.take(i + 1).drop_last() == m@.take(i as int));
        }
        i = i + 1;
    }
    proof {
        assert(m@.take(i as int) == m@);
    }
    out
}

fn body_text(ev: &ViewEvent) -> (r: Option<String>)
    ensures
        text::view_opt(r) == terminal_body(*ev),
{
    match ev {
        ViewEvent::UserPrompt(t) => Some(prompt_text(t.as_str())),
        ViewEvent::AssistantTextDelta(t) => Some(crlf(t.as_str())),
        ViewEvent::AssistantThinkingDelta(t) => Some(
            between("\x1b[2;3m", crlf(t.as_str()).as_str(), "\x1b[0m"),
        ),
        ViewEvent::SlashOutput(t) => Some(
            between("\x1b[2m", crlf(t.as_str()).as_str(), "\x1b[0m\r\n"),
        ),
        ViewEvent::HistoryReplaced(m) => Some(history_body(m)),
        ViewEvent::ErrorText(t) => Some(between("\r\n\x1b[31m", t.as_str(), "\x1b[0m\r\n")),
        ViewEvent::ContextWarning { file_size_mb: _, label } => Some(
            between(
                "\r\n\x1b[33m[ session ",
                label.as_str(),
                " MB — /fork to continue in a new session with summary ]\x1b[0m\r\n",
            ),
        ),
        ViewEvent::SkillModelNote(t) => Some(between("\r\n\x1b[2;3m", t.as_str(), "\x1b[0m\r\n")),
        ViewEvent::SideChannelStart { id, agent_name } => {
            let mut s = "\r\n\x1b[2m[agent ".to_string();
            s.append(agent_name.as_str());
            s.append(" (");
            s.append(id.as_str());
            s.append(") — running in background]\x1b[0m\r\n");
            Some(s)
        },
        ViewEvent::SideChannelDone { id, agent_name, duration_ms: _, secs, result_text } => {
            let mut s = "\r\n\x1b[36m[agent ".to_string();
            s.append(agent_name.as_str());
            s.append(" (");
            s.append(id.as_str());
            s.append(") ✓ done in ");
            s.append(secs.as_str());
            s.append("s]\x1b[0m\r\n\x1b[2;3m");
            s.append(crlf(result_text.as_str()).as_str());
            s.append("\x1b[0m\r\n");
            Some(s)
        },
        ViewEvent::SideChannelError { id, error } => {
            let mut s = "\r\n\x1b[31m[agent ".to_string();
            s.append(id.as_str());
            s.append(" ✗ ");
            s.append(error.as_str());
            s.append("]\x1b[0m\r\n");
            Some(s)
        },
        _ => None,
    }
}

/// The terminal bytes for an event; none where the terminal has nothing to
/// show.
pub fn render_terminal_ansi(state: &mut TerminalRenderState, ev: &ViewEvent) -> (r: Option<String>)
    requires
        ev is ToolCallResult && old(state).merging ==> old(state).last_tool_count < u32::MAX,
    ensures
        (final(state)@, text::view_opt(r)) == terminal_step(old(state)@, *ev),
{
    match ev {
        ViewEvent::ToolCallStart { name: _, label, input: _ } => {
            state.last_was_thinking = false;
            let again = match &state.last_tool_label {
                Some(l) => text::same(l.as_str(), label.as_str()),
                None => false,
            };
            if state.pending_newline_after_tool && again && state.last_tool_count >= 1 {
                state.pending_newline_after_tool = false;
                state.merging = true;
                return None;
            }
            state.last_tool_label = Some(label.clone());
            state.last_tool_count = 0;
            state.merging = false;
            state.pending_newline_after_tool = false;
            Some(between("\r\n\x1b[2m[tool: ", label.as_str(), "]\x1b[0m"))
        },
        ViewEvent::ToolCallResult { name: _, output: _, ui_resource: _, source } => {
            state.last_was_thinking = false;
            let suffix = match source {
                Some(s) => between(" \x1b[2m(via ", s.as_str(), ")\x1b[0m"),
                None => String::new(),
            };
            state.pending_newline_after_tool = true;
            if state.merging {
                state.merging = false;
                state.last_tool_count = state.last_tool_count + 1;
                let mut out = "\r\x1b[2K\x1b[2m[tool: ".to_string();
                match &state.last_tool_label {
                    Some(l) => {
                        out.append(l.as_str());
                    },
                    None => {
                        out.append(String::new().as_str());
                    },
                }
                out.append("]\x1b[0m \x1b[32m✓\x1b[0m");
                out.append(suffix.as_str());
                out.append(" \x1b[2m×");
                out.append(text::decimal(state.last_tool_count as u64).as_str());
                out.append("\x1b[0m");
                return Some(out);
            }
            state.last_tool_count = 1;
            let mut out = " \x1b[32m✓\x1b[0m".to_string();
            out.append(suffix.as_str());
            Some(out)
        },
        _ => {
            let ghost s = state@;
            let body = match body_text(ev) {
                Some(b) => b,
                None => {
                    return None;
                },
            };
            let thinking = match ev {
                ViewEvent::AssistantThinkingDelta(_) => true,
                _ => false,
            };
            let mut out = String::new();
            if state.pending_newline_after_tool {
                out.append("\r\n");
            }
            if state.last_was_thinking && !thinking {
                out.append("\r\n");
            }
            out.append(body.as_str());
            state.last_tool_label = None;
            state.last_tool_count = 0;
            state.merging = false;
            state.pending_newline_after_tool = false;
            state.last_was_thinking = thinking;
            proof {
                let want = terminal_step(s, *ev);
                assert(out@ =~= want.1->0);
            }
            Some(out)
        },
    }
}

// ---------------------------------------------------------------------------
// Terminal envelopes
// ---------------------------------------------------------------------------

/// The standard base64 text of bytes, with padding.
pub uninterp spec fn base64_standard(bytes: Seq<u8>) -> Seq<char>;

/// `Engine::encode` of `base64::engine::general_purpose::STANDARD`: the text
/// follows from the bytes alone.
#[verifier::external_body]
fn base64_of(bytes: &[u8]) -> (r: String)
    ensures
        r@ == base64_standard(bytes@),
{
    base64::engine::general_purpose::STANDARD.encode(bytes)
}

/// An envelope of a kind around terminal bytes.
pub open spec fn terminal_envelope(kind: Seq<char>, ansi: Seq<char>) -> Seq<char> {
    json::json_text(
        envelope_of(kind).with(
            "data"@,
            JsonView::text(base64_standard(vstd::utf8::encode_utf8(ansi))),
        ),
    )
}

/// Terminal bytes in the envelope that the terminal view writes out.
pub fn terminal_data_envelope(ansi: &str) -> (r: String)
    ensures
        r@ == terminal_envelope("terminal_data"@, ansi@),
{
    let e = text_envelope("terminal_data", "data", base64_of(ansi.as_bytes()).as_str());
    json::render_json(&e)
}

/// Terminal bytes in the envelope after which the terminal view writes a fresh
/// prompt.
pub fn terminal_history_replaced_envelope(ansi: &str) -> (r: String)
    ensures
        r@ == terminal_envelope("terminal_history_replaced"@, ansi@),
{
    let e = text_envelope(
        "terminal_history_replaced",
        "data",
        base64_of(ansi.as_bytes()).as_str(),
    );
    json::render_json(&e)
}

// ---------------------------------------------------------------------------
// What holds of the two surfaces
// ---------------------------------------------------------------------------

/// The number of an event's kind among those that the chat gets an envelope
/// of its own for; none for events whose envelope comes ready-made, and for
/// the end of the session.
pub open spec fn kind_of(ev: ViewEvent) -> Option<int> {
    match ev {
        ViewEvent::UserPrompt(_) => Some(0),
        ViewEvent::AssistantTextDelta(_) => Some(1),
        ViewEvent::AssistantThinkingDelta(_) => Some(2),
        ViewEvent::ToolCallStart { .. } => Some(3),
        ViewEvent::ToolCallResult { .. } => Some(4),
        ViewEvent::SlashOutput(_) => Some(5),
        ViewEvent::TurnDone => Some(6),
        ViewEvent::HistoryReplaced(_) => Some(7),
        ViewEvent::ContextWarning { .. } => Some(8),
        ViewEvent::ErrorText(_) => Some(9),
        ViewEvent::McpAppCallToolResult { .. } => Some(10),
        ViewEvent::PlanUpdate(_) => Some(11),
        ViewEvent::TodoUpdate(_) => Some(12),
        ViewEvent::GoalUpdate(_) => Some(13),
        ViewEvent::SkillModelNote(_) => Some(14),
        ViewEvent::PermissionModeChanged(_) => Some(15),
        ViewEvent::PlanStalled { .. } => Some(16),
        ViewEvent::SideChannelStart { .. } => Some(17),
        ViewEvent::SideChannelTextDelta { .. } => Some(18),
        ViewEvent::SideChannelToolCall { .. } => Some(19),
        ViewEvent::SideChannelDone { .. } => Some(20),
        ViewEvent::SideChannelError { .. } => Some(21),
        _ => None,
    }
}

/// The type that the envelope of a kind of event names.
pub open spec fn type_of_kind(kind: int) -> Seq<char> {
    if kind == 0 {
        "chat_user_message"@
    } else if kind == 1 {
        "chat_text_delta"@
    } else if kind == 2 {
        "chat_thinking_delta"@
    } else if kind == 3 {
        "chat_tool_call"@
    } else if kind == 4 {
        "chat_tool_result"@
    } else if kind == 5 {
        "chat_slash_output"@
    } else if kind == 6 {
        "chat_done"@
    } else if kind == 7 {
        "chat_history_replaced"@
    } else if kind == 8 {
        "chat_context_warning"@
    } else if kind == 9 {
        "chat_error"@
    } else if kind == 10 {
        "mcp_call_tool_result"@
    } else if kind == 11 {
        "chat_plan_update"@
    } else if kind == 12 {
        "chat_todo_update"@
    } else if kind == 13 {
        "chat_goal_update"@
    } else if kind == 14 {
        "chat_skill_model_note"@
    } else if kind == 15 {
        "chat_permission_mode"@
    } else if kind == 16 {
        "chat_plan_stalled"@
    } else if kind == 17 {
        "chat_side_channel_start"@
    } else if kind == 18 {
        "chat_side_channel_text_delta"@
    } else if kind == 19 {
        "chat_side_channel_tool_call"@
    } else if kind == 20 {
        "chat_side_channel_done"@
    } else if kind == 21 {
        "chat_side_channel_error"@
    } else {
        Seq::empty()
    }
}

proof fn lemma_types_of_one_length()
    ensures
        "chat_tool_result"@ != "chat_plan_update"@,
        "chat_tool_result"@ != "chat_todo_update"@,
        "chat_tool_result"@ != "chat_goal_update"@,
        "chat_plan_update"@ != "chat_todo_update"@,
        "chat_plan_update"@ != "chat_goal_update"@,
        "chat_todo_update"@ != "chat_goal_update"@,
        "chat_user_message"@ != "chat_slash_output"@,
        "chat_user_message"@ != "chat_plan_stalled"@,
        "chat_slash_output"@ != "chat_plan_stalled"@,
        "chat_context_warning"@ != "mcp_call_tool_result"@,
        "chat_context_warning"@ != "chat_permission_mode"@,
        "mcp_call_tool_result"@ != "chat_permission_mode"@,
        "chat_history_replaced"@ != "chat_skill_model_note"@,
        "chat_side_channel_start"@ != "chat_side_channel_error"@,
{
    reveal_strlit("chat_context_warning");
    reveal_strlit("chat_goal_update");
    reveal_strlit("chat_history_replaced");
    reveal_strlit("chat_permission_mode");
    reveal_strlit("chat_plan_stalled");
    reveal_strlit("chat_plan_update");
    reveal_strlit("chat_side_channel_error");
    reveal_strlit("chat_side_channel_start");
    reveal_strlit("chat_skill_model_note");
    reveal_strlit("chat_slash_output");
    reveal_strlit("chat_todo_update");
    reveal_strlit("chat_tool_result");
    reveal_strlit("chat_user_message");
    reveal_strlit("mcp_call_tool_result");
    assert("chat_tool_result"@[5] != "chat_plan_update"@[5]);
    assert("chat_tool_result"@[7] != "chat_todo_update"@[7]);
    assert("chat_tool_result"@[5] != "chat_goal_update"@[5]);
    assert("chat_plan_update"@[5] != "chat_todo_update"@[5]);
    assert("chat_plan_update"@[5] != "chat_goal_update"@[5]);
    assert("chat_todo_update"@[5] != "chat_goal_update"@[5]);
    assert("chat_user_message"@[5] != "chat_slash_output"@[5]);
    assert("chat_user_message"@[5] != "chat_plan_stalled"@[5]);
    assert("chat_slash_output"@[5] != "chat_plan_stalled"@[5]);
    assert("chat_context_warning"@[0] != "mcp_call_tool_result"@[0]);
    assert("chat_context_warning"@[5] != "chat_permission_mode"@[5]);
    assert("mcp_call_tool_result"@[0] != "chat_permission_mode"@[0]);
    assert("chat_history_replaced"@[5] != "chat_skill_model_note"@[5]);
    assert("chat_side_channel_start"@[18] != "chat_side_channel_error"@[18]);
}

proof fn lemma_type_lengths()
    ensures
        "chat_user_message"@.len() == 17,
        "chat_text_delta"@.len() == 15,
        "chat_thinking_delta"@.len() == 19,
        "chat_tool_call"@.len() == 14,
        "chat_tool_result"@.len() == 16,
        "chat_slash_output"@.len() == 17,
        "chat_done"@.len() == 9,
        "chat_history_replaced"@.len() == 21,
        "chat_context_warning"@.len() == 20,
        "chat_error"@.len() == 10,
        "mcp_call_tool_result"@.len() == 20,
        "chat_plan_update"@.len() == 16,
        "chat_todo_update"@.len() == 16,
        "chat_goal_update"@.len() == 16,
        "chat_skill_model_note"@.len() == 21,
        "chat_permission_mode"@.len() == 20,
        "chat_plan_stalled"@.len() == 17,
        "chat_side_channel_start"@.len() == 23,
        "chat_side_channel_text_delta"@.len() == 28,
        "chat_side_channel_tool_call"@.len() == 27,
        "chat_side_channel_done"@.len() == 22,
        "chat_side_channel_error"@.len() == 23,
{
    reveal_strlit("chat_user_message");
    reveal_strlit("chat_text_delta");
    reveal_strlit("chat_thinking_delta");
    reveal_strlit("chat_tool_call");
    reveal_strlit("chat_tool_result");
    reveal_strlit("chat_slash_output");
    reveal_strlit("chat_done");
    reveal_strlit("chat_history_replaced");
    reveal_strlit("chat_context_warning");
    reveal_strlit("chat_error");
    reveal_strlit("mcp_call_tool_result");
    reveal_strlit("chat_plan_update");
    reveal_strlit("chat_todo_update");
    reveal_strlit("chat_goal_update");
    reveal_strlit("chat_skill_model_note");
    reveal_strlit("chat_permission_mode");
    reveal_strlit("chat_plan_stalled");
    reveal_strlit("chat_side_channel_start");
    reveal_strlit("chat_side_channel_text_delta");
    reveal_strlit("chat_side_channel_tool_call");
    reveal_strlit("chat_side_channel_done");
    reveal_strlit("chat_side_channel_error");
}

/// A text as a value of an envelope, without escape sequences.
pub open spec fn readable(t: String) -> JsonView {
    JsonView::Str(ansi::stripped_text(t@))
}

/// What the envelope of an event says beside its type: names and values.
pub open spec fn told_members(ev: ViewEvent) -> Seq<(Seq<char>, JsonView)> {
    match ev {
        ViewEvent::UserPrompt(t) => seq![("text"@, readable(t))],
        ViewEvent::AssistantTextDelta(t) => seq![("text"@, readable(t))],
        ViewEvent::AssistantThinkingDelta(t) => seq![("text"@, readable(t))],
        ViewEvent::ToolCallStart { name, label, input } => seq![
            ("name"@, readable(label)),
            ("tool_name"@, JsonView::Str(name@)),
            ("input"@, input@),
        ],
        ViewEvent::ToolCallResult { name, output, ui_resource: None, .. } => seq![
            ("name"@, JsonView::Str(name@)),
            ("output"@, readable(output)),
        ],
        ViewEvent::ToolCallResult { name, output, ui_resource: Some(ui), .. } => seq![
            ("name"@, JsonView::Str(name@)),
            ("output"@, readable(output)),
            ("ui_resource"@, ui_member(ui@)),
        ],
        ViewEvent::SlashOutput(t) => seq![("text"@, readable(t))],
        ViewEvent::HistoryReplaced(m) => seq![("messages"@, JsonView::Arr(history_items(m@)))],
        ViewEvent::ContextWarning { file_size_mb, .. } => seq![
            ("file_size_mb"@, JsonView::Num(file_size_mb)),
        ],
        ViewEvent::ErrorText(t) => seq![
            ("text"@, JsonView::Str(humanized(ansi::stripped_text(t@)))),
        ],
        ViewEvent::McpAppCallToolResult { request_id, content, is_error } => seq![
            ("requestId"@, JsonView::Str(request_id@)),
            ("content"@, JsonView::Str(content@)),
            ("isError"@, JsonView::Bool(is_error)),
        ],
        ViewEvent::PlanUpdate(plan) => seq![("plan"@, plan@)],
        ViewEvent::TodoUpdate(todos) => seq![("todos"@, todos@)],
        ViewEvent::GoalUpdate(goal) => seq![("goal"@, goal@)],
        ViewEvent::SkillModelNote(t) => seq![("text"@, readable(t))],
        ViewEvent::PermissionModeChanged(mode) => seq![
            (
                "mode"@,
                JsonView::Str(
                    if mode == PermissionMode::Auto {
                        "auto"@
                    } else if mode == PermissionMode::Ask {
                        "ask"@
                    } else if mode == PermissionMode::Plan {
                        "plan"@
                    } else {
                        "linegated"@
                    },
                ),
            ),
        ],
        ViewEvent::PlanStalled { step_id, step_title, turns } => seq![
            ("step_id"@, JsonView::Str(step_id@)),
            ("step_title"@, readable(step_title)),
            ("turns"@, JsonView::num(turns)),
        ],
        ViewEvent::SideChannelStart { id, agent_name } => seq![
            ("id"@, JsonView::Str(id@)),
            ("agent_name"@, JsonView::Str(agent_name@)),
        ],
        ViewEvent::SideChannelTextDelta { id, text } => seq![
            ("id"@, JsonView::Str(id@)),
            ("text"@, readable(text)),
        ],
        ViewEvent::SideChannelToolCall { id, tool_name, label } => seq![
            ("id"@, JsonView::Str(id@)),
            ("tool_name"@, JsonView::Str(tool_name@)),
            ("label"@, readable(label)),
        ],
        ViewEvent::SideChannelDone { id, agent_name, duration_ms, result_text, .. } => seq![
            ("id"@, JsonView::Str(id@)),
            ("agent_name"@, JsonView::Str(agent_name@)),
            ("duration_ms"@, JsonView::num(duration_ms)),
            ("result_text"@, readable(result_text)),
        ],
        ViewEvent::SideChannelError { id, error } => seq![
            ("id"@, JsonView::Str(id@)),
            ("error"@, readable(error)),
        ],
        _ => Seq::empty(),
    }
}

proof fn lemma_member_names()
    ensures
        "type"@.len() == 4,
        "text"@.len() == 4,
        "name"@.len() == 4,
        "plan"@.len() == 4,
        "goal"@.len() == 4,
        "mode"@.len() == 4,
        "type"@[1] != "text"@[1],
        "type"@[0] != "name"@[0],
        "type"@[0] != "plan"@[0],
        "type"@[0] != "goal"@[0],
        "type"@[0] != "mode"@[0],
        "tool_name"@.len() == 9,
        "input"@.len() == 5,
        "output"@.len() == 6,
        "ui_resource"@.len() == 11,
        "messages"@.len() == 8,
        "file_size_mb"@.len() == 12,
        "requestId"@.len() == 9,
        "content"@.len() == 7,
        "isError"@.len() == 7,
        "content"@[0] != "isError"@[0],
        "todos"@.len() == 5,
        "step_id"@.len() == 7,
        "step_title"@.len() == 10,
        "turns"@.len() == 5,
        "id"@.len() == 2,
        "agent_name"@.len() == 10,
        "label"@.len() == 5,
        "duration_ms"@.len() == 11,
        "result_text"@.len() == 11,
        "duration_ms"@[0] != "result_text"@[0],
        "error"@.len() == 5,
{
    reveal_strlit("type");
    reveal_strlit("text");
    reveal_strlit("name");
    reveal_strlit("plan");
    reveal_strlit("goal");
    reveal_strlit("mode");
    reveal_strlit("tool_name");
    reveal_strlit("input");
    reveal_strlit("output");
    reveal_strlit("ui_resource");
    reveal_strlit("messages");
    reveal_strlit("file_size_mb");
    reveal_strlit("requestId");
    reveal_strlit("content");
    reveal_strlit("isError");
    reveal_strlit("todos");
    reveal_strlit("step_id");
    reveal_strlit("step_title");
    reveal_strlit("turns");
    reveal_strlit("id");
    reveal_strlit("agent_name");
    reveal_strlit("label");
    reveal_strlit("duration_ms");
    reveal_strlit("result_text");
    reveal_strlit("error");
}

/// The envelope of an event names the type of the event's kind, and says the
/// event in the members of [`told_members`], and nothing else.
#[verifier::rlimit(60)]
pub proof fn envelopes_say_the_event(ev: ViewEvent)
    ensures
        match kind_of(ev) {
            Some(kind) => chat_envelope(ev) == Some(
                JsonView::Obj(
                    seq![("type"@, JsonView::Str(type_of_kind(kind)))] + told_members(ev),
                ),
            ),
            None => chat_envelope(ev) is None,
        },
{
    broadcast use json::new_member_goes_last;

    lemma_member_names();
    if let Some(kind) = kind_of(ev) {
        let m = seq![("type"@, JsonView::Str(type_of_kind(kind)))] + told_members(ev);
        assert(chat_envelope(ev)->0.members() =~= m);
    }
}

/// The envelope of an event names the type of the event's kind.
pub proof fn envelopes_name_their_type(ev: ViewEvent)
    requires
        kind_of(ev) is Some,
    ensures
        chat_envelope(ev) is Some,
        chat_envelope(ev)->0.get("type"@) == Some(JsonView::Str(type_of_kind(kind_of(ev)->0))),
{
    envelopes_say_the_event(ev);
    let m = seq![("type"@, JsonView::Str(type_of_kind(kind_of(ev)->0)))] + told_members(ev);
    assert(m[0].0 == "type"@);
}

/// No two kinds of event share a type.
pub proof fn types_tell_the_kinds_apart(a: ViewEvent, b: ViewEvent)
    requires
        kind_of(a) is Some,
        kind_of(b) is Some,
        chat_envelope(a)->0.get("type"@) == chat_envelope(b)->0.get("type"@),
    ensures
        kind_of(a) == kind_of(b),
{
    lemma_type_lengths();
    lemma_types_of_one_length();
    envelopes_name_their_type(a);
    envelopes_name_their_type(b);
}

/// The chat gets every line of a restored conversation, in order, with its
/// role and its content.
pub proof fn restored_lines_are_all_told(m: Seq<DisplayMessage>, i: int)
    requires
        0 <= i < m.len(),
    ensures
        history_items(m).len() == m.len(),
        history_items(m)[i] == JsonView::Obj(
            seq![("role"@, JsonView::Str(m[i].role@)), ("content"@, readable(m[i].content))],
        ),
    decreases m.len(),
{
    broadcast use json::new_member_goes_last;

    reveal_strlit("role");
    reveal_strlit("content");
    assert("role"@.len() != "content"@.len());
    if m.len() == 1 {
        assert(history_items(m.drop_last()).len() == 0);
    } else if i < m.len() - 1 {
        restored_lines_are_all_told(m.drop_last(), i);
    } else {
        restored_lines_are_all_told(m.drop_last(), 0);
    }
    let item = JsonView::obj().with("role"@, JsonView::Str(m.last().role@)).with(
        "content"@,
        readable(m.last().content),
    );
    assert(history_items(m) == history_items(m.drop_last()).push(item));
    assert(item.members() =~= seq![
        ("role"@, JsonView::Str(m.last().role@)),
        ("content"@, readable(m.last().content)),
    ]);
}

/// The chat gets exactly one envelope for every event but the one that quits.
pub proof fn one_envelope_per_event(ev: ViewEvent)
    ensures
        chat_dispatches(ev).len() == if ev is QuitRequested {
            0nat
        } else {
            1nat
        },
{
}

/// An event that the terminal does not show leaves what it remembers alone,
/// unless a repeated tool call begins.
pub proof fn silent_events_are_forgotten(s: TerminalView, ev: ViewEvent)
    requires
        terminal_step(s, ev).1 is None,
        !(ev is ToolCallStart),
    ensures
        terminal_step(s, ev).0 == s,
{
}

/// A tool that is called again as soon as it has returned gets no second
/// line: its line is rewritten with the count one higher.
pub proof fn repeated_tool_shares_a_line(s: TerminalView, start: ViewEvent, end: ViewEvent)
    requires
        start is ToolCallStart,
        end is ToolCallResult,
        s.pending_newline,
        1 <= s.count < u32::MAX,
        s.label == Some(start->ToolCallStart_label@),
    ensures
        terminal_step(s, start).1 is None,
        terminal_step(terminal_step(s, start).0, end).0 == (TerminalView {
            count: (s.count + 1) as u32,
            merging: false,
            thinking: false,
            ..s
        }),
{
}

/// A text with every line feed as a terminal wants it, character by character.
pub open spec fn terminal_text(t: Seq<char>) -> Seq<char>
    decreases t.len(),
{
    if t.len() == 0 {
        Seq::empty()
    } else if t.last() == '\n' {
        terminal_text(t.drop_last()).push('\r').push('\n')
    } else {
        terminal_text(t.drop_last()).push(t.last())
    }
}

/// A prompt with its further lines indented, character by character.
pub open spec fn indented_text(t: Seq<char>) -> Seq<char>
    decreases t.len(),
{
    if t.len() == 0 {
        Seq::empty()
    } else if t.last() == '\n' {
        indented_text(t.drop_last()).push('\r').push('\n').push(' ').push(' ')
    } else {
        indented_text(t.drop_last()).push(t.last())
    }
}

proof fn lemma_line_feeds(t: Seq<char>, c: char)
    ensures
        crlf_of(seq![]) == Seq::<char>::empty(),
        crlf_of(seq![c] + t) == (if c == '\n' {
            seq!['\r', '\n']
        } else {
            seq![c]
        }) + crlf_of(t),
{
    reveal_strlit("\n");
    reveal_strlit("\r\n");
    let s = seq![c] + t;
    assert(s.skip(1) =~= t);
    assert("\n"@ =~= seq!['\n']);
    assert("\r\n"@ =~= seq!['\r', '\n']);
    assert(s.take(1) =~= seq![c]);
    assert(text::has_prefix(s, "\n"@) == (c == '\n')) by {
        if s.take(1) == "\n"@ {
            assert(s.take(1)[0] == '\n');
        }
    }
}

proof fn lemma_crlf_sum(a: Seq<char>, b: Seq<char>)
    ensures
        crlf_of(a + b) == crlf_of(a) + crlf_of(b),
    decreases a.len(),
{
    if a.len() == 0 {
        assert(a + b =~= b);
        lemma_line_feeds(b, 'x');
        assert(a =~= seq![]);
        assert(crlf_of(a) + crlf_of(b) =~= crlf_of(b));
    } else {
        let rest = a.skip(1);
        lemma_crlf_sum(rest, b);
        lemma_line_feeds(rest, a[0]);
        lemma_line_feeds(rest + b, a[0]);
        assert(seq![a[0]] + rest =~= a);
        assert(seq![a[0]] + (rest + b) =~= a + b);
        assert(crlf_of(a + b) =~= crlf_of(a) + crlf_of(b));
    }
}

proof fn lemma_crlf(t: Seq<char>)
    ensures
        crlf_of(t) == terminal_text(t),
    decreases t.len(),
{
    if t.len() == 0 {
        lemma_line_feeds(t, 'x');
        assert(t =~= seq![]);
    } else {
        let d = t.drop_last();
        lemma_crlf(d);
        lemma_crlf_sum(d, seq![t.last()]);
        assert(d + seq![t.last()] =~= t);
        lemma_line_feeds(seq![], t.last());
        assert(seq![t.last()] + Seq::<char>::empty() =~= seq![t.last()]);
        assert(crlf_of(t) =~= terminal_text(t));
    }
}

proof fn lemma_indented(t: Seq<char>)
    ensures
        text::join_of(text::split_of(t, '\n'), "\r\n  "@) == indented_text(t),
    decreases t.len(),
{
    let sep = "\r\n  "@;
    reveal_strlit("\r\n  ");
    assert(sep =~= seq!['\r', '\n', ' ', ' ']);
    let parts = text::split_of(t, '\n');
    if t.len() == 0 {
        assert(text::join_of(parts, sep) =~= Seq::empty());
    } else {
        let d = t.drop_last();
        let before = text::split_of(d, '\n');
        lemma_indented(d);
        text::lemma_split_nonempty(d, '\n');
        if t.last() == '\n' {
            assert(parts.drop_last() =~= before);
            assert(text::join_of(parts, sep) =~= text::join_of(before, sep) + sep);
        } else {
            assert(parts.drop_last() =~= before.drop_last());
            assert(text::join_of(parts, sep) =~= text::join_of(before, sep).push(t.last()));
        }
        assert(text::join_of(parts, sep) =~= indented_text(t));
    }
}

/// A text that holds another.
pub open spec fn shows(out: Seq<char>, words: Seq<char>) -> bool {
    exists|a: Seq<char>, b: Seq<char>| out == #[trigger] (a + words + b)
}

/// What the terminal has to show of an event: its words, in order.
pub open spec fn words_to_show(ev: ViewEvent) -> Seq<Seq<char>> {
    match ev {
        ViewEvent::UserPrompt(t) => seq![indented_text(t@)],
        ViewEvent::AssistantTextDelta(t) => seq![terminal_text(t@)],
        ViewEvent::AssistantThinkingDelta(t) => seq![terminal_text(t@)],
        ViewEvent::SlashOutput(t) => seq![terminal_text(t@)],
        ViewEvent::ErrorText(t) => seq![t@],
        ViewEvent::ContextWarning { label, .. } => seq![label@],
        ViewEvent::SkillModelNote(t) => seq![t@],
        ViewEvent::SideChannelStart { id, agent_name } => seq![agent_name@, id@],
        ViewEvent::SideChannelDone { id, agent_name, secs, result_text, .. } => seq![
            agent_name@,
            id@,
            secs@,
            terminal_text(result_text@),
        ],
        ViewEvent::SideChannelError { id, error } => seq![id@, error@],
        _ => Seq::empty(),
    }
}

proof fn lemma_held(a: Seq<char>, words: Seq<char>, b: Seq<char>, out: Seq<char>)
    requires
        out == a + words + b,
    ensures
        shows(out, words),
{
}

proof fn lemma_four_held(
    a: Seq<char>,
    w1: Seq<char>,
    b: Seq<char>,
    w2: Seq<char>,
    c: Seq<char>,
    w3: Seq<char>,
    d: Seq<char>,
    w4: Seq<char>,
    z: Seq<char>,
)
    ensures
        shows(a + w1 + b + w2 + c + w3 + d + w4 + z, w1),
        shows(a + w1 + b + w2 + c + w3 + d + w4 + z, w2),
        shows(a + w1 + b + w2 + c + w3 + d + w4 + z, w3),
        shows(a + w1 + b + w2 + c + w3 + d + w4 + z, w4),
{
    let out = a + w1 + b + w2 + c + w3 + d + w4 + z;
    assert(out =~= a + w1 + (b + w2 + c + w3 + d + w4 + z));
    assert(out =~= (a + w1 + b) + w2 + (c + w3 + d + w4 + z));
    assert(out =~= (a + w1 + b + w2 + c) + w3 + (d + w4 + z));
    lemma_held(a, w1, b + w2 + c + w3 + d + w4 + z, out);
    lemma_held(a + w1 + b, w2, c + w3 + d + w4 + z, out);
    lemma_held(a + w1 + b + w2 + c, w3, d + w4 + z, out);
    lemma_held(a + w1 + b + w2 + c + w3 + d, w4, z, out);
}

/// What the terminal shows of an event holds all words of the event; what the
/// model says goes out as it is, with no more than a new line before it where
/// a tool line or reasoning stands open, and an event of which the terminal
/// shows nothing has no words for it.
#[verifier::rlimit(60)]
pub proof fn terminal_shows_the_words(s: TerminalView, ev: ViewEvent, k: int)
    requires
        0 <= k < words_to_show(ev).len(),
    ensures
        terminal_step(s, ev).1 is Some,
        shows(terminal_step(s, ev).1->0, words_to_show(ev)[k]),
        s.pending_newline || (s.thinking && !(ev is AssistantThinkingDelta)) ==> text::has_prefix(
            terminal_step(s, ev).1->0,
            "\r\n"@,
        ),
        ev matches ViewEvent::AssistantTextDelta(t) ==> terminal_step(s, ev).1->0 == (
        if s.pending_newline {
            "\r\n"@
        } else {
            Seq::empty()
        }) + (if s.thinking {
            "\r\n"@
        } else {
            Seq::empty()
        }) + terminal_text(t@),
        terminal_step(s, ev).0.thinking == ev is AssistantThinkingDelta,
        !terminal_step(s, ev).0.pending_newline,
{
    let out = terminal_step(s, ev).1->0;
    let body = terminal_body(ev)->0;
    let thinking = ev is AssistantThinkingDelta;
    let lead = (if s.pending_newline {
        "\r\n"@
    } else {
        Seq::empty()
    }) + (if s.thinking && !thinking {
        "\r\n"@
    } else {
        Seq::empty()
    });
    assert(out == lead + body);
    if s.pending_newline || (s.thinking && !thinking) {
        assert(out.take("\r\n"@.len() as int) =~= "\r\n"@);
    }
    let e = Seq::<char>::empty();
    match ev {
        ViewEvent::UserPrompt(t) => {
            lemma_indented(t@);
            assert(out =~= (lead + "\x1b[2m> \x1b[0m"@) + indented_text(t@) + "\r\n"@);
            lemma_held(lead + "\x1b[2m> \x1b[0m"@, indented_text(t@), "\r\n"@, out);
        },
        ViewEvent::AssistantTextDelta(t) => {
            lemma_crlf(t@);
            assert(out =~= lead + terminal_text(t@) + e);
            lemma_held(lead, terminal_text(t@), e, out);
        },
        ViewEvent::AssistantThinkingDelta(t) => {
            lemma_crlf(t@);
            assert(out =~= (lead + "\x1b[2;3m"@) + terminal_text(t@) + "\x1b[0m"@);
            lemma_held(lead + "\x1b[2;3m"@, terminal_text(t@), "\x1b[0m"@, out);
        },
        ViewEvent::SlashOutput(t) => {
            lemma_crlf(t@);
            assert(out =~= (lead + "\x1b[2m"@) + terminal_text(t@) + "\x1b[0m\r\n"@);
            lemma_held(lead + "\x1b[2m"@, terminal_text(t@), "\x1b[0m\r\n"@, out);
        },
        ViewEvent::ErrorText(t) => {
            assert(out =~= (lead + "\r\n\x1b[31m"@) + t@ + "\x1b[0m\r\n"@);
            lemma_held(lead + "\r\n\x1b[31m"@, t@, "\x1b[0m\r\n"@, out);
        },
        ViewEvent::ContextWarning { label, .. } => {
            let a = lead + "\r\n\x1b[33m[ session "@;
            let b = " MB — /fork to continue in a new session with summary ]\x1b[0m\r\n"@;
            assert(out =~= a + label@ + b);
            lemma_held(a, label@, b, out);
        },
        ViewEvent::SkillModelNote(t) => {
            assert(out =~= (lead + "\r\n\x1b[2;3m"@) + t@ + "\x1b[0m\r\n"@);
            lemma_held(lead + "\r\n\x1b[2;3m"@, t@, "\x1b[0m\r\n"@, out);
        },
        ViewEvent::SideChannelStart { id, agent_name } => {
            let a = lead + "\r\n\x1b[2m[agent "@;
            let c = ") — running in background]\x1b[0m\r\n"@;
            assert(out =~= a + agent_name@ + (" ("@ + id@ + c));
            assert(out =~= (a + agent_name@ + " ("@) + id@ + c);
            lemma_held(a, agent_name@, " ("@ + id@ + c, out);
            lemma_held(a + agent_name@ + " ("@, id@, c, out);
        },
        ViewEvent::SideChannelDone { id, agent_name, secs, result_text, .. } => {
            let a = lead + "\r\n\x1b[36m[agent "@;
            let c = ") ✓ done in "@;
            let d = "s]\x1b[0m\r\n\x1b[2;3m"@;
            let w = terminal_text(result_text@);
            let z = "\x1b[0m\r\n"@;
            lemma_crlf(result_text@);
            assert(out =~= a + agent_name@ + " ("@ + id@ + c + secs@ + d + w + z);
            lemma_four_held(a, agent_name@, " ("@, id@, c, secs@, d, w, z);
        },
        ViewEvent::SideChannelError { id, error } => {
            let a = lead + "\r\n\x1b[31m[agent "@;
            let z = "]\x1b[0m\r\n"@;
            assert(out =~= a + id@ + (" ✗ "@ + error@ + z));
            assert(out =~= (a + id@ + " ✗ "@) + error@ + z);
            lemma_held(a, id@, " ✗ "@ + error@ + z, out);
            lemma_held(a + id@ + " ✗ "@, error@, z, out);
        },
        _ => {},
    }
}

/// A tool call shows on a line with its label, and its end ticks that line off
/// and says where the result comes from, where that is known.
pub proof fn terminal_shows_tool_calls(s: TerminalView, start: ViewEvent, end: ViewEvent)
    requires
        start is ToolCallStart,
        end is ToolCallResult,
        !(s.pending_newline && s.label == Some(start->ToolCallStart_label@) && s.count >= 1),
    ensures
        ({
            let label = start->ToolCallStart_label@;
            let a = terminal_step(s, start);
            let b = terminal_step(a.0, end);
            &&& a.1 is Some
            &&& text::has_prefix(a.1->0, "\r\n"@)
            &&& shows(a.1->0, "[tool: "@ + label + "]"@)
            &&& b.1 is Some
            &&& shows(b.1->0, "✓"@)
            &&& end->ToolCallResult_source matches Some(from) ==> shows(
                b.1->0,
                "(via "@ + from@ + ")"@,
            )
            &&& b.0 == (TerminalView {
                label: Some(label),
                count: 1,
                merging: false,
                pending_newline: true,
                thinking: false,
            })
        }),
{
    let label = start->ToolCallStart_label@;
    let a = terminal_step(s, start);
    let b = terminal_step(a.0, end);
    let source = end->ToolCallResult_source;
    let suffix = source_suffix(text::view_opt(source));
    reveal_strlit("\r\n");
    reveal_strlit("\r\n\x1b[2m[tool: ");
    reveal_strlit("\r\n\x1b[2m");
    reveal_strlit("[tool: ");
    reveal_strlit("]\x1b[0m");
    reveal_strlit("]");
    reveal_strlit("\x1b[0m");
    let words = "[tool: "@ + label + "]"@;
    assert(a.1->0.take(2) =~= "\r\n"@);
    assert(a.1->0 =~= "\r\n\x1b[2m"@ + words + "\x1b[0m"@);
    lemma_held("\r\n\x1b[2m"@, words, "\x1b[0m"@, a.1->0);
    reveal_strlit(" \x1b[32m✓\x1b[0m");
    reveal_strlit(" \x1b[32m");
    reveal_strlit("✓");
    assert(b.1->0 =~= " \x1b[32m"@ + "✓"@ + ("\x1b[0m"@ + suffix));
    lemma_held(" \x1b[32m"@, "✓"@, "\x1b[0m"@ + suffix, b.1->0);
    if let Some(from) = source {
        reveal_strlit(" \x1b[2m(via ");
        reveal_strlit(" \x1b[2m");
        reveal_strlit("(via ");
        reveal_strlit(")\x1b[0m");
        reveal_strlit(")");
        let told = "(via "@ + from@ + ")"@;
        let before = " \x1b[32m✓\x1b[0m"@ + " \x1b[2m"@;
        assert(b.1->0 =~= before + told + "\x1b[0m"@);
        lemma_held(before, told, "\x1b[0m"@, b.1->0);
    }
}

/// A tool that is called again right after itself has its line rewritten: the
/// line names it as before and says how often it has been called.
pub proof fn terminal_counts_repeated_calls(s: TerminalView, start: ViewEvent, end: ViewEvent)
    requires
        start is ToolCallStart,
        end is ToolCallResult,
        s.pending_newline,
        1 <= s.count < u32::MAX,
        s.label == Some(start->ToolCallStart_label@),
    ensures
        ({
            let b = terminal_step(terminal_step(s, start).0, end);
            &&& b.1 is Some
            &&& shows(b.1->0, "[tool: "@ + start->ToolCallStart_label@ + "]"@)
            &&& shows(b.1->0, "×"@ + text::decimal_of((s.count + 1) as nat))
            &&& end->ToolCallResult_source matches Some(from) ==> shows(
                b.1->0,
                "(via "@ + from@ + ")"@,
            )
        }),
{
    let label = start->ToolCallStart_label@;
    let out = terminal_step(terminal_step(s, start).0, end).1->0;
    let source = end->ToolCallResult_source;
    let suffix = source_suffix(text::view_opt(source));
    let n = text::decimal_of((s.count + 1) as nat);
    let a = "\r\x1b[2K\x1b[2m[tool: "@;
    let b = "]\x1b[0m \x1b[32m✓\x1b[0m"@;
    let c = " \x1b[2m×"@;
    let z = "\x1b[0m"@;
    assert(out =~= a + label + b + suffix + c + n + z);
    reveal_strlit("\r\x1b[2K\x1b[2m[tool: ");
    reveal_strlit("\r\x1b[2K\x1b[2m");
    reveal_strlit("[tool: ");
    reveal_strlit("]\x1b[0m \x1b[32m✓\x1b[0m");
    reveal_strlit("]");
    reveal_strlit("\x1b[0m \x1b[32m✓\x1b[0m");
    reveal_strlit(" \x1b[2m×");
    reveal_strlit(" \x1b[2m");
    reveal_strlit("×");
    assert(a =~= "\r\x1b[2K\x1b[2m"@ + "[tool: "@);
    assert(b =~= "]"@ + "\x1b[0m \x1b[32m✓\x1b[0m"@);
    assert(c =~= " \x1b[2m"@ + "×"@);
    let words = "[tool: "@ + label + "]"@;
    let count = "×"@ + n;
    assert(out =~= "\r\x1b[2K\x1b[2m"@ + words + ("\x1b[0m \x1b[32m✓\x1b[0m"@ + suffix + c + n
        + z));
    assert(out =~= (a + label + b + suffix + " \x1b[2m"@) + count + z);
    lemma_held(
        "\r\x1b[2K\x1b[2m"@,
        words,
        "\x1b[0m \x1b[32m✓\x1b[0m"@ + suffix + c + n + z,
        out,
    );
    lemma_held(a + label + b + suffix + " \x1b[2m"@, count, z, out);
    if let Some(from) = source {
        reveal_strlit(" \x1b[2m(via ");
        reveal_strlit("(via ");
        reveal_strlit(")\x1b[0m");
        reveal_strlit(")");
        reveal_strlit("\x1b[0m");
        let told = "(via "@ + from@ + ")"@;
        assert(suffix =~= " \x1b[2m"@ + told + z);
        assert(out =~= (a + label + b + " \x1b[2m"@) + told + (z + c + n + z));
        lemma_held(a + label + b + " \x1b[2m"@, told, z + c + n + z, out);
    }
}

/// What the terminal has to show of a line of a restored conversation.
pub open spec fn line_to_show(m: DisplayMessage) -> Seq<char> {
    if m.role@ == "user"@ {
        indented_text(m.content@)
    } else {
        terminal_text(m.content@)
    }
}

/// A restored conversation is shown with all its lines, in order: what is
/// shown of one line more begins with what is shown without it, and the rest
/// holds the line.
pub proof fn terminal_shows_restored_lines(m: Seq<DisplayMessage>, next: DisplayMessage)
    ensures
        ({
            let before = history_text(m);
            let after = history_text(m.push(next));
            &&& text::has_prefix(after, before)
            &&& shows(after.skip(before.len() as int), line_to_show(next))
        }),
{
    let before = history_text(m);
    let after = history_text(m.push(next));
    let first = m.len() == 0;
    let line = history_line(next, first);
    assert(m.push(next).drop_last() =~= m);
    assert(after == before + line);
    assert(after.take(before.len() as int) =~= before);
    assert(after.skip(before.len() as int) =~= line);
    lemma_indented(next.content@);
    lemma_crlf(next.content@);
    let e = Seq::<char>::empty();
    if next.role@ == "user"@ {
        let a = (if first {
            e
        } else {
            "\r\n"@
        }) + "\x1b[2m> \x1b[0m"@;
        assert(line =~= a + indented_text(next.content@) + "\r\n"@);
        lemma_held(a, indented_text(next.content@), "\r\n"@, line);
    } else if next.role@ == "assistant"@ {
        assert(line =~= e + terminal_text(next.content@) + "\r\n"@);
        lemma_held(e, terminal_text(next.content@), "\r\n"@, line);
    } else {
        assert(line =~= "\x1b[2m"@ + terminal_text(next.content@) + "\x1b[0m\r\n"@);
        lemma_held("\x1b[2m"@, terminal_text(next.content@), "\x1b[0m\r\n"@, line);
    }
}

/// An error text that ends with a document is shown as the words of the
/// provider: those of its upstream where they are there, else its own, and
/// marked where the provider limits the rate. A text without such words is
/// shown as it is.
pub proof fn provider_words_are_shown(lead: Seq<char>, rest: Seq<char>, doc: JsonView, m: Seq<char>)
    requires
        !lead.contains('{'),
        rest.len() > 0,
        rest[0] == '{',
        json::json_parse(rest) == Ok::<JsonView, Seq<char>>(doc),
        doc.get("error"@) is Some,
    ensures
        ({
            let e = doc.get("error"@)->0;
            let raw = match e.get("metadata"@) {
                Some(d) => d.get("raw"@),
                None => None,
            };
            let limited = e.get("code"@) == Some(JsonView::num(429));
            let said = raw == Some(JsonView::Str(m)) || (!(raw matches Some(JsonView::Str(_)))
                && e.get("message"@) == Some(JsonView::Str(m)));
            said ==> humanized(lead + rest) == if limited {
                "Rate limited: "@ + m
            } else {
                m
            }
        }),
        !(doc.get("error"@)->0.get("message"@) matches Some(JsonView::Str(_))) && doc.get(
            "error"@,
        )->0.get("metadata"@) is None ==> humanized(lead + rest) == lead + rest,
{
    let s = lead + rest;
    assert forall|k: int| 0 <= k < lead.len() implies #[trigger] s[k] != '{' by {
        assert(lead[k] == s[k]);
        if lead[k] == '{' {
            assert(lead.contains('{'));
        }
    }
    lemma_document_start(s, lead.len() as int);
    assert(s.skip(lead.len() as int) =~= rest);
}

/// A text without a brace is shown as it is.
pub proof fn plain_errors_are_shown_as_they_are(raw: Seq<char>)
    requires
        !raw.contains('{'),
    ensures
        humanized(raw) == raw,
{
    assert forall|k: int| 0 <= k < raw.len() implies #[trigger] raw[k] != '{' by {
        if raw[k] == '{' {
            assert(raw.contains('{'));
        }
    }
    lemma_document_start(raw, raw.len() as int);
}

} // verus!
