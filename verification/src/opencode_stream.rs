//! Answers of the OpenCode Go gateway: cutting the byte stream into events,
//! and reading the events of each wire format.

use vstd::prelude::*;

use crate::ansi;
use crate::json::{self, Json, JsonNumber, JsonView};
use crate::opencode_go::{self, WireFormat};
use crate::text;
use crate::types::{Error, ErrorView, Usage};

verus! {

/// What a provider's stream says.
#[allow(inconsistent_fields)]
#[derive(Debug, PartialEq, Eq)]
pub enum ProviderEvent {
    MessageStart { model: String },
    TextDelta(String),
    ThinkingDelta(String),
    ToolUseStart { id: String, name: String, thought_signature: Option<String> },
    ToolUseDelta { partial_json: String },
    ContentBlockStop,
    MessageStop { stop_reason: Option<String>, usage: Option<Usage> },
}

#[allow(inconsistent_fields)]
#[verifier::ext_equal]
pub enum ProviderEventView {
    MessageStart { model: Seq<char> },
    TextDelta(Seq<char>),
    ThinkingDelta(Seq<char>),
    ToolUseStart { id: Seq<char>, name: Seq<char>, thought_signature: Option<Seq<char>> },
    ToolUseDelta { partial_json: Seq<char> },
    ContentBlockStop,
    MessageStop { stop_reason: Option<Seq<char>>, usage: Option<Usage> },
}

impl View for ProviderEvent {
    type V = ProviderEventView;

    open spec fn view(&self) -> ProviderEventView {
        match self {
            ProviderEvent::MessageStart { model } => ProviderEventView::MessageStart {
                model: model@,
            },
            ProviderEvent::TextDelta(s) => ProviderEventView::TextDelta(s@),
            ProviderEvent::ThinkingDelta(s) => ProviderEventView::ThinkingDelta(s@),
            ProviderEvent::ToolUseStart { id, name, thought_signature } =>
                ProviderEventView::ToolUseStart {
                id: id@,
                name: name@,
                thought_signature: text::view_opt(*thought_signature),
            },
            ProviderEvent::ToolUseDelta { partial_json } => ProviderEventView::ToolUseDelta {
                partial_json: partial_json@,
            },
            ProviderEvent::ContentBlockStop => ProviderEventView::ContentBlockStop,
            ProviderEvent::MessageStop { stop_reason, usage } => ProviderEventView::MessageStop {
                stop_reason: text::view_opt(*stop_reason),
                usage: *usage,
            },
        }
    }
}

// ---------------------------------------------------------------------------
// Reading JSON
// ---------------------------------------------------------------------------

/// The member `key` of an optional value.
pub open spec fn at(v: Option<JsonView>, key: Seq<char>) -> Option<JsonView> {
    match v {
        Some(j) => j.get(key),
        None => None,
    }
}

/// The text that an optional value is.
pub open spec fn text_of(v: Option<JsonView>) -> Option<Seq<char>> {
    match v {
        Some(j) => j.as_text(),
        None => None,
    }
}

/// The text that an optional value is, or no text.
pub open spec fn text_or_empty(v: Option<JsonView>) -> Seq<char> {
    match text_of(v) {
        Some(s) => s,
        None => Seq::empty(),
    }
}

/// The unsigned integer that an optional value is.
pub open spec fn u64_of(v: Option<JsonView>) -> Option<u64> {
    match v {
        Some(j) => j.as_u64(),
        None => None,
    }
}

/// The signed integer that an optional value is.
pub open spec fn i64_of(v: Option<JsonView>) -> Option<i64> {
    match v {
        Some(JsonView::Num(JsonNumber::Pos(n))) => if n <= i64::MAX {
            Some(n as i64)
        } else {
            None
        },
        Some(JsonView::Num(JsonNumber::Neg(n))) => Some(n),
        _ => None,
    }
}

/// The low 32 bits of a count that may be absent.
pub open spec fn low32(n: Option<u64>) -> Option<u32> {
    match n {
        Some(x) => Some(#[verifier::truncate] (x as u32)),
        None => None,
    }
}

pub open spec fn or_zero(n: Option<u64>) -> u64 {
    match n {
        Some(x) => x,
        None => 0,
    }
}

fn get_in<'a>(v: Option<&'a Json>, key: &str) -> (r: Option<&'a Json>)
    ensures
        opt_ref(r) == at(opt_ref(v), key@),
{
    match v {
        Some(j) => j.get(key),
        None => None,
    }
}

/// The tree of an optional value.
pub open spec fn opt_ref(v: Option<&Json>) -> Option<JsonView> {
    match v {
        Some(j) => Some(j@),
        None => None,
    }
}

fn text_or_none(v: Option<&Json>) -> (r: Option<String>)
    ensures
        text::view_opt(r) == text_of(opt_ref(v)),
{
    match v {
        Some(j) => match j.as_str() {
            Some(s) => Some(s.to_string()),
            None => None,
        },
        None => None,
    }
}

fn text_or_default(v: Option<&Json>) -> (r: String)
    ensures
        r@ == text_or_empty(opt_ref(v)),
{
    match text_or_none(v) {
        Some(s) => s,
        None => String::new(),
    }
}

fn u64_in(v: Option<&Json>) -> (r: Option<u64>)
    ensures
        r == u64_of(opt_ref(v)),
{
    match v {
        Some(j) => j.as_u64(),
        None => None,
    }
}

fn i64_in(v: Option<&Json>) -> (r: Option<i64>)
    ensures
        r == i64_of(opt_ref(v)),
{
    match v {
        Some(Json::Num(JsonNumber::Pos(n))) => if *n <= 0x7fff_ffff_ffff_ffff {
            Some(*n as i64)
        } else {
            None
        },
        Some(Json::Num(JsonNumber::Neg(n))) => Some(*n),
        _ => None,
    }
}

fn low_bits(n: Option<u64>) -> (r: Option<u32>)
    ensures
        r == low32(n),
{
    match n {
        Some(x) => Some(#[verifier::truncate] (x as u32)),
        None => None,
    }
}

/// The message of an upstream error document.
pub open spec fn upstream_error(doc: JsonView) -> ErrorView {
    ErrorView::Provider(
        "upstream error: "@ + (match text_of(at(doc.get("error"@), "message"@)) {
            Some(m) => m,
            None => "upstream error"@,
        }),
    )
}

fn upstream_failure(doc: &Json) -> (r: Error)
    ensures
        r@ == upstream_error(doc@),
{
    let mut m = "upstream error: ".to_string();
    match text_or_none(get_in(doc.get("error"), "message")) {
        Some(s) => {
            m.append(s.as_str());
        },
        None => {
            m.append("upstream error");
        },
    }
    Error::Provider(m)
}

fn parse_failure(e: &str) -> (r: Error)
    ensures
        r@ == ErrorView::Provider("json parse: "@ + e@),
{
    let mut m = "json parse: ".to_string();
    m.append(e);
    Error::Provider(m)
}

// ---------------------------------------------------------------------------
// Events in the OpenAI format
// ---------------------------------------------------------------------------

/// What has to be remembered between the events of one answer.
#[derive(Clone, Copy, Debug, PartialEq, Eq, Structural)]
pub struct OpenaiParseState {
    pub seen_message_start: bool,
    /// The tool call whose input is coming in.
    pub active_tool_index: Option<i64>,
    pub emitted_message_stop: bool,
}

impl Default for OpenaiParseState {
    fn default() -> (r: OpenaiParseState)
        ensures
            r == (OpenaiParseState {
                seen_message_start: false,
                active_tool_index: None,
                emitted_message_stop: false,
            }),
    {
        OpenaiParseState {
            seen_message_start: false,
            active_tool_index: None,
            emitted_message_stop: false,
        }
    }
}

/// A parse state and the events read so far.
#[verifier::ext_equal]
pub struct Parsed {
    pub state: OpenaiParseState,
    pub events: Seq<ProviderEventView>,
}

impl Parsed {
    pub open spec fn emit(self, e: ProviderEventView) -> Parsed {
        Parsed { events: self.events.push(e), ..self }
    }

    pub open spec fn emit_if(self, cond: bool, e: ProviderEventView) -> Parsed {
        if cond {
            self.emit(e)
        } else {
            self
        }
    }
}

/// The tokens that an answer used. Tokens read from the cache do not count as
/// input.
pub open spec fn openai_usage(u: JsonView) -> Usage {
    let details = u.get("prompt_tokens_details"@);
    let cached = match u64_of(at(details, "cached_tokens"@)) {
        Some(n) => Some(n),
        None => u64_of(u.get("prompt_cache_hit_tokens"@)),
    };
    let input = or_zero(u64_of(u.get("prompt_tokens"@)));
    let uncached = if input > or_zero(cached) {
        (input - or_zero(cached)) as u64
    } else {
        0
    };
    Usage {
        input_tokens: low32(Some(uncached))->0,
        output_tokens: low32(Some(or_zero(u64_of(u.get("completion_tokens"@)))))->0,
        cache_creation_input_tokens: low32(u64_of(at(details, "cache_creation_tokens"@))),
        cache_read_input_tokens: low32(cached),
        reasoning_output_tokens: None,
    }
}

/// The usage of a document, where it has one.
pub open spec fn openai_usage_opt(doc: JsonView) -> Option<Usage> {
    match doc.get("usage"@) {
        Some(u) => Some(openai_usage(u)),
        None => None,
    }
}

/// One piece of a tool call. The first piece of a call names the tool; its id
/// counts only there. A piece of another call closes the one before.
pub open spec fn tool_piece(p: Parsed, tc: JsonView) -> Parsed {
    let name = text_or_empty(at(tc.get("function"@), "name"@));
    let id = if name.len() > 0 {
        text_or_empty(tc.get("id"@))
    } else {
        Seq::empty()
    };
    let args = text_or_empty(at(tc.get("function"@), "arguments"@));
    let a = match i64_of(tc.get("index"@)) {
        Some(i) => {
            let closed = p.emit_if(
                p.state.active_tool_index is Some && p.state.active_tool_index != Some(i),
                ProviderEventView::ContentBlockStop,
            );
            Parsed {
                state: OpenaiParseState { active_tool_index: Some(i), ..closed.state },
                ..closed
            }
        },
        None => p,
    };
    a.emit_if(
        id.len() > 0 || name.len() > 0,
        ProviderEventView::ToolUseStart { id, name, thought_signature: None },
    ).emit_if(args.len() > 0, ProviderEventView::ToolUseDelta { partial_json: args })
}

pub open spec fn tool_pieces(p: Parsed, tcs: Seq<JsonView>) -> Parsed
    decreases tcs.len(),
{
    if tcs.len() == 0 {
        p
    } else {
        tool_piece(tool_pieces(p, tcs.drop_last()), tcs.last())
    }
}

/// The end of an answer; told once.
pub open spec fn stop(p: Parsed, reason: Seq<char>, usage: Option<Usage>) -> Parsed {
    if p.state.emitted_message_stop {
        p
    } else {
        Parsed {
            state: OpenaiParseState { emitted_message_stop: true, ..p.state },
            events: p.events.push(
                ProviderEventView::MessageStop { stop_reason: Some(reason), usage },
            ),
        }
    }
}

/// One choice of an event.
pub open spec fn choice_step(p: Parsed, choice: JsonView, doc: JsonView) -> Parsed {
    let delta = choice.get("delta"@);
    let a = match at(delta, "tool_calls"@) {
        Some(JsonView::Arr(tcs)) => tool_pieces(p, tcs),
        _ => p,
    };
    let words = text_or_empty(at(delta, "content"@));
    let reasoning = text_or_empty(at(delta, "reasoning_content"@));
    let b = a.emit_if(words.len() > 0, ProviderEventView::TextDelta(words)).emit_if(
        reasoning.len() > 0,
        ProviderEventView::ThinkingDelta(reasoning),
    );
    match text_of(choice.get("finish_reason"@)) {
        Some(reason) => {
            let closed = b.emit_if(
                b.state.active_tool_index is Some,
                ProviderEventView::ContentBlockStop,
            );
            stop(
                Parsed {
                    state: OpenaiParseState { active_tool_index: None, ..closed.state },
                    ..closed
                },
                reason,
                openai_usage_opt(doc),
            )
        },
        None => b,
    }
}

pub open spec fn choice_steps(p: Parsed, choices: Seq<JsonView>, doc: JsonView) -> Parsed
    decreases choices.len(),
{
    if choices.len() == 0 {
        p
    } else {
        choice_step(choice_steps(p, choices.drop_last(), doc), choices.last(), doc)
    }
}

/// The choices of an event; none where there is no list of them.
pub open spec fn choices_of(doc: JsonView) -> Seq<JsonView> {
    match doc.get("choices"@) {
        Some(JsonView::Arr(c)) => c,
        _ => Seq::empty(),
    }
}

/// What an event document says.
pub open spec fn openai_document(s: OpenaiParseState, doc: JsonView) -> Result<Parsed, ErrorView> {
    if doc.get("error"@) is Some {
        Err(upstream_error(doc))
    } else {
        let start = Parsed { state: s, events: Seq::empty() };
        let a = if s.seen_message_start {
            start
        } else {
            Parsed {
                state: OpenaiParseState { seen_message_start: true, ..s },
                events: seq![
                    ProviderEventView::MessageStart { model: text_or_empty(doc.get("model"@)) },
                ],
            }
        };
        let b = choice_steps(a, choices_of(doc), doc);
        if choices_of(doc).len() == 0 && doc.get("usage"@) is Some {
            Ok(stop(b, "stop"@, openai_usage_opt(doc)))
        } else {
            Ok(b)
        }
    }
}

/// The data of an event text; none where it carries none.
pub open spec fn event_data(raw: Seq<char>) -> Option<Seq<char>> {
    let t = text::trim_of(raw);
    if t.len() == 0 || t == "data: [DONE]"@ {
        None
    } else if text::has_prefix(t, "data: "@) {
        Some(t.skip("data: "@.len() as int))
    } else if text::has_prefix(t, "data:"@) {
        Some(t.skip("data:"@.len() as int))
    } else {
        None
    }
}

/// What an event text says; a text without data says nothing.
pub open spec fn openai_chunk(s: OpenaiParseState, raw: Seq<char>) -> Result<Parsed, ErrorView> {
    match event_data(raw) {
        None => Ok(Parsed { state: s, events: Seq::empty() }),
        Some(data) => match json::json_parse(data) {
            Ok(doc) => openai_document(s, doc),
            Err(e) => Err(ErrorView::Provider("json parse: "@ + e)),
        },
    }
}

fn read_usage(u: &Json) -> (r: Usage)
    ensures
        r == openai_usage(u@),
{
    let details = u.get("prompt_tokens_details");
    let cached = match u64_in(get_in(details, "cached_tokens")) {
        Some(n) => Some(n),
        None => u64_in(u.get("prompt_cache_hit_tokens")),
    };
    let cached_count: u64 = match cached {
        Some(n) => n,
        None => 0,
    };
    let input: u64 = match u64_in(u.get("prompt_tokens")) {
        Some(n) => n,
        None => 0,
    };
    let output: u64 = match u64_in(u.get("completion_tokens")) {
        Some(n) => n,
        None => 0,
    };
    Usage {
        input_tokens: #[verifier::truncate] (input.saturating_sub(cached_count) as u32),
        output_tokens: #[verifier::truncate] (output as u32),
        cache_creation_input_tokens: low_bits(u64_in(get_in(details, "cache_creation_tokens"))),
        cache_read_input_tokens: low_bits(cached),
        reasoning_output_tokens: None,
    }
}

fn read_usage_opt(doc: &Json) -> (r: Option<Usage>)
    ensures
        r == openai_usage_opt(doc@),
{
    match doc.get("usage") {
        Some(u) => Some(read_usage(u)),
        None => None,
    }
}

fn read_tool_piece(state: &mut OpenaiParseState, events: &mut Vec<ProviderEvent>, tc: &Json)
    ensures
        (Parsed { state: *final(state), events: text::views(final(events)@) }) == tool_piece(
            Parsed { state: *old(state), events: text::views(old(events)@) },
            tc@,
        ),
{
    broadcast use text::views_push;

    let function = tc.get("function");
    let name = text_or_default(get_in(function, "name"));
    let id = if name.as_str().is_empty() {
        String::new()
    } else {
        text_or_default(tc.get("id"))
    };
    let args = text_or_default(get_in(function, "arguments"));
    if let Some(i) = i64_in(tc.get("index")) {
        if let Some(active) = state.active_tool_index {
            if active != i {
                events.push(ProviderEvent::ContentBlockStop);
            }
        }
        state.active_tool_index = Some(i);
    }
    if !id.as_str().is_empty() || !name.as_str().is_empty() {
        events.push(ProviderEvent::ToolUseStart { id, name, thought_signature: None });
    }
    if !args.as_str().is_empty() {
        events.push(ProviderEvent::ToolUseDelta { partial_json: args });
    }
}

fn read_tool_pieces(state: &mut OpenaiParseState, events: &mut Vec<ProviderEvent>, tcs: &Vec<Json>)
    ensures
        (Parsed { state: *final(state), events: text::views(final(events)@) }) == tool_pieces(
            Parsed { state: *old(state), events: text::views(old(events)@) },
            text::views(tcs@),
        ),
{
    let ghost start = Parsed { state: *state, events: text::views(events@) };
    let ghost all = text::views(tcs@);
    let mut i: usize = 0;
    while i < tcs.len()
        invariant
            i <= tcs@.len(),
            all == text::views(tcs@),
            (Parsed { state: *state, events: text::views(events@) }) == tool_pieces(
                start,
                all.take(i as int),
            ),
        decreases tcs@.len() - i,
    {
        proof {
            assert(all.take(i + 1).drop_last() == all.take(i as int));
            assert(all.take(i + 1).last() == tcs@[i as int]@);
        }
        read_tool_piece(state, events, &tcs[i]);
        i = i + 1;
    }
    proof {
        assert(all.take(i as int) == all);
    }
}

fn read_stop(
    state: &mut OpenaiParseState,
    events: &mut Vec<ProviderEvent>,
    reason: String,
    usage: Option<Usage>,
)
    ensures
        (Parsed { state: *final(state), events: text::views(final(events)@) }) == stop(
            Parsed { state: *old(state), events: text::views(old(events)@) },
            reason@,
            usage,
        ),
{
    broadcast use text::views_push;

    if !state.emitted_message_stop {
        state.emitted_message_stop = true;
        events.push(ProviderEvent::MessageStop { stop_reason: Some(reason), usage });
    }
}

fn read_choice(
    state: &mut OpenaiParseState,
    events: &mut Vec<ProviderEvent>,
    choice: &Json,
    doc: &Json,
)
    ensures
        (Parsed { state: *final(state), events: text::views(final(events)@) }) == choice_step(
            Parsed { state: *old(state), events: text::views(old(events)@) },
            choice@,
            doc@,
        ),
{
    broadcast use text::views_push;

    let delta = choice.get("delta");
    let calls = get_in(delta, "tool_calls");
    match calls {
        Some(Json::Arr(tcs)) => {
            proof {
                assert(opt_ref(calls)->0.items() =~= text::views(tcs@));
            }
            read_tool_pieces(state, events, tcs);
        },
        _ => {},
    }
    let words = text_or_default(get_in(delta, "content"));
    if !words.as_str().is_empty() {
        events.push(ProviderEvent::TextDelta(words));
    }
    let reasoning = text_or_default(get_in(delta, "reasoning_content"));
    if !reasoning.as_str().is_empty() {
        events.push(ProviderEvent::ThinkingDelta(reasoning));
    }
    if let Some(reason) = text_or_none(choice.get("finish_reason")) {
        if state.active_tool_index.is_some() {
            events.push(ProviderEvent::ContentBlockStop);
        }
        state.active_tool_index = None;
        read_stop(state, events, reason, read_usage_opt(doc));
    }
}

/// Reads one event document of an answer in the OpenAI format.
pub fn read_openai_document(state: &mut OpenaiParseState, doc: &Json) -> (r: Result<
    Vec<ProviderEvent>,
    Error,
>)
    ensures
        match r {
            Ok(events) => openai_document(*old(state), doc@) == Ok::<Parsed, ErrorView>(
                Parsed { state: *final(state), events: text::views(events@) },
            ),
            Err(e) => openai_document(*old(state), doc@) == Err::<Parsed, ErrorView>(e@)
                && *final(state) == *old(state),
        },
{
    broadcast use text::views_push;

    if doc.get("error").is_some() {
        return Err(upstream_failure(doc));
    }
    let ghost s = *state;
    let mut events: Vec<ProviderEvent> = Vec::new();
    proof {
        assert(text::views(events@) =~= Seq::<ProviderEventView>::empty());
    }
    if !state.seen_message_start {
        state.seen_message_start = true;
        let model = text_or_default(doc.get("model"));
        let ghost m = model@;
        events.push(ProviderEvent::MessageStart { model });
        proof {
            assert(text::views(events@) =~= seq![ProviderEventView::MessageStart { model: m }]);
        }
    }
    let ghost a = Parsed { state: *state, events: text::views(events@) };
    let ghost all = choices_of(doc@);
    let mut empty = true;
    match doc.get("choices") {
        Some(Json::Arr(choices)) => {
            proof {
                assert(doc@.get("choices"@)->0.items() =~= text::views(choices@));
            }
            empty = choices.is_empty();
            let mut i: usize = 0;
            while i < choices.len()
                invariant
                    i <= choices@.len(),
                    all == text::views(choices@),
                    (Parsed { state: *state, events: text::views(events@) }) == choice_steps(
                        a,
                        all.take(i as int),
                        doc@,
                    ),
                decreases choices@.len() - i,
            {
                proof {
                    assert(all.take(i + 1).drop_last() == all.take(i as int));
                    assert(all.take(i + 1).last() == choices@[i as int]@);
                }
                read_choice(state, &mut events, &choices[i], doc);
                i = i + 1;
            }
            proof {
                assert(all.take(i as int) == all);
            }
        },
        _ => {},
    }
    if empty && doc.get("usage").is_some() {
        read_stop(state, &mut events, "stop".to_string(), read_usage_opt(doc));
    }
    Ok(events)
}

impl opencode_go::OpencodeGoProvider {
    /// Reads one event text of an answer in the OpenAI format.
    pub fn parse_openai_chunk(raw: &str, state: &mut OpenaiParseState) -> (r: Result<
        Vec<ProviderEvent>,
        Error,
    >)
        ensures
            match r {
                Ok(events) => openai_chunk(*old(state), raw@) == Ok::<Parsed, ErrorView>(
                    Parsed { state: *final(state), events: text::views(events@) },
                ),
                Err(e) => openai_chunk(*old(state), raw@) == Err::<Parsed, ErrorView>(e@)
                    && *final(state) == *old(state),
            },
    {
        let trimmed = text::trim(raw);
        let nothing: Vec<ProviderEvent> = Vec::new();
        proof {
            assert(text::views(nothing@) =~= Seq::<ProviderEventView>::empty());
        }
        if trimmed.is_empty() || text::same(trimmed, "data: [DONE]") {
            return Ok(nothing);
        }
        let data = match text::strip_prefix(trimmed, "data: ") {
            Some(d) => d,
            None => match text::strip_prefix(trimmed, "data:") {
                Some(d) => d,
                None => {
                    return Ok(nothing);
                },
            },
        };
        match json::parse_json(data) {
            Ok(doc) => read_openai_document(state, &doc),
            Err(e) => Err(parse_failure(e.as_str())),
        }
    }
}

impl OpenaiParseState {
    /// What is left to say when the stream ends.
    pub fn flush_eof(&mut self) -> (r: Vec<ProviderEvent>)
        ensures
            text::views(r@) == if old(self).active_tool_index is Some {
                seq![ProviderEventView::ContentBlockStop]
            } else {
                Seq::empty()
            },
            *final(self) == (OpenaiParseState { active_tool_index: None, ..*old(self) }),
    {
        let mut out: Vec<ProviderEvent> = Vec::new();
        if self.active_tool_index.is_some() {
            out.push(ProviderEvent::ContentBlockStop);
        }
        self.active_tool_index = None;
        proof {
            assert(text::views(out@) =~= if old(self).active_tool_index is Some {
                seq![ProviderEventView::ContentBlockStop]
            } else {
                Seq::empty()
            });
        }
        out
    }
}

// ---------------------------------------------------------------------------
// Events in the Anthropic format
// ---------------------------------------------------------------------------

/// The name and the data of an event, each from the last line that gives it.
#[verifier::ext_equal]
pub struct EventLines {
    pub name: Option<Seq<char>>,
    pub data: Option<Seq<char>>,
}

pub open spec fn line_step(e: EventLines, line: Seq<char>) -> EventLines {
    if text::has_prefix(line, "event: "@) {
        EventLines { name: Some(line.skip("event: "@.len() as int)), ..e }
    } else if text::has_prefix(line, "data: "@) {
        EventLines { data: Some(line.skip("data: "@.len() as int)), ..e }
    } else if text::has_prefix(line, "data:"@) {
        EventLines { data: Some(line.skip("data:"@.len() as int)), ..e }
    } else {
        e
    }
}

pub open spec fn event_lines(lines: Seq<Seq<char>>) -> EventLines
    decreases lines.len(),
{
    if lines.len() == 0 {
        EventLines { name: None, data: None }
    } else {
        line_step(event_lines(lines.drop_last()), lines.last())
    }
}

pub open spec fn anthropic_usage(u: JsonView) -> Usage {
    Usage {
        input_tokens: low32(Some(or_zero(u64_of(u.get("input_tokens"@)))))->0,
        output_tokens: low32(Some(or_zero(u64_of(u.get("output_tokens"@)))))->0,
        cache_creation_input_tokens: low32(u64_of(u.get("cache_creation_input_tokens"@))),
        cache_read_input_tokens: low32(u64_of(u.get("cache_read_input_tokens"@))),
        reasoning_output_tokens: None,
    }
}

/// What an event document says.
pub open spec fn anthropic_document(doc: JsonView) -> Result<Option<ProviderEventView>, ErrorView> {
    let kind = text_or_empty(doc.get("type"@));
    if doc.get("error"@) is Some {
        Err(upstream_error(doc))
    } else if kind == "message_start"@ {
        Ok(
            Some(
                ProviderEventView::MessageStart {
                    model: text_or_empty(at(doc.get("message"@), "model"@)),
                },
            ),
        )
    } else if kind == "content_block_start"@ {
        let block = doc.get("content_block"@);
        if text_or_empty(at(block, "type"@)) == "tool_use"@ {
            Ok(
                Some(
                    ProviderEventView::ToolUseStart {
                        id: text_or_empty(at(block, "id"@)),
                        name: text_or_empty(at(block, "name"@)),
                        thought_signature: None,
                    },
                ),
            )
        } else {
            Ok(None)
        }
    } else if kind == "content_block_delta"@ {
        let delta = doc.get("delta"@);
        let dt = text_or_empty(at(delta, "type"@));
        if dt == "text_delta"@ {
            Ok(Some(ProviderEventView::TextDelta(text_or_empty(at(delta, "text"@)))))
        } else if dt == "input_json_delta"@ {
            Ok(
                Some(
                    ProviderEventView::ToolUseDelta {
                        partial_json: text_or_empty(at(delta, "partial_json"@)),
                    },
                ),
            )
        } else {
            Ok(None)
        }
    } else if kind == "content_block_stop"@ {
        Ok(Some(ProviderEventView::ContentBlockStop))
    } else if kind == "message_delta"@ {
        Ok(
            Some(
                ProviderEventView::MessageStop {
                    stop_reason: text_of(at(doc.get("delta"@), "stop_reason"@)),
                    usage: match doc.get("usage"@) {
                        Some(u) => Some(anthropic_usage(u)),
                        None => None,
                    },
                },
            ),
        )
    } else {
        Ok(None)
    }
}

/// The data of an event text that has to be read.
pub open spec fn anthropic_data(raw: Seq<char>) -> Option<Seq<char>> {
    let e = event_lines(text::lines_of(text::trim_of(raw)));
    if e.name == Some("ping"@) || e.name == Some("message_stop"@) {
        None
    } else {
        e.data
    }
}

/// What an event text says.
pub open spec fn anthropic_chunk(raw: Seq<char>) -> Result<Option<ProviderEventView>, ErrorView> {
    match anthropic_data(raw) {
        None => Ok(None),
        Some(data) => match json::json_parse(data) {
            Ok(doc) => anthropic_document(doc),
            Err(e) => Err(ErrorView::Provider("json parse: "@ + e)),
        },
    }
}

/// Reads one event document of an answer in the Anthropic format.
pub fn read_anthropic_document(doc: &Json) -> (r: Result<Option<ProviderEvent>, Error>)
    ensures
        match r {
            Ok(e) => anthropic_document(doc@) == Ok::<Option<ProviderEventView>, ErrorView>(
                text::view_opt(e),
            ),
            Err(e) => anthropic_document(doc@) == Err::<Option<ProviderEventView>, ErrorView>(e@),
        },
{
    if doc.get("error").is_some() {
        return Err(upstream_failure(doc));
    }
    let kind_text = text_or_default(doc.get("type"));
    let kind = kind_text.as_str();
    if text::same(kind, "message_start") {
        let model = text_or_default(get_in(doc.get("message"), "model"));
        Ok(Some(ProviderEvent::MessageStart { model }))
    } else if text::same(kind, "content_block_start") {
        let block = doc.get("content_block");
        if text::same(text_or_default(get_in(block, "type")).as_str(), "tool_use") {
            Ok(
                Some(
                    ProviderEvent::ToolUseStart {
                        id: text_or_default(get_in(block, "id")),
                        name: text_or_default(get_in(block, "name")),
                        thought_signature: None,
                    },
                ),
            )
        } else {
            Ok(None)
        }
    } else if text::same(kind, "content_block_delta") {
        let delta = doc.get("delta");
        let dt = text_or_default(get_in(delta, "type"));
        if text::same(dt.as_str(), "text_delta") {
            Ok(Some(ProviderEvent::TextDelta(text_or_default(get_in(delta, "text")))))
        } else if text::same(dt.as_str(), "input_json_delta") {
            let partial_json = text_or_default(get_in(delta, "partial_json"));
            Ok(Some(ProviderEvent::ToolUseDelta { partial_json }))
        } else {
            Ok(None)
        }
    } else if text::same(kind, "content_block_stop") {
        Ok(Some(ProviderEvent::ContentBlockStop))
    } else if text::same(kind, "message_delta") {
        let stop_reason = text_or_none(get_in(doc.get("delta"), "stop_reason"));
        let usage = match doc.get("usage") {
            Some(u) => {
                let input: u64 = match u64_in(u.get("input_tokens")) {
                    Some(n) => n,
                    None => 0,
                };
                let output: u64 = match u64_in(u.get("output_tokens")) {
                    Some(n) => n,
                    None => 0,
                };
                Some(
                    Usage {
                        input_tokens: #[verifier::truncate] (input as u32),
                        output_tokens: #[verifier::truncate] (output as u32),
                        cache_creation_input_tokens: low_bits(
                            u64_in(u.get("cache_creation_input_tokens")),
                        ),
                        cache_read_input_tokens: low_bits(u64_in(u.get("cache_read_input_tokens"))),
                        reasoning_output_tokens: None,
                    },
                )
            },
            None => None,
        };
        Ok(Some(ProviderEvent::MessageStop { stop_reason, usage }))
    } else {
        Ok(None)
    }
}

fn opt_is(s: &Option<String>, t: &str) -> (r: bool)
    ensures
        r == (text::view_opt(*s) == Some(t@)),
{
    match s {
        Some(x) => text::same(x.as_str(), t),
        None => false,
    }
}

impl opencode_go::OpencodeGoProvider {
    /// Reads one event text of an answer in the Anthropic format.
    pub fn parse_anthropic_chunk(raw: &str) -> (r: Result<Option<ProviderEvent>, Error>)
        ensures
            match r {
                Ok(e) => anthropic_chunk(raw@) == Ok::<Option<ProviderEventView>, ErrorView>(
                    text::view_opt(e),
                ),
                Err(e) => anthropic_chunk(raw@) == Err::<Option<ProviderEventView>, ErrorView>(
                    e@,
                ),
            },
    {
        let lines = text::lines(text::trim(raw));
        let ghost all = text::lines_of(text::trim_of(raw@));
        let mut name: Option<String> = None;
        let mut data: Option<String> = None;
        let mut i: usize = 0;
        while i < lines.len()
            invariant
                i <= lines@.len(),
                all == text::views(lines@),
                (EventLines { name: text::view_opt(name), data: text::view_opt(data) })
                    == event_lines(all.take(i as int)),
            decreases lines@.len() - i,
        {
            let line = lines[i].as_str();
            proof {
                assert(all.take(i + 1).drop_last() == all.take(i as int));
                assert(all.take(i + 1).last() == line@);
            }
            if let Some(rest) = text::strip_prefix(line, "event: ") {
                name = Some(rest.to_string());
            } else if let Some(rest) = text::strip_prefix(line, "data: ") {
                data = Some(rest.to_string());
            } else if let Some(rest) = text::strip_prefix(line, "data:") {
                data = Some(rest.to_string());
            }
            i = i + 1;
        }
        proof {
            assert(all.take(i as int) == all);
        }
        let data = match data {
            Some(d) => d,
            None => {
                return Ok(None);
            },
        };
        if opt_is(&name, "ping") || opt_is(&name, "message_stop") {
            return Ok(None);
        }
        match json::parse_json(data.as_str()) {
            Ok(doc) => read_anthropic_document(&doc),
            Err(e) => Err(parse_failure(e.as_str())),
        }
    }
}

// ---------------------------------------------------------------------------
// Cutting the stream
// ---------------------------------------------------------------------------

/// An empty line starts at position `i`.
pub open spec fn boundary_at(b: Seq<u8>, i: int) -> bool {
    0 <= i && i + 1 < b.len() && b[i] == 10 && b[i + 1] == 10
}

/// The first empty line of a buffer.
pub open spec fn first_boundary(b: Seq<u8>) -> Option<nat>
    decreases b.len(),
{
    if b.len() < 2 {
        None
    } else if boundary_at(b, 0) {
        Some(0)
    } else {
        match first_boundary(b.skip(1)) {
            Some(i) => Some(i + 1),
            None => None,
        }
    }
}

pub proof fn lemma_boundary_in_range(b: Seq<u8>)
    ensures
        first_boundary(b) matches Some(i) ==> boundary_at(b, i as int) && forall|k: int|
            0 <= k < i ==> !boundary_at(b, k),
        first_boundary(b) is None ==> forall|k: int| !boundary_at(b, k),
    decreases b.len(),
{
    if b.len() >= 2 && !boundary_at(b, 0) {
        lemma_boundary_in_range(b.skip(1));
        assert forall|k: int| k > 0 implies boundary_at(b, k) == boundary_at(b.skip(1), k - 1) by {}
        match first_boundary(b.skip(1)) {
            Some(i) => {
                assert(boundary_at(b, (i + 1) as int) == boundary_at(b.skip(1), i as int));
                assert forall|k: int| 0 <= k < i + 1 implies !boundary_at(b, k) by {
                    if k > 0 {
                        assert(boundary_at(b, k) == boundary_at(b.skip(1), k - 1));
                    }
                }
            },
            None => {
                assert forall|k: int| !boundary_at(b, k) by {
                    if k > 0 {
                        assert(boundary_at(b, k) == boundary_at(b.skip(1), k - 1));
                    }
                }
            },
        }
    }
}

/// The complete events of a buffer, each up to and with its empty line.
pub open spec fn frames(b: Seq<u8>) -> Seq<Seq<u8>>
    decreases b.len(),
{
    match first_boundary(b) {
        None => Seq::empty(),
        Some(i) => {
            proof {
                lemma_boundary_in_range(b);
            }
            seq![b.take((i + 2) as int)] + frames(b.skip((i + 2) as int))
        },
    }
}

/// What is left of a buffer after its complete events.
pub open spec fn rest_of(b: Seq<u8>) -> Seq<u8>
    decreases b.len(),
{
    match first_boundary(b) {
        None => b,
        Some(i) => {
            proof {
                lemma_boundary_in_range(b);
            }
            rest_of(b.skip((i + 2) as int))
        },
    }
}

/// Frames one after the other.
pub open spec fn flattened(f: Seq<Seq<u8>>) -> Seq<u8>
    decreases f.len(),
{
    if f.len() == 0 {
        Seq::empty()
    } else {
        f[0] + flattened(f.skip(1))
    }
}

/// Cutting loses no byte: the events and the rest make up the buffer.
pub proof fn cutting_keeps_every_byte(b: Seq<u8>)
    ensures
        flattened(frames(b)) + rest_of(b) == b,
    decreases b.len(),
{
    lemma_boundary_in_range(b);
    if let Some(i) = first_boundary(b) {
        let tail = b.skip((i + 2) as int);
        cutting_keeps_every_byte(tail);
        let f = frames(b);
        assert(f.skip(1) =~= frames(tail));
        assert(flattened(f) + rest_of(b) =~= b.take((i + 2) as int) + (flattened(frames(tail))
            + rest_of(tail)));
        assert(b =~= b.take((i + 2) as int) + tail);
    } else {
        assert(flattened(frames(b)) + rest_of(b) =~= b);
    }
}

proof fn lemma_boundary_found(b: Seq<u8>, i: int)
    requires
        boundary_at(b, i),
        forall|k: int| 0 <= k < i ==> !boundary_at(b, k),
    ensures
        first_boundary(b) == Some(i as nat),
{
    lemma_boundary_in_range(b);
    match first_boundary(b) {
        Some(j) => {
            if j < i {
                assert(!boundary_at(b, j as int));
            } else if i < j {
                assert(!boundary_at(b, i));
            }
        },
        None => {
            assert(!boundary_at(b, i));
        },
    }
}

/// Where the network cuts the stream makes no difference: the events of two
/// chunks are those of the first and those of what it left with the second.
pub proof fn chunking_makes_no_difference(a: Seq<u8>, b: Seq<u8>)
    ensures
        frames(a + b) == frames(a) + frames(rest_of(a) + b),
        rest_of(a + b) == rest_of(rest_of(a) + b),
    decreases a.len(),
{
    lemma_boundary_in_range(a);
    match first_boundary(a) {
        None => {
            assert(frames(a) + frames(a + b) =~= frames(a + b));
        },
        Some(i) => {
            let tail = a.skip((i + 2) as int);
            assert forall|k: int| 0 <= k < i implies !boundary_at(a + b, k) by {
                assert(boundary_at(a + b, k) == boundary_at(a, k));
            }
            assert(boundary_at(a + b, i as int));
            lemma_boundary_found(a + b, i as int);
            assert((a + b).skip((i + 2) as int) =~= tail + b);
            assert((a + b).take((i + 2) as int) =~= a.take((i + 2) as int));
            chunking_makes_no_difference(tail, b);
            assert(frames(a + b) =~= frames(a) + frames(rest_of(a) + b));
        },
    }
}

fn find_boundary(b: &Vec<u8>) -> (r: Option<usize>)
    ensures
        match r {
            Some(i) => first_boundary(b@) == Some(i as nat) && i + 1 < b@.len(),
            None => first_boundary(b@) is None,
        },
{
    let n = b.len();
    let mut i: usize = 0;
    while i < n && n - i >= 2
        invariant
            i <= n == b@.len(),
            forall|k: int| 0 <= k < i ==> !boundary_at(b@, k),
        decreases n - i,
    {
        if b[i] == 10 && b[i + 1] == 10 {
            proof {
                lemma_boundary_found(b@, i as int);
            }
            return Some(i);
        }
        i = i + 1;
    }
    proof {
        lemma_boundary_in_range(b@);
        assert forall|k: int| 0 <= k implies !boundary_at(b@, k) by {}
    }
    None
}

/// The bytes of each frame of a list.
pub open spec fn frame_views(v: Seq<Vec<u8>>) -> Seq<Seq<u8>> {
    Seq::new(v.len(), |i: int| v[i]@)
}

/// Takes the complete events out of a buffer.
pub fn cut_frames(buffer: &mut Vec<u8>) -> (r: Vec<Vec<u8>>)
    ensures
        frame_views(r@) == frames(old(buffer)@),
        final(buffer)@ == rest_of(old(buffer)@),
{
    let ghost all = buffer@;
    let mut out: Vec<Vec<u8>> = Vec::new();
    proof {
        assert(frame_views(out@) + frames(all) =~= frames(all));
    }
    loop
        invariant
            frame_views(out@) + frames(buffer@) == frames(all),
            rest_of(buffer@) == rest_of(all),
        ensures
            first_boundary(buffer@) is None,
            frame_views(out@) + frames(buffer@) == frames(all),
            rest_of(buffer@) == rest_of(all),
        decreases buffer@.len(),
    {
        let ghost b = buffer@;
        let n = buffer.len();
        match find_boundary(buffer) {
            Some(i) => {
                let ghost before = frame_views(out@);
                let mut frame = buffer.split_off(i + 2);
                std::mem::swap(&mut frame, buffer);
                proof {
                    assert(frame@ =~= b.take(i + 2));
                    assert(buffer@ =~= b.skip(i + 2));
                }
                let ghost f = frame@;
                out.push(frame);
                proof {
                    assert(frame_views(out@) =~= before.push(f));
                    assert(before.push(f) + frames(buffer@) =~= before + frames(b));
                }
            },
            None => {
                break;
            },
        }
    }
    proof {
        assert(frame_views(out@) =~= frames(all));
    }
    out
}

// ---------------------------------------------------------------------------
// Feeding a parser
// ---------------------------------------------------------------------------

/// The text of a frame: its bytes as text, without the line feeds at the end.
pub open spec fn frame_text(frame: Seq<u8>) -> Seq<char> {
    text::trim_end_char_of(ansi::utf8_lossy(frame), '\n')
}

fn text_of_frame(frame: &Vec<u8>) -> (r: String)
    ensures
        r@ == frame_text(frame@),
{
    let s = ansi::text_from_bytes(frame);
    text::trim_end_char(s.as_str(), '\n').to_string()
}

/// What a run of frames said, up to the first error.
#[verifier::ext_equal]
pub struct Fed {
    pub state: OpenaiParseState,
    pub events: Seq<ProviderEventView>,
    pub error: Option<ErrorView>,
}

/// What a run of frames in the OpenAI format says.
pub open spec fn openai_fed(s: OpenaiParseState, f: Seq<Seq<u8>>) -> Fed
    decreases f.len(),
{
    if f.len() == 0 {
        Fed { state: s, events: Seq::empty(), error: None }
    } else {
        let before = openai_fed(s, f.drop_last());
        if before.error is Some {
            before
        } else {
            match openai_chunk(before.state, frame_text(f.last())) {
                Ok(p) => Fed { state: p.state, events: before.events + p.events, error: None },
                Err(e) => Fed { error: Some(e), ..before },
            }
        }
    }
}

/// What a run of frames in the Anthropic format says.
pub open spec fn anthropic_fed(f: Seq<Seq<u8>>) -> (Seq<ProviderEventView>, Option<ErrorView>)
    decreases f.len(),
{
    if f.len() == 0 {
        (Seq::empty(), None)
    } else {
        let before = anthropic_fed(f.drop_last());
        if before.1 is Some {
            before
        } else {
            match anthropic_chunk(frame_text(f.last())) {
                Ok(Some(e)) => (before.0.push(e), None),
                Ok(None) => before,
                Err(e) => (before.0, Some(e)),
            }
        }
    }
}

/// Takes a chunk of an answer in the OpenAI format in. The events before the
/// first error come out; after an error the answer is over.
pub fn feed_openai(buffer: &mut Vec<u8>, state: &mut OpenaiParseState, chunk: &[u8]) -> (r: (
    Vec<ProviderEvent>,
    Option<Error>,
))
    ensures
        final(buffer)@ == rest_of(old(buffer)@ + chunk@),
        (Fed {
            state: *final(state),
            events: text::views(r.0@),
            error: text::view_opt(r.1),
        }) == openai_fed(*old(state), frames(old(buffer)@ + chunk@)),
{
    let ghost s0 = *state;
    buffer.extend_from_slice(chunk);
    proof {
        assert(buffer@ =~= old(buffer)@ + chunk@);
    }
    let list = cut_frames(buffer);
    let ghost all = frame_views(list@);
    let mut events: Vec<ProviderEvent> = Vec::new();
    let mut i: usize = 0;
    proof {
        assert(text::views(events@) =~= Seq::<ProviderEventView>::empty());
    }
    while i < list.len()
        invariant
            i <= list@.len(),
            all == frame_views(list@),
            s0 == *old(state),
            all == frames(old(buffer)@ + chunk@),
            buffer@ == rest_of(old(buffer)@ + chunk@),
            (Fed { state: *state, events: text::views(events@), error: None }) == openai_fed(
                s0,
                all.take(i as int),
            ),
        decreases list@.len() - i,
    {
        let ghost before = text::views(events@);
        proof {
            assert(all.take(i + 1).drop_last() == all.take(i as int));
            assert(all.take(i + 1).last() == list@[i as int]@);
        }
        let raw = text_of_frame(&list[i]);
        match opencode_go::OpencodeGoProvider::parse_openai_chunk(raw.as_str(), state) {
            Ok(more) => {
                let mut more = more;
                let ghost m = text::views(more@);
                events.append(&mut more);
                proof {
                    assert(text::views(events@) =~= before + m);
                }
            },
            Err(e) => {
                proof {
                    lemma_openai_error_stays(s0, all, i + 1);
                }
                return (events, Some(e));
            },
        }
        i = i + 1;
    }
    proof {
        assert(all.take(i as int) == all);
    }
    (events, None)
}

proof fn lemma_openai_error_stays(s: OpenaiParseState, f: Seq<Seq<u8>>, i: int)
    requires
        0 <= i <= f.len(),
        openai_fed(s, f.take(i)).error is Some,
    ensures
        openai_fed(s, f) == openai_fed(s, f.take(i)),
    decreases f.len(),
{
    if i == f.len() {
        assert(f.take(i) == f);
    } else {
        assert(f.drop_last().take(i) == f.take(i));
        lemma_openai_error_stays(s, f.drop_last(), i);
    }
}

/// Takes a chunk of an answer in the Anthropic format in.
pub fn feed_anthropic(buffer: &mut Vec<u8>, chunk: &[u8]) -> (r: (
    Vec<ProviderEvent>,
    Option<Error>,
))
    ensures
        final(buffer)@ == rest_of(old(buffer)@ + chunk@),
        (text::views(r.0@), text::view_opt(r.1)) == anthropic_fed(
            frames(old(buffer)@ + chunk@),
        ),
{
    buffer.extend_from_slice(chunk);
    proof {
        assert(buffer@ =~= old(buffer)@ + chunk@);
    }
    let list = cut_frames(buffer);
    let ghost all = frame_views(list@);
    let mut events: Vec<ProviderEvent> = Vec::new();
    let mut i: usize = 0;
    proof {
        assert(text::views(events@) =~= Seq::<ProviderEventView>::empty());
    }
    while i < list.len()
        invariant
            i <= list@.len(),
            all == frame_views(list@),
            all == frames(old(buffer)@ + chunk@),
            buffer@ == rest_of(old(buffer)@ + chunk@),
            (text::views(events@), None::<ErrorView>) == anthropic_fed(all.take(i as int)),
        decreases list@.len() - i,
    {
        broadcast use text::views_push;

        proof {
            assert(all.take(i + 1).drop_last() == all.take(i as int));
            assert(all.take(i + 1).last() == list@[i as int]@);
        }
        let raw = text_of_frame(&list[i]);
        match opencode_go::OpencodeGoProvider::parse_anthropic_chunk(raw.as_str()) {
            Ok(Some(e)) => {
                events.push(e);
            },
            Ok(None) => {},
            Err(e) => {
                proof {
                    lemma_anthropic_error_stays(all, i + 1);
                }
                return (events, Some(e));
            },
        }
        i = i + 1;
    }
    proof {
        assert(all.take(i as int) == all);
    }
    (events, None)
}

proof fn lemma_anthropic_error_stays(f: Seq<Seq<u8>>, i: int)
    requires
        0 <= i <= f.len(),
        anthropic_fed(f.take(i)).1 is Some,
    ensures
        anthropic_fed(f) == anthropic_fed(f.take(i)),
    decreases f.len(),
{
    if i == f.len() {
        assert(f.take(i) == f);
    } else {
        assert(f.drop_last().take(i) == f.take(i));
        lemma_anthropic_error_stays(f.drop_last(), i);
    }
}

// ---------------------------------------------------------------------------
// Responses
// ---------------------------------------------------------------------------

/// What to do about a response.
#[derive(Debug, PartialEq, Eq)]
pub enum ResponseStep {
    /// Read the answer.
    Stream,
    /// Send the request again, without cache markers.
    RetryWithoutCache,
    /// Give up.
    Fail(Error),
}

/// What to do about a response with a status. `retried` says that this is the
/// answer to the request without cache markers; `line` is the status in
/// words, `body` what came with it, `redacted` the same without the API key.
pub open spec fn response_step(
    format: WireFormat,
    retried: bool,
    status: u16,
    line: Seq<char>,
    body: Seq<char>,
    redacted: Seq<char>,
) -> ResponseStepView {
    if 200 <= status < 300 {
        ResponseStepView::Stream
    } else if retried {
        ResponseStepView::Fail(
            ErrorView::Provider(
                "http "@ + line + " (retry without cache also failed): "@ + redacted,
            ),
        )
    } else if format != WireFormat::OpenAI && status == 400 && text::contains_text(
        body,
        "cache_control"@,
    ) {
        ResponseStepView::RetryWithoutCache
    } else {
        ResponseStepView::Fail(ErrorView::Provider("http "@ + line + ": "@ + redacted))
    }
}

#[verifier::ext_equal]
pub enum ResponseStepView {
    Stream,
    RetryWithoutCache,
    Fail(ErrorView),
}

impl View for ResponseStep {
    type V = ResponseStepView;

    open spec fn view(&self) -> ResponseStepView {
        match self {
            ResponseStep::Stream => ResponseStepView::Stream,
            ResponseStep::RetryWithoutCache => ResponseStepView::RetryWithoutCache,
            ResponseStep::Fail(e) => ResponseStepView::Fail(e@),
        }
    }
}

/// What to do about a response.
pub fn after_response(
    format: WireFormat,
    retried: bool,
    status: u16,
    line: &str,
    body: &str,
    redacted: &str,
) -> (r: ResponseStep)
    ensures
        r@ == response_step(format, retried, status, line@, body@, redacted@),
{
    if 200 <= status && status < 300 {
        return ResponseStep::Stream;
    }
    if !retried && format != WireFormat::OpenAI && status == 400 && text::contains(
        body,
        "cache_control",
    ) {
        return ResponseStep::RetryWithoutCache;
    }
    let mut m = "http ".to_string();
    m.append(line);
    if retried {
        m.append(" (retry without cache also failed): ");
    } else {
        m.append(": ");
    }
    m.append(redacted);
    ResponseStep::Fail(Error::Provider(m))
}

/// A request is repeated at most once: the answer to the repetition is read
/// or reported.
pub proof fn at_most_one_retry(
    format: WireFormat,
    status: u16,
    line: Seq<char>,
    body: Seq<char>,
    redacted: Seq<char>,
)
    ensures
        !(response_step(format, true, status, line, body, redacted) is RetryWithoutCache),
{
}

/// The line that reports a rate limit.
pub fn rate_limit_notice(model: &str) -> (r: String)
    ensures
        r@ == "\x1b[33m[opencode-go] 429 Too Many Requests ("@ + model@ + ")\x1b[0m"@,
{
    let mut s = "\x1b[33m[opencode-go] 429 Too Many Requests (".to_string();
    s.append(model);
    s.append(")\x1b[0m");
    s
}

/// The error of a stream that has gone silent.
pub fn idle_error(secs: u64) -> (r: Error)
    ensures
        r@ == ErrorView::Provider(
            "stream idle for "@ + text::decimal_of(secs as nat)
                + "s — provider stopped sending; try again"@,
        ),
{
    let mut m = "stream idle for ".to_string();
    m.append(text::decimal(secs).as_str());
    m.append("s — provider stopped sending; try again");
    Error::Provider(m)
}

/// A model's id with the gateway's prefix.
pub open spec fn prefixed(id: Seq<char>) -> Seq<char> {
    if text::has_prefix(id, opencode_go::MODEL_PREFIX@) {
        id
    } else {
        opencode_go::MODEL_PREFIX@ + id
    }
}

/// The ids in a list of models, prefixed; entries without an id are skipped.
pub open spec fn listed_ids(items: Seq<JsonView>) -> Seq<Seq<char>>
    decreases items.len(),
{
    if items.len() == 0 {
        Seq::empty()
    } else {
        match items.last().text_at("id"@) {
            Some(id) => listed_ids(items.drop_last()).push(prefixed(id)),
            None => listed_ids(items.drop_last()),
        }
    }
}

/// The models of a list document, in ascending order.
pub open spec fn model_ids(doc: JsonView) -> Seq<Seq<char>> {
    match doc.get("data"@) {
        Some(JsonView::Arr(items)) => text::sort_of(listed_ids(items)),
        _ => Seq::empty(),
    }
}

/// The ids of the models in a list document, prefixed and in ascending order.
pub fn list_model_ids(doc: &Json) -> (r: Vec<String>)
    ensures
        text::views(r@) == model_ids(doc@),
{
    let mut ids: Vec<String> = Vec::new();
    match doc.get("data") {
        Some(Json::Arr(items)) => {
            let ghost all = doc@.get("data"@)->0.items();
            let mut i: usize = 0;
            proof {
                assert(all =~= text::views(items@));
                assert(text::views(ids@) =~= listed_ids(all.take(0)));
            }
            while i < items.len()
                invariant
                    i <= items@.len(),
                    all == text::views(items@),
                    text::views(ids@) == listed_ids(all.take(i as int)),
                decreases items@.len() - i,
            {
                broadcast use text::views_push;

                proof {
                    assert(all.take(i + 1).drop_last() == all.take(i as int));
                    assert(all.take(i + 1).last() == items@[i as int]@);
                }
                if let Some(id) = items[i].str_at("id") {
                    if text::starts_with(id, opencode_go::MODEL_PREFIX) {
                        ids.push(id.to_string());
                    } else {
                        let mut full = opencode_go::MODEL_PREFIX.to_string();
                        full.append(id);
                        ids.push(full);
                    }
                }
                i = i + 1;
            }
            proof {
                assert(all.take(i as int) == all);
            }
            text::sort(ids)
        },
        _ => {
            proof {
                assert(text::views(ids@) =~= Seq::<Seq<char>>::empty());
            }
            ids
        },
    }
}

// ---------------------------------------------------------------------------
// Starts and stops
// ---------------------------------------------------------------------------

/// How many of the events end the answer.
pub open spec fn stop_count(e: Seq<ProviderEventView>) -> nat
    decreases e.len(),
{
    if e.len() == 0 {
        0
    } else {
        stop_count(e.drop_last()) + if e.last() is MessageStop {
            1nat
        } else {
            0nat
        }
    }
}

/// How many of the events begin an answer.
pub open spec fn start_count(e: Seq<ProviderEventView>) -> nat
    decreases e.len(),
{
    if e.len() == 0 {
        0
    } else {
        start_count(e.drop_last()) + if e.last() is MessageStart {
            1nat
        } else {
            0nat
        }
    }
}

proof fn lemma_emit(e: Seq<ProviderEventView>, x: ProviderEventView)
    ensures
        stop_count(e.push(x)) == stop_count(e) + if x is MessageStop {
            1nat
        } else {
            0nat
        },
        start_count(e.push(x)) == start_count(e) + if x is MessageStart {
            1nat
        } else {
            0nat
        },
{
    assert(e.push(x).drop_last() =~= e);
}

/// What two parse results have in common.
pub open spec fn same_ends(p: Parsed, q: Parsed) -> bool {
    stop_count(p.events) == stop_count(q.events) && start_count(p.events) == start_count(q.events)
        && p.state.emitted_message_stop == q.state.emitted_message_stop
        && p.state.seen_message_start == q.state.seen_message_start
}

proof fn lemma_emit_if(p: Parsed, cond: bool, x: ProviderEventView)
    requires
        !(x is MessageStop),
        !(x is MessageStart),
    ensures
        same_ends(p, p.emit_if(cond, x)),
        p.emit_if(cond, x).state == p.state,
{
    lemma_emit(p.events, x);
}

proof fn lemma_tool_piece_ends(p: Parsed, tc: JsonView)
    ensures
        same_ends(p, tool_piece(p, tc)),
{
    let name = text_or_empty(at(tc.get("function"@), "name"@));
    let id = if name.len() > 0 {
        text_or_empty(tc.get("id"@))
    } else {
        Seq::empty()
    };
    let args = text_or_empty(at(tc.get("function"@), "arguments"@));
    let a = match i64_of(tc.get("index"@)) {
        Some(i) => {
            let cond = p.state.active_tool_index is Some && p.state.active_tool_index != Some(i);
            lemma_emit_if(p, cond, ProviderEventView::ContentBlockStop);
            let closed = p.emit_if(cond, ProviderEventView::ContentBlockStop);
            Parsed {
                state: OpenaiParseState { active_tool_index: Some(i), ..closed.state },
                ..closed
            }
        },
        None => p,
    };
    let start = ProviderEventView::ToolUseStart { id, name, thought_signature: None };
    lemma_emit_if(a, id.len() > 0 || name.len() > 0, start);
    lemma_emit_if(
        a.emit_if(id.len() > 0 || name.len() > 0, start),
        args.len() > 0,
        ProviderEventView::ToolUseDelta { partial_json: args },
    );
}

proof fn lemma_tool_pieces_ends(p: Parsed, tcs: Seq<JsonView>)
    ensures
        same_ends(p, tool_pieces(p, tcs)),
    decreases tcs.len(),
{
    if tcs.len() > 0 {
        lemma_tool_pieces_ends(p, tcs.drop_last());
        lemma_tool_piece_ends(tool_pieces(p, tcs.drop_last()), tcs.last());
    }
}

/// Stops so far, with the one that an earlier event may have told.
pub open spec fn stops_add_up(before: bool, p: Parsed) -> bool {
    stop_count(p.events) + (if before {
        1nat
    } else {
        0nat
    }) == if p.state.emitted_message_stop {
        1nat
    } else {
        0nat
    }
}

proof fn lemma_stop_adds_up(before: bool, p: Parsed, reason: Seq<char>, usage: Option<Usage>)
    requires
        stops_add_up(before, p),
    ensures
        stops_add_up(before, stop(p, reason, usage)),
        start_count(stop(p, reason, usage).events) == start_count(p.events),
        stop(p, reason, usage).state.seen_message_start == p.state.seen_message_start,
{
    lemma_emit(
        p.events,
        ProviderEventView::MessageStop { stop_reason: Some(reason), usage },
    );
}

proof fn lemma_choice_adds_up(before: bool, p: Parsed, choice: JsonView, doc: JsonView)
    requires
        stops_add_up(before, p),
    ensures
        stops_add_up(before, choice_step(p, choice, doc)),
        start_count(choice_step(p, choice, doc).events) == start_count(p.events),
        choice_step(p, choice, doc).state.seen_message_start == p.state.seen_message_start,
{
    let delta = choice.get("delta"@);
    let a = match at(delta, "tool_calls"@) {
        Some(JsonView::Arr(tcs)) => {
            lemma_tool_pieces_ends(p, tcs);
            tool_pieces(p, tcs)
        },
        _ => p,
    };
    let words = text_or_empty(at(delta, "content"@));
    let reasoning = text_or_empty(at(delta, "reasoning_content"@));
    lemma_emit_if(a, words.len() > 0, ProviderEventView::TextDelta(words));
    let a2 = a.emit_if(words.len() > 0, ProviderEventView::TextDelta(words));
    lemma_emit_if(a2, reasoning.len() > 0, ProviderEventView::ThinkingDelta(reasoning));
    let b = a2.emit_if(reasoning.len() > 0, ProviderEventView::ThinkingDelta(reasoning));
    if let Some(reason) = text_of(choice.get("finish_reason"@)) {
        lemma_emit_if(
            b,
            b.state.active_tool_index is Some,
            ProviderEventView::ContentBlockStop,
        );
        let closed = b.emit_if(
            b.state.active_tool_index is Some,
            ProviderEventView::ContentBlockStop,
        );
        lemma_stop_adds_up(
            before,
            Parsed {
                state: OpenaiParseState { active_tool_index: None, ..closed.state },
                ..closed
            },
            reason,
            openai_usage_opt(doc),
        );
    }
}

proof fn lemma_choices_add_up(before: bool, p: Parsed, choices: Seq<JsonView>, doc: JsonView)
    requires
        stops_add_up(before, p),
    ensures
        stops_add_up(before, choice_steps(p, choices, doc)),
        start_count(choice_steps(p, choices, doc).events) == start_count(p.events),
        choice_steps(p, choices, doc).state.seen_message_start == p.state.seen_message_start,
    decreases choices.len(),
{
    if choices.len() > 0 {
        lemma_choices_add_up(before, p, choices.drop_last(), doc);
        lemma_choice_adds_up(
            before,
            choice_steps(p, choices.drop_last(), doc),
            choices.last(),
            doc,
        );
    }
}

/// An answer begins once and ends at most once, however many documents say
/// so: the first document begins it, no other does; a document ends it only
/// where none has before, and then once.
pub proof fn one_start_and_one_stop(s: OpenaiParseState, doc: JsonView)
    ensures
        openai_document(s, doc) matches Ok(p) ==> {
            &&& start_count(p.events) == if s.seen_message_start {
                0nat
            } else {
                1nat
            }
            &&& p.state.seen_message_start
            &&& stop_count(p.events) + (if s.emitted_message_stop {
                1nat
            } else {
                0nat
            }) == if p.state.emitted_message_stop {
                1nat
            } else {
                0nat
            }
        },
{
    if doc.get("error"@) is None {
        let a = if s.seen_message_start {
            Parsed { state: s, events: Seq::empty() }
        } else {
            Parsed {
                state: OpenaiParseState { seen_message_start: true, ..s },
                events: seq![
                    ProviderEventView::MessageStart { model: text_or_empty(doc.get("model"@)) },
                ],
            }
        };
        if !s.seen_message_start {
            let m = ProviderEventView::MessageStart { model: text_or_empty(doc.get("model"@)) };
            lemma_emit(Seq::empty(), m);
            assert(a.events =~= Seq::empty().push(m));
        }
        lemma_choices_add_up(s.emitted_message_stop, a, choices_of(doc), doc);
        lemma_stop_adds_up(
            s.emitted_message_stop,
            choice_steps(a, choices_of(doc), doc),
            "stop"@,
            openai_usage_opt(doc),
        );
    }
}

} // verus!
