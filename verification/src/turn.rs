//! One turn of the agent, as a state machine.
//!
//! A turn alternates between work that only the outside can do (asking the
//! provider, waiting, asking the user, running a tool) and decisions. [`Turn`]
//! holds the state of the decisions. [`Turn::advance`] takes what happened
//! outside and says what the user interface is told and what is to be done
//! next.

use vstd::prelude::*;

use crate::history::{self, SavedOutput};
use crate::json::{Json, JsonView};
use crate::plan::PermissionMode;
use crate::text;
use crate::types::{
    BlockView, ContentBlock, Error, ErrorView, Message, MessageView, ResultView, Role,
    StreamRequest, ToolDef, ToolResultContent, UiResource, UiView, Usage,
};

verus! {

/// The output cap when the model has run into the one it was given.
pub const ESCALATED_MAX_TOKENS: u32 = 64000;

/// What is kept of the context window for tool definitions.
pub const TOOLS_RESERVE_TOKENS: usize = 1024;

/// Which agent asks for something.
#[derive(Debug, PartialEq, Eq)]
pub enum AgentOrigin {
    Main,
    SideChannel { id: String, agent_name: String },
    Subagent { agent_name: String },
}

impl Clone for AgentOrigin {
    fn clone(&self) -> (r: AgentOrigin)
        ensures
            r == *self,
    {
        match self {
            AgentOrigin::Main => AgentOrigin::Main,
            AgentOrigin::SideChannel { id, agent_name } => AgentOrigin::SideChannel {
                id: id.clone(),
                agent_name: agent_name.clone(),
            },
            AgentOrigin::Subagent { agent_name } => AgentOrigin::Subagent {
                agent_name: agent_name.clone(),
            },
        }
    }
}

/// What the user interface is told.
#[allow(inconsistent_fields)]
#[derive(Debug, PartialEq)]
pub enum AgentEvent {
    /// A request to the provider is about to be made; counted from 0.
    IterationStart { iteration: usize },
    /// A piece of the answer.
    Text(String),
    /// A piece of the model's reasoning.
    Thinking(String),
    /// The model wants a tool called.
    ToolCallStart { id: String, name: String, input: Json },
    /// A tool call is over.
    ToolCallResult {
        id: String,
        name: String,
        output: Result<String, String>,
        ui_resource: Option<UiResource>,
    },
    /// The user said no; nothing was called.
    ToolCallDenied { id: String, name: String },
    /// The turn is over.
    Done { stop_reason: Option<String>, usage: Usage },
}

#[allow(inconsistent_fields)]
#[verifier::ext_equal]
pub enum AgentEventView {
    IterationStart { iteration: nat },
    Text(Seq<char>),
    Thinking(Seq<char>),
    ToolCallStart { id: Seq<char>, name: Seq<char>, input: JsonView },
    ToolCallResult {
        id: Seq<char>,
        name: Seq<char>,
        output: Result<Seq<char>, Seq<char>>,
        ui_resource: Option<UiView>,
    },
    ToolCallDenied { id: Seq<char>, name: Seq<char> },
    Done { stop_reason: Option<Seq<char>>, usage: Usage },
}

/// The characters of either side of a result.
pub open spec fn view_result(r: Result<String, String>) -> Result<Seq<char>, Seq<char>> {
    match r {
        Ok(s) => Ok(s@),
        Err(s) => Err(s@),
    }
}

impl View for AgentEvent {
    type V = AgentEventView;

    open spec fn view(&self) -> AgentEventView {
        match self {
            AgentEvent::IterationStart { iteration } => AgentEventView::IterationStart {
                iteration: *iteration as nat,
            },
            AgentEvent::Text(s) => AgentEventView::Text(s@),
            AgentEvent::Thinking(s) => AgentEventView::Thinking(s@),
            AgentEvent::ToolCallStart { id, name, input } => AgentEventView::ToolCallStart {
                id: id@,
                name: name@,
                input: input@,
            },
            AgentEvent::ToolCallResult { id, name, output, ui_resource } =>
                AgentEventView::ToolCallResult {
                id: id@,
                name: name@,
                output: view_result(*output),
                ui_resource: text::view_opt(*ui_resource),
            },
            AgentEvent::ToolCallDenied { id, name } => AgentEventView::ToolCallDenied {
                id: id@,
                name: name@,
            },
            AgentEvent::Done { stop_reason, usage } => AgentEventView::Done {
                stop_reason: text::view_opt(*stop_reason),
                usage: *usage,
            },
        }
    }
}

/// One complete piece of a provider's answer.
#[derive(Debug, PartialEq)]
pub enum AssembledEvent {
    Text(String),
    Thinking(String),
    ToolUse(ContentBlock),
    /// A tool call whose input is not a JSON document.
    ToolParseFailed { id: String, name: String, error: String },
    Done { stop_reason: Option<String>, usage: Option<Usage> },
}

/// What happened outside.
#[derive(Debug, PartialEq)]
pub enum TurnEvent {
    /// Nothing was left to do outside.
    Proceed,
    /// The provider answers.
    Opened,
    /// The provider refused the request.
    OpenFailed(Error),
    /// The wait before another attempt is over.
    BackoffOver,
    /// The user cancelled during the wait.
    BackoffCancelled,
    /// A piece of the answer came in.
    Assembled(AssembledEvent),
    /// The answer broke off.
    StreamFailed(Error),
    /// The answer is complete.
    StreamEnded,
    /// The tool was looked up: whether there is one, whether it needs approval
    /// for its input, the permission mode now, and whether a plan exists.
    LookedUp { found: bool, requires_approval: bool, mode: PermissionMode, plan_exists: bool },
    /// The user decided.
    Decided { allow: bool },
    /// The tool returned; `saved` says where a text too long for the
    /// conversation went.
    Returned { result: Result<ToolResultContent, String>, saved: SavedOutput },
    /// The tool's widget was asked for.
    UiFetched(Option<UiResource>),
}

/// What is to be done outside.
#[allow(inconsistent_fields)]
#[derive(Debug, PartialEq)]
pub enum TurnAction {
    /// Nothing: go on.
    Proceed,
    /// Send the request to the provider.
    Request,
    /// Wait, and let the user cancel the wait.
    Backoff { secs: u64 },
    /// Read the next piece of the answer.
    Read,
    /// Look the tool up.
    LookUp { id: String, name: String, input: Json },
    /// Ask the user about a tool call that this agent wants to make.
    Approve { name: String, input: Json, originator: AgentOrigin },
    /// Call the tool.
    Call { name: String, input: Json },
    /// Ask for the tool's widget.
    FetchUi { name: String },
    /// The turn has failed.
    Abort(Error),
    /// The turn is over.
    Finished,
    /// The event does not belong here; nothing has changed.
    Unexpected,
}

#[allow(inconsistent_fields)]
#[verifier::ext_equal]
pub enum ActionView {
    Proceed,
    Request,
    Backoff { secs: u64 },
    Read,
    LookUp { id: Seq<char>, name: Seq<char>, input: JsonView },
    Approve { name: Seq<char>, input: JsonView, originator: AgentOrigin },
    Call { name: Seq<char>, input: JsonView },
    FetchUi { name: Seq<char> },
    Abort(ErrorView),
    Finished,
    Unexpected,
}

impl View for TurnAction {
    type V = ActionView;

    open spec fn view(&self) -> ActionView {
        match self {
            TurnAction::Proceed => ActionView::Proceed,
            TurnAction::Request => ActionView::Request,
            TurnAction::Backoff { secs } => ActionView::Backoff { secs: *secs },
            TurnAction::Read => ActionView::Read,
            TurnAction::LookUp { id, name, input } => ActionView::LookUp {
                id: id@,
                name: name@,
                input: input@,
            },
            TurnAction::Approve { name, input, originator } => ActionView::Approve {
                name: name@,
                input: input@,
                originator: *originator,
            },
            TurnAction::Call { name, input } => ActionView::Call { name: name@, input: input@ },
            TurnAction::FetchUi { name } => ActionView::FetchUi { name: name@ },
            TurnAction::Abort(e) => ActionView::Abort(e@),
            TurnAction::Finished => ActionView::Finished,
            TurnAction::Unexpected => ActionView::Unexpected,
        }
    }
}

/// Where a turn stands.
#[derive(Clone, Copy, Debug, PartialEq, Eq, Structural)]
pub enum Phase {
    /// Between two requests.
    Between,
    /// A request is being made.
    Requesting,
    /// Waiting before another attempt at the request.
    Waiting,
    /// The answer is coming in.
    Streaming,
    /// The next tool is being looked up.
    LookingUp,
    /// The user is being asked about the next tool.
    Asking,
    /// The next tool is running.
    Calling,
    /// The widget of the tool that has just run is being fetched.
    FetchingUi,
    /// Over.
    Over,
}

/// What a turn shares with the agent and with the outside while it runs.
#[derive(Debug)]
pub struct Shared {
    pub history: Vec<Message>,
    /// The model to use in place of the agent's, until the turn ends.
    pub model_override: Option<String>,
    /// The idle timeout of this turn's streams, until the turn ends.
    pub next_turn_chunk_timeout: Option<std::time::Duration>,
}

#[verifier::ext_equal]
pub struct SharedView {
    pub history: Seq<MessageView>,
    pub model_override: Option<Seq<char>>,
    pub next_turn_chunk_timeout: Option<std::time::Duration>,
}

impl View for Shared {
    type V = SharedView;

    open spec fn view(&self) -> SharedView {
        SharedView {
            history: text::views(self.history@),
            model_override: text::view_opt(self.model_override),
            next_turn_chunk_timeout: self.next_turn_chunk_timeout,
        }
    }
}

/// The state of one turn.
#[derive(Debug)]
pub struct Turn {
    pub model: String,
    pub system: String,
    pub budget_tokens: usize,
    /// The most requests of the turn; 0 for no limit.
    pub max_iterations: usize,
    pub max_retries: usize,
    pub thinking_budget: Option<u32>,
    /// The mode that the agent was made with.
    pub default_mode: PermissionMode,
    pub origin: AgentOrigin,
    /// Requests that are behind us.
    pub iteration: usize,
    pub current_max_tokens: u32,
    pub usage: Usage,
    /// Failed attempts at the current request.
    pub attempt: usize,
    pub text: String,
    pub thinking: String,
    pub tool_uses: Vec<ContentBlock>,
    /// Tool calls with unreadable input: id and message.
    pub parse_errors: Vec<(String, String)>,
    pub stop_reason: Option<String>,
    /// How many of `tool_uses` are dealt with.
    pub next: usize,
    pub results: Vec<ContentBlock>,
    /// What the tool that has just run handed back.
    pub returned: String,
    pub phase: Phase,
}

#[verifier::ext_equal]
pub struct TurnView {
    pub model: Seq<char>,
    pub system: Seq<char>,
    pub budget_tokens: usize,
    pub max_iterations: usize,
    pub max_retries: usize,
    pub thinking_budget: Option<u32>,
    pub default_mode: PermissionMode,
    pub origin: AgentOrigin,
    pub iteration: nat,
    pub current_max_tokens: u32,
    pub usage: Usage,
    pub attempt: nat,
    pub text: Seq<char>,
    pub thinking: Seq<char>,
    pub tool_uses: Seq<BlockView>,
    pub parse_errors: Seq<(Seq<char>, Seq<char>)>,
    pub stop_reason: Option<Seq<char>>,
    pub next: nat,
    pub results: Seq<BlockView>,
    pub returned: Seq<char>,
    pub phase: Phase,
}

/// The characters of a list of pairs of strings.
pub open spec fn pair_views(v: Seq<(String, String)>) -> Seq<(Seq<char>, Seq<char>)> {
    Seq::new(v.len(), |i: int| (v[i].0@, v[i].1@))
}

impl View for Turn {
    type V = TurnView;

    open spec fn view(&self) -> TurnView {
        TurnView {
            model: self.model@,
            system: self.system@,
            budget_tokens: self.budget_tokens,
            max_iterations: self.max_iterations,
            max_retries: self.max_retries,
            thinking_budget: self.thinking_budget,
            default_mode: self.default_mode,
            origin: self.origin,
            iteration: self.iteration as nat,
            current_max_tokens: self.current_max_tokens,
            usage: self.usage,
            attempt: self.attempt as nat,
            text: self.text@,
            thinking: self.thinking@,
            tool_uses: text::views(self.tool_uses@),
            parse_errors: pair_views(self.parse_errors@),
            stop_reason: text::view_opt(self.stop_reason),
            next: self.next as nat,
            results: text::views(self.results@),
            returned: self.returned@,
            phase: self.phase,
        }
    }
}

// ---------------------------------------------------------------------------
// The rules, one by one
// ---------------------------------------------------------------------------

/// The most requests of a turn.
pub open spec fn iteration_limit(max_iterations: usize) -> nat {
    if max_iterations == 0 {
        usize::MAX as nat
    } else {
        max_iterations as nat
    }
}

/// The permission mode that decides: an agent made for `Auto` is not held to
/// a bare `Ask`.
pub open spec fn mode_in_force(mode: PermissionMode, default_mode: PermissionMode) -> PermissionMode {
    if mode == PermissionMode::Ask && default_mode == PermissionMode::Auto {
        default_mode
    } else {
        mode
    }
}

/// What becomes of a tool call.
pub enum GateView {
    /// It is answered with this error, and the tool does not run.
    Refused(Seq<char>),
    /// The user is asked.
    Ask,
    /// The tool runs.
    Run,
}

/// What becomes of a tool call.
#[derive(Debug, PartialEq, Eq)]
pub enum Gate {
    Refused(String),
    Ask,
    Run,
}

impl View for Gate {
    type V = GateView;

    open spec fn view(&self) -> GateView {
        match self {
            Gate::Refused(m) => GateView::Refused(m@),
            Gate::Ask => GateView::Ask,
            Gate::Run => GateView::Run,
        }
    }
}

pub const TODO_WRITE_BLOCKED: &'static str =
    "Blocked: TodoWrite is the casual scratchpad outside plan mode. In plan mode, call SubmitPlan to publish your plan to the sidebar — UpdatePlanStep tracks progress per step.";

pub const PLAN_MODE_BLOCKED: &'static str =
    " is not available in plan mode. Use Read / Grep / Glob / Ls to explore the codebase. When you have enough context, call SubmitPlan with an ordered list of concrete steps. The user will review and approve before execution.";

pub const APPROVAL_WINDOW_BLOCKED: &'static str =
    " is not available while waiting for the user to approve the plan. The user reviews the plan in the right-side sidebar and clicks Approve to begin execution (or Cancel to discard it). Do NOT instruct the user to type anything — the buttons are the contract. While you wait, do not call any other tools either; just stop emitting tool calls and let the sidebar speak for itself.";

/// What becomes of a call of the tool `name`. In plan mode the scratchpad is
/// off, so is every tool that needs approval, and while a plan waits for
/// approval so are the two tools that would move it on.
pub open spec fn gate_of(
    name: Seq<char>,
    found: bool,
    requires_approval: bool,
    mode: PermissionMode,
    plan_exists: bool,
) -> GateView {
    if !found {
        GateView::Refused("unknown tool: "@ + name)
    } else if mode == PermissionMode::Plan && name == "TodoWrite"@ {
        GateView::Refused(TODO_WRITE_BLOCKED@)
    } else if mode == PermissionMode::Plan && requires_approval {
        GateView::Refused("Blocked: "@ + name + PLAN_MODE_BLOCKED@)
    } else if mode == PermissionMode::Plan && (name == "UpdatePlanStep"@ || name
        == "ExitPlanMode"@) && plan_exists {
        GateView::Refused("Blocked: "@ + name + APPROVAL_WINDOW_BLOCKED@)
    } else if mode.asks() && requires_approval {
        GateView::Ask
    } else {
        GateView::Run
    }
}

/// What becomes of a call of the tool `name`.
pub fn gate(
    name: &str,
    found: bool,
    requires_approval: bool,
    mode: PermissionMode,
    plan_exists: bool,
) -> (r: Gate)
    ensures
        r@ == gate_of(name@, found, requires_approval, mode, plan_exists),
{
    if !found {
        let mut m = "unknown tool: ".to_string();
        m.append(name);
        return Gate::Refused(m);
    }
    if mode == PermissionMode::Plan {
        if text::same(name, "TodoWrite") {
            return Gate::Refused(TODO_WRITE_BLOCKED.to_string());
        }
        if requires_approval {
            let mut m = "Blocked: ".to_string();
            m.append(name);
            m.append(PLAN_MODE_BLOCKED);
            return Gate::Refused(m);
        }
        if (text::same(name, "UpdatePlanStep") || text::same(name, "ExitPlanMode"))
            && plan_exists {
            let mut m = "Blocked: ".to_string();
            m.append(name);
            m.append(APPROVAL_WINDOW_BLOCKED);
            return Gate::Refused(m);
        }
    }
    if mode.asks_for_approval() && requires_approval {
        Gate::Ask
    } else {
        Gate::Run
    }
}

/// The first message recorded for a tool call.
pub open spec fn error_for(errors: Seq<(Seq<char>, Seq<char>)>, id: Seq<char>) -> Option<Seq<char>>
    decreases errors.len(),
{
    if errors.len() == 0 {
        None
    } else if errors[0].0 == id {
        Some(errors[0].1)
    } else {
        error_for(errors.skip(1), id)
    }
}

proof fn lemma_error_for(errors: Seq<(Seq<char>, Seq<char>)>, id: Seq<char>, i: int)
    requires
        0 <= i <= errors.len(),
        forall|k: int| 0 <= k < i ==> (#[trigger] errors[k]).0 != id,
    ensures
        error_for(errors, id) == error_for(errors.skip(i), id),
    decreases i,
{
    if i == 0 {
        assert(errors.skip(0) == errors);
    } else {
        assert forall|k: int| 0 <= k < i - 1 implies (#[trigger] errors.skip(1)[k]).0 != id by {
            assert(errors.skip(1)[k] == errors[k + 1]);
        }
        lemma_error_for(errors.skip(1), id, i - 1);
        assert(errors.skip(1).skip(i - 1) == errors.skip(i));
    }
}

fn find_error(errors: &Vec<(String, String)>, id: &str) -> (r: Option<String>)
    ensures
        text::view_opt(r) == error_for(pair_views(errors@), id@),
{
    let ghost all = pair_views(errors@);
    let mut i: usize = 0;
    while i < errors.len()
        invariant
            i <= errors@.len(),
            all == pair_views(errors@),
            forall|k: int| 0 <= k < i ==> (#[trigger] all[k]).0 != id@,
        decreases errors@.len() - i,
    {
        if text::same(errors[i].0.as_str(), id) {
            proof {
                lemma_error_for(all, id@, i as int);
                assert(all.skip(i as int)[0] == all[i as int]);
            }
            return Some(errors[i].1.clone());
        }
        i = i + 1;
    }
    proof {
        lemma_error_for(all, id@, i as int);
    }
    None
}

/// The message of the assistant: its reasoning, its text, its tool calls.
pub open spec fn assistant_content(
    thinking: Seq<char>,
    words: Seq<char>,
    tool_uses: Seq<BlockView>,
) -> Seq<BlockView> {
    let a = if thinking.len() > 0 {
        seq![BlockView::Thinking { content: thinking, signature: None }]
    } else {
        Seq::empty()
    };
    let b = if words.len() > 0 {
        a.push(BlockView::Text(words))
    } else {
        a
    };
    b + tool_uses
}

/// How a tool result goes into the conversation: a text too long for it is
/// cut, an error is marked as one, and an empty result says so.
pub open spec fn recorded_result(
    result: Result<ResultView, Seq<char>>,
    saved: SavedOutput,
) -> ResultView {
    let content = match result {
        Ok(ResultView::Text(s)) => if history::is_too_long(s) {
            ResultView::Text(history::truncated(s, saved))
        } else {
            ResultView::Text(s)
        },
        Ok(ResultView::Blocks(b)) => ResultView::Blocks(b),
        Err(e) => ResultView::Text("error: "@ + e),
    };
    if content.is_empty() {
        ResultView::Text("(no output)"@)
    } else {
        content
    }
}

/// How a tool result goes into the conversation.
pub fn record_result(result: &Result<ToolResultContent, String>, saved: &SavedOutput) -> (r:
    ToolResultContent)
    ensures
        r@ == recorded_result(
            match *result {
                Ok(c) => Ok(c@),
                Err(e) => Err(e@),
            },
            *saved,
        ),
{
    let content = match result {
        Ok(ToolResultContent::Text(s)) => if history::exceeds_context_limit(s.as_str()) {
            ToolResultContent::Text(history::truncate_result(s.as_str(), saved))
        } else {
            ToolResultContent::Text(s.clone())
        },
        Ok(c) => c.clone(),
        Err(e) => {
            let mut m = "error: ".to_string();
            m.append(e.as_str());
            ToolResultContent::Text(m)
        },
    };
    if content.is_empty() {
        ToolResultContent::Text("(no output)".to_string())
    } else {
        content
    }
}

/// What the hook after a tool call is shown of its result.
pub fn hook_preview(content: &ToolResultContent) -> (r: String)
    ensures
        r@ == match content@ {
            ResultView::Text(s) => s,
            ResultView::Blocks(_) => "<multimodal>"@,
        },
{
    match content {
        ToolResultContent::Text(s) => s.clone(),
        ToolResultContent::Blocks(_) => "<multimodal>".to_string(),
    }
}

// ---------------------------------------------------------------------------
// The machine
// ---------------------------------------------------------------------------

/// A turn after a step, what it shares, what the interface is told, and what
/// is to be done outside.
#[verifier::ext_equal]
pub struct StepView {
    pub turn: TurnView,
    pub shared: SharedView,
    pub events: Seq<AgentEventView>,
    pub action: ActionView,
}

/// What the interface is told and what is to be done outside.
#[derive(Debug, PartialEq)]
pub struct Step {
    pub events: Vec<AgentEvent>,
    pub action: TurnAction,
}

impl TurnView {
    /// Between a request and the end of its tool calls.
    pub open spec fn is_busy(self) -> bool {
        self.phase != Phase::Between && self.phase != Phase::Over
    }

    /// Dealing with one tool call.
    pub open spec fn is_on_tool(self) -> bool {
        self.phase == Phase::LookingUp || self.phase == Phase::Asking || self.phase
            == Phase::Calling || self.phase == Phase::FetchingUi
    }

    /// The tool call that is being dealt with.
    pub open spec fn current(self) -> BlockView {
        self.tool_uses[self.next as int]
    }

    /// A state that a turn can be in.
    pub open spec fn is_valid(self) -> bool {
        &&& self.iteration <= iteration_limit(self.max_iterations)
        &&& self.is_busy() ==> self.iteration < iteration_limit(self.max_iterations)
        &&& self.next <= self.tool_uses.len()
        &&& self.is_on_tool() ==> self.next < self.tool_uses.len() && self.current() is ToolUse
        &&& self.attempt <= self.max_retries
        &&& self.phase == Phase::Waiting ==> self.attempt < self.max_retries
    }
}

/// The id and the name of a tool call.
pub open spec fn call_id(b: BlockView) -> Seq<char> {
    match b {
        BlockView::ToolUse { id, .. } => id,
        _ => Seq::empty(),
    }
}

pub open spec fn call_name(b: BlockView) -> Seq<char> {
    match b {
        BlockView::ToolUse { name, .. } => name,
        _ => Seq::empty(),
    }
}

pub open spec fn call_input(b: BlockView) -> JsonView {
    match b {
        BlockView::ToolUse { input, .. } => input,
        _ => JsonView::Null,
    }
}

/// The turn with the current tool call answered.
pub open spec fn answered(t: TurnView, content: ResultView, is_error: bool) -> TurnView {
    TurnView {
        results: t.results.push(
            BlockView::ToolResult { tool_use_id: call_id(t.current()), content, is_error },
        ),
        ..t
    }
}

/// The turn with the current tool call behind it.
pub open spec fn passed(t: TurnView) -> TurnView {
    TurnView { next: t.next + 1, ..t }
}

/// The event that reports the current tool call as over.
pub open spec fn result_event(
    t: TurnView,
    output: Result<Seq<char>, Seq<char>>,
    ui: Option<UiView>,
) -> AgentEventView {
    AgentEventView::ToolCallResult {
        id: call_id(t.current()),
        name: call_name(t.current()),
        output,
        ui_resource: ui,
    }
}

/// What is shared, with the overrides of the turn taken back.
pub open spec fn without_overrides(s: SharedView) -> SharedView {
    SharedView { model_override: None, next_turn_chunk_timeout: None, ..s }
}

/// The end of a turn.
pub open spec fn ended(
    t: TurnView,
    s: SharedView,
    events: Seq<AgentEventView>,
    stop_reason: Option<Seq<char>>,
) -> StepView {
    StepView {
        turn: TurnView { phase: Phase::Over, ..t },
        shared: without_overrides(s),
        events: events.push(AgentEventView::Done { stop_reason, usage: t.usage }),
        action: ActionView::Finished,
    }
}

/// The end of a turn by an error.
pub open spec fn aborted(t: TurnView, s: SharedView, error: ErrorView) -> StepView {
    StepView {
        turn: TurnView { phase: Phase::Over, ..t },
        shared: without_overrides(s),
        events: Seq::empty(),
        action: ActionView::Abort(error),
    }
}

/// A step that tells nothing and changes only the phase.
pub open spec fn quiet(t: TurnView, s: SharedView, phase: Phase, action: ActionView) -> StepView {
    StepView { turn: TurnView { phase, ..t }, shared: s, events: Seq::empty(), action }
}

/// On to the next tool call that has to be looked up. Calls with unreadable
/// input are answered on the way; after the last call the answers go into the
/// conversation and the next request is due.
pub open spec fn settled(t: TurnView, s: SharedView, events: Seq<AgentEventView>) -> StepView
    decreases t.tool_uses.len() - t.next,
{
    if t.next >= t.tool_uses.len() {
        StepView {
            turn: TurnView {
                iteration: t.iteration + 1,
                results: Seq::empty(),
                phase: Phase::Between,
                ..t
            },
            shared: if t.results.len() == 0 {
                s
            } else {
                SharedView {
                    history: s.history.push(MessageView { role: Role::User, content: t.results }),
                    ..s
                }
            },
            events,
            action: ActionView::Proceed,
        }
    } else if !(t.current() is ToolUse) {
        settled(passed(t), s, events)
    } else {
        match error_for(t.parse_errors, call_id(t.current())) {
            Some(e) => settled(
                passed(answered(t, ResultView::Text(e), true)),
                s,
                events.push(result_event(t, Err(e), None)),
            ),
            None => StepView {
                turn: TurnView { phase: Phase::LookingUp, ..t },
                shared: s,
                events,
                action: ActionView::LookUp {
                    id: call_id(t.current()),
                    name: call_name(t.current()),
                    input: call_input(t.current()),
                },
            },
        }
    }
}

/// The next request, or the end of the turn where it has had its share.
pub open spec fn started(t: TurnView, s: SharedView) -> StepView {
    if t.iteration < iteration_limit(t.max_iterations) {
        StepView {
            turn: TurnView {
                attempt: 0,
                text: Seq::empty(),
                thinking: Seq::empty(),
                tool_uses: Seq::empty(),
                parse_errors: Seq::empty(),
                stop_reason: None,
                next: 0,
                results: Seq::empty(),
                phase: Phase::Requesting,
                ..t
            },
            shared: s,
            events: seq![AgentEventView::IterationStart { iteration: t.iteration }],
            action: ActionView::Request,
        }
    } else {
        ended(t, s, Seq::empty(), Some("max_iterations"@))
    }
}

/// How long to wait after a number of failed attempts, in seconds.
pub open spec fn backoff_secs(attempt: nat) -> nat
    decreases attempt,
{
    if attempt == 0 {
        1
    } else {
        2 * backoff_secs((attempt - 1) as nat)
    }
}

/// After a refused request: another attempt after a wait, while there are
/// attempts left and the error is none of configuration.
pub open spec fn refused(t: TurnView, s: SharedView, error: ErrorView) -> StepView {
    if !(error is Config) && t.attempt < t.max_retries {
        quiet(t, s, Phase::Waiting, ActionView::Backoff { secs: backoff_secs(t.attempt) as u64 })
    } else {
        aborted(t, s, error)
    }
}

/// A piece of the answer.
pub open spec fn received(t: TurnView, s: SharedView, e: AssembledEvent) -> StepView {
    let (turn, events) = match e {
        AssembledEvent::Text(x) => (
            TurnView { text: t.text + x@, ..t },
            seq![AgentEventView::Text(x@)],
        ),
        AssembledEvent::Thinking(x) => (
            TurnView { thinking: t.thinking + x@, ..t },
            seq![AgentEventView::Thinking(x@)],
        ),
        AssembledEvent::ToolParseFailed { id, name, error } => (
            TurnView {
                tool_uses: t.tool_uses.push(
                    BlockView::ToolUse {
                        id: id@,
                        name: name@,
                        input: JsonView::obj(),
                        thought_signature: None,
                    },
                ),
                parse_errors: t.parse_errors.push((id@, error@)),
                ..t
            },
            seq![
                AgentEventView::ToolCallStart { id: id@, name: name@, input: JsonView::obj() },
            ],
        ),
        AssembledEvent::ToolUse(b) => (
            TurnView { tool_uses: t.tool_uses.push(b@), ..t },
            if b@ is ToolUse {
                seq![
                    AgentEventView::ToolCallStart {
                        id: call_id(b@),
                        name: call_name(b@),
                        input: call_input(b@),
                    },
                ]
            } else {
                Seq::empty()
            },
        ),
        AssembledEvent::Done { stop_reason, usage } => (
            TurnView {
                stop_reason: text::view_opt(stop_reason),
                usage: match usage {
                    Some(u) => t.usage.plus(u),
                    None => t.usage,
                },
                ..t
            },
            Seq::empty(),
        ),
    };
    StepView { turn, shared: s, events, action: ActionView::Read }
}

/// The conversation after a complete answer: the assistant's message is
/// added, and images that the model has now seen are redacted.
pub open spec fn history_after_answer(t: TurnView, h: Seq<MessageView>) -> Seq<MessageView> {
    let content = assistant_content(t.thinking, t.text, t.tool_uses);
    if content.len() == 0 {
        h
    } else {
        history::redact_history(h.push(MessageView { role: Role::Assistant, content }))
    }
}

/// A complete answer: on to its tool calls; without any, once more with the
/// higher cap where the model ran into the lower one, or the end.
pub open spec fn completed(t: TurnView, s: SharedView) -> StepView {
    let shared = SharedView { history: history_after_answer(t, s.history), ..s };
    if t.tool_uses.len() > 0 {
        settled(TurnView { next: 0, results: Seq::empty(), ..t }, shared, Seq::empty())
    } else if t.stop_reason == Some("max_tokens"@) && t.current_max_tokens < ESCALATED_MAX_TOKENS {
        StepView {
            turn: TurnView {
                iteration: t.iteration + 1,
                current_max_tokens: ESCALATED_MAX_TOKENS,
                phase: Phase::Between,
                ..t
            },
            shared,
            events: Seq::empty(),
            action: ActionView::Proceed,
        }
    } else {
        ended(t, shared, Seq::empty(), t.stop_reason)
    }
}

/// The current tool has been looked up.
pub open spec fn looked_up(
    t: TurnView,
    s: SharedView,
    found: bool,
    requires_approval: bool,
    mode: PermissionMode,
    plan_exists: bool,
) -> StepView {
    let b = t.current();
    let in_force = mode_in_force(mode, t.default_mode);
    match gate_of(call_name(b), found, requires_approval, in_force, plan_exists) {
        GateView::Refused(m) => settled(
            passed(answered(t, ResultView::Text(m), true)),
            s,
            seq![result_event(t, Err(m), None)],
        ),
        GateView::Ask => quiet(
            t,
            s,
            Phase::Asking,
            ActionView::Approve {
                name: call_name(b),
                input: call_input(b),
                originator: t.origin,
            },
        ),
        GateView::Run => quiet(
            t,
            s,
            Phase::Calling,
            ActionView::Call { name: call_name(b), input: call_input(b) },
        ),
    }
}

/// The user has decided on the current tool call.
pub open spec fn decided(t: TurnView, s: SharedView, allow: bool) -> StepView {
    let b = t.current();
    if allow {
        quiet(
            t,
            s,
            Phase::Calling,
            ActionView::Call { name: call_name(b), input: call_input(b) },
        )
    } else {
        settled(
            passed(answered(t, ResultView::Text("denied by user: "@ + call_name(b)), true)),
            s,
            seq![AgentEventView::ToolCallDenied { id: call_id(b), name: call_name(b) }],
        )
    }
}

/// The current tool has returned.
pub open spec fn returned(
    t: TurnView,
    s: SharedView,
    result: Result<ResultView, Seq<char>>,
    saved: SavedOutput,
) -> StepView {
    let t2 = answered(t, recorded_result(result, saved), result is Err);
    match result {
        Ok(c) => quiet(
            TurnView { returned: c.text(), ..t2 },
            s,
            Phase::FetchingUi,
            ActionView::FetchUi { name: call_name(t.current()) },
        ),
        Err(e) => settled(passed(t2), s, seq![result_event(t, Err(e), None)]),
    }
}

/// One step of a turn.
pub open spec fn step_of(t: TurnView, s: SharedView, e: TurnEvent) -> StepView {
    let unexpected = quiet(t, s, t.phase, ActionView::Unexpected);
    match e {
        TurnEvent::Proceed => if t.phase == Phase::Between {
            started(t, s)
        } else {
            unexpected
        },
        TurnEvent::Opened => if t.phase == Phase::Requesting {
            quiet(t, s, Phase::Streaming, ActionView::Read)
        } else {
            unexpected
        },
        TurnEvent::OpenFailed(error) => if t.phase == Phase::Requesting {
            refused(t, s, error@)
        } else {
            unexpected
        },
        TurnEvent::BackoffOver => if t.phase == Phase::Waiting {
            quiet(
                TurnView { attempt: t.attempt + 1, ..t },
                s,
                Phase::Requesting,
                ActionView::Request,
            )
        } else {
            unexpected
        },
        TurnEvent::BackoffCancelled => if t.phase == Phase::Waiting {
            aborted(t, s, ErrorView::Provider("cancelled by user during retry backoff"@))
        } else {
            unexpected
        },
        TurnEvent::Assembled(a) => if t.phase == Phase::Streaming {
            received(t, s, a)
        } else {
            unexpected
        },
        TurnEvent::StreamFailed(error) => if t.phase == Phase::Streaming {
            aborted(t, s, error@)
        } else {
            unexpected
        },
        TurnEvent::StreamEnded => if t.phase == Phase::Streaming {
            completed(t, s)
        } else {
            unexpected
        },
        TurnEvent::LookedUp { found, requires_approval, mode, plan_exists } => if t.phase
            == Phase::LookingUp {
            looked_up(t, s, found, requires_approval, mode, plan_exists)
        } else {
            unexpected
        },
        TurnEvent::Decided { allow } => if t.phase == Phase::Asking {
            decided(t, s, allow)
        } else {
            unexpected
        },
        TurnEvent::Returned { result, saved } => if t.phase == Phase::Calling {
            returned(
                t,
                s,
                match result {
                    Ok(c) => Ok(c@),
                    Err(m) => Err(m@),
                },
                saved,
            )
        } else {
            unexpected
        },
        TurnEvent::UiFetched(ui) => if t.phase == Phase::FetchingUi {
            settled(passed(t), s, seq![result_event(t, Ok(t.returned), text::view_opt(ui))])
        } else {
            unexpected
        },
    }
}

proof fn lemma_backoff_fits(attempt: nat)
    requires
        attempt < 64,
    ensures
        backoff_secs(attempt) < 0x1_0000_0000_0000_0000,
{
    reveal_with_fuel(backoff_secs, 2);
    lemma_backoff_doubles(attempt, 63);
    lemma_backoff_by_eight(0);
    lemma_backoff_by_eight(8);
    lemma_backoff_by_eight(16);
    lemma_backoff_by_eight(24);
    lemma_backoff_by_eight(32);
    lemma_backoff_by_eight(40);
    lemma_backoff_by_eight(48);
    lemma_backoff_by_eight(56);
    lemma_backoff_doubles(63, 64);
}

proof fn lemma_backoff_by_eight(n: nat)
    ensures
        backoff_secs(n + 8) == 256 * backoff_secs(n),
{
    reveal_with_fuel(backoff_secs, 9);
}

proof fn lemma_backoff_doubles(a: nat, b: nat)
    requires
        a <= b,
    ensures
        1 <= backoff_secs(a) <= backoff_secs(b),
    decreases b,
{
    if b > 0 {
        if a == b {
            lemma_backoff_doubles((a - 1) as nat, (b - 1) as nat);
        } else {
            lemma_backoff_doubles(a, (b - 1) as nat);
        }
    }
}

fn wait_secs(attempt: usize) -> (r: u64)
    requires
        attempt < 64,
    ensures
        r == backoff_secs(attempt as nat),
{
    let mut secs: u64 = 1;
    let mut i: usize = 0;
    while i < attempt
        invariant
            i <= attempt < 64,
            secs == backoff_secs(i as nat),
        decreases attempt - i,
    {
        proof {
            lemma_backoff_fits((i + 1) as nat);
        }
        secs = secs * 2;
        i = i + 1;
    }
    secs
}

impl Turn {
    /// Ends the turn with an error.
    fn abort(&mut self, shared: &mut Shared, error: Error) -> (r: Step)
        ensures
            (StepView {
                turn: final(self)@,
                shared: final(shared)@,
                events: text::views(r.events@),
                action: r.action@,
            }) == aborted(old(self)@, old(shared)@, error@),
    {
        shared.model_override = None;
        shared.next_turn_chunk_timeout = None;
        self.phase = Phase::Over;
        let r = Step { events: Vec::new(), action: TurnAction::Abort(error) };
        proof {
            assert(text::views(r.events@) =~= Seq::<AgentEventView>::empty());
        }
        r
    }

    /// Ends the turn.
    fn end(&mut self, shared: &mut Shared, stop_reason: Option<String>) -> (r: Step)
        ensures
            (StepView {
                turn: final(self)@,
                shared: final(shared)@,
                events: text::views(r.events@),
                action: r.action@,
            }) == ended(
                old(self)@,
                old(shared)@,
                Seq::empty(),
                text::view_opt(stop_reason),
            ),
    {
        shared.model_override = None;
        shared.next_turn_chunk_timeout = None;
        self.phase = Phase::Over;
        let done = AgentEvent::Done { stop_reason, usage: self.usage };
        let ghost d = done@;
        let mut events: Vec<AgentEvent> = Vec::new();
        events.push(done);
        proof {
            assert(text::views(events@) =~= Seq::<AgentEventView>::empty().push(d));
        }
        Step { events, action: TurnAction::Finished }
    }

    /// A step that tells nothing and changes only the phase.
    fn quietly(&mut self, phase: Phase, action: TurnAction) -> (r: Step)
        ensures
            final(self)@ == (TurnView { phase, ..old(self)@ }),
            text::views(r.events@) == Seq::<AgentEventView>::empty(),
            r.action == action,
    {
        self.phase = phase;
        let r = Step { events: Vec::new(), action };
        proof {
            assert(text::views(r.events@) =~= Seq::<AgentEventView>::empty());
        }
        r
    }

    /// Records the answer to the current tool call.
    fn answer(&mut self, content: ToolResultContent, is_error: bool)
        requires
            old(self)@.next < old(self)@.tool_uses.len(),
            old(self)@.current() is ToolUse,
        ensures
            final(self)@ == answered(old(self)@, content@, is_error),
    {
        let ghost t = self@;
        proof {
            assert(t.current() == self.tool_uses@[self.next as int]@);
        }
        let id = match &self.tool_uses[self.next] {
            ContentBlock::ToolUse { id, .. } => id.clone(),
            _ => String::new(),
        };
        let block = ContentBlock::ToolResult { tool_use_id: id, content, is_error };
        let ghost b = block@;
        self.results.push(block);
        proof {
            assert(text::views(self.results@) =~= t.results.push(b));
        }
    }

    /// Leaves the current tool call behind.
    fn pass(&mut self)
        requires
            old(self)@.next < old(self)@.tool_uses.len(),
        ensures
            final(self)@ == passed(old(self)@),
    {
        let n = self.tool_uses.len();
        proof {
            assert(self@.tool_uses.len() == n);
        }
        self.next = self.next + 1;
    }

    /// The event that reports the current tool call as over.
    fn report(&self, output: Result<String, String>, ui: Option<UiResource>) -> (r: AgentEvent)
        requires
            self@.next < self@.tool_uses.len(),
            self@.current() is ToolUse,
        ensures
            r@ == result_event(self@, view_result(output), text::view_opt(ui)),
    {
        proof {
            assert(self@.current() == self.tool_uses@[self.next as int]@);
        }
        match &self.tool_uses[self.next] {
            ContentBlock::ToolUse { id, name, .. } => AgentEvent::ToolCallResult {
                id: id.clone(),
                name: name.clone(),
                output,
                ui_resource: ui,
            },
            _ => AgentEvent::ToolCallResult {
                id: String::new(),
                name: String::new(),
                output,
                ui_resource: ui,
            },
        }
    }

    /// The id, name and input of the current tool call.
    fn current_call(&self) -> (r: (String, String, Json))
        requires
            self@.next < self@.tool_uses.len(),
            self@.current() is ToolUse,
        ensures
            r.0@ == call_id(self@.current()),
            r.1@ == call_name(self@.current()),
            r.2@ == call_input(self@.current()),
    {
        proof {
            assert(self@.current() == self.tool_uses@[self.next as int]@);
        }
        match &self.tool_uses[self.next] {
            ContentBlock::ToolUse { id, name, input, .. } => (
                id.clone(),
                name.clone(),
                input.copy(),
            ),
            _ => (String::new(), String::new(), Json::Null),
        }
    }

    /// On to the next tool call that has to be looked up, or to the next
    /// request.
    fn settle(&mut self, shared: &mut Shared, told: Vec<AgentEvent>) -> (r: Step)
        requires
            old(self)@.iteration < usize::MAX,
            old(self)@.next <= old(self)@.tool_uses.len(),
        ensures
            (StepView {
                turn: final(self)@,
                shared: final(shared)@,
                events: text::views(r.events@),
                action: r.action@,
            }) == settled(old(self)@, old(shared)@, text::views(told@)),
    {
        let mut events = told;
        let ghost goal = settled(self@, shared@, text::views(events@));
        while self.next < self.tool_uses.len()
            invariant
                self@.iteration < usize::MAX,
                self@.next <= self@.tool_uses.len(),
                goal == settled(self@, shared@, text::views(events@)),
                goal == settled(old(self)@, old(shared)@, text::views(told@)),
                *shared == *old(shared),
            decreases self.tool_uses@.len() - self.next,
        {
            let ghost t = self@;
            let ghost told = text::views(events@);
            proof {
                assert(t.current() == self.tool_uses@[self.next as int]@);
            }
            if let ContentBlock::ToolUse { id, .. } = &self.tool_uses[self.next] {
                match find_error(&self.parse_errors, id.as_str()) {
                    Some(e) => {
                        let ev = self.report(Err(e.clone()), None);
                        let ghost v = ev@;
                        events.push(ev);
                        self.answer(ToolResultContent::Text(e), true);
                        proof {
                            assert(text::views(events@) =~= told.push(v));
                        }
                    },
                    None => {
                        let (id, name, input) = self.current_call();
                        self.phase = Phase::LookingUp;
                        return Step { events, action: TurnAction::LookUp { id, name, input } };
                    },
                }
            }
            self.next = self.next + 1;
        }
        let ghost t = self@;
        if self.results.len() > 0 {
            let mut content: Vec<ContentBlock> = Vec::new();
            std::mem::swap(&mut content, &mut self.results);
            let ghost h = text::views(shared.history@);
            shared.history.push(Message { role: Role::User, content });
            proof {
                assert(text::views(shared.history@) =~= h.push(
                    MessageView { role: Role::User, content: t.results },
                ));
            }
        }
        self.iteration = self.iteration + 1;
        self.phase = Phase::Between;
        proof {
            assert(self@.results =~= Seq::<BlockView>::empty());
        }
        Step { events, action: TurnAction::Proceed }
    }

    /// The next request, or the end of the turn where it has had its share.
    fn start(&mut self, shared: &mut Shared) -> (r: Step)
        ensures
            (StepView {
                turn: final(self)@,
                shared: final(shared)@,
                events: text::views(r.events@),
                action: r.action@,
            }) == started(old(self)@, old(shared)@),
    {
        let limit: usize = if self.max_iterations == 0 {
            usize::MAX
        } else {
            self.max_iterations
        };
        if self.iteration < limit {
            self.attempt = 0;
            self.text = String::new();
            self.thinking = String::new();
            self.tool_uses = Vec::new();
            self.parse_errors = Vec::new();
            self.stop_reason = None;
            self.next = 0;
            self.results = Vec::new();
            self.phase = Phase::Requesting;
            let mut events: Vec<AgentEvent> = Vec::new();
            events.push(AgentEvent::IterationStart { iteration: self.iteration });
            proof {
                assert(self@.tool_uses =~= Seq::<BlockView>::empty());
                assert(self@.results =~= Seq::<BlockView>::empty());
                assert(self@.parse_errors =~= Seq::<(Seq<char>, Seq<char>)>::empty());
                assert(text::views(events@) =~= started(old(self)@, old(shared)@).events);
            }
            Step { events, action: TurnAction::Request }
        } else {
            self.end(shared, Some("max_iterations".to_string()))
        }
    }

    /// The request was refused.
    fn refuse(&mut self, shared: &mut Shared, error: Error) -> (r: Step)
        requires
            old(self).attempt < 64,
        ensures
            (StepView {
                turn: final(self)@,
                shared: final(shared)@,
                events: text::views(r.events@),
                action: r.action@,
            }) == refused(old(self)@, old(shared)@, error@),
    {
        let config = match &error {
            Error::Config(_) => true,
            _ => false,
        };
        if !config && self.attempt < self.max_retries {
            let secs = wait_secs(self.attempt);
            self.quietly(Phase::Waiting, TurnAction::Backoff { secs })
        } else {
            self.abort(shared, error)
        }
    }

    /// A piece of the answer came in.
    fn receive(&mut self, shared: &Shared, e: AssembledEvent) -> (r: Step)
        ensures
            (StepView {
                turn: final(self)@,
                shared: shared@,
                events: text::views(r.events@),
                action: r.action@,
            }) == received(old(self)@, shared@, e),
    {
        let ghost t = self@;
        let mut events: Vec<AgentEvent> = Vec::new();
        match e {
            AssembledEvent::Text(x) => {
                self.text.append(x.as_str());
                events.push(AgentEvent::Text(x));
            },
            AssembledEvent::Thinking(x) => {
                self.thinking.append(x.as_str());
                events.push(AgentEvent::Thinking(x));
            },
            AssembledEvent::ToolParseFailed { id, name, error } => {
                let block = ContentBlock::ToolUse {
                    id: id.clone(),
                    name: name.clone(),
                    input: Json::object(),
                    thought_signature: None,
                };
                let ghost b = block@;
                self.tool_uses.push(block);
                self.parse_errors.push((id.clone(), error));
                events.push(AgentEvent::ToolCallStart { id, name, input: Json::object() });
                proof {
                    assert(self@.tool_uses =~= t.tool_uses.push(b));
                    assert(self@.parse_errors =~= received(t, shared@, e).turn.parse_errors);
                }
            },
            AssembledEvent::ToolUse(block) => {
                let ghost b = block@;
                if let ContentBlock::ToolUse { id, name, input, .. } = &block {
                    events.push(
                        AgentEvent::ToolCallStart {
                            id: id.clone(),
                            name: name.clone(),
                            input: input.copy(),
                        },
                    );
                }
                self.tool_uses.push(block);
                proof {
                    assert(self@.tool_uses =~= t.tool_uses.push(b));
                }
            },
            AssembledEvent::Done { stop_reason, usage } => {
                self.stop_reason = stop_reason;
                if let Some(u) = &usage {
                    self.usage.accumulate(u);
                }
            },
        }
        proof {
            assert(text::views(events@) =~= received(t, shared@, e).events);
        }
        Step { events, action: TurnAction::Read }
    }

    /// The answer is complete.
    fn complete(&mut self, shared: &mut Shared) -> (r: Step)
        requires
            old(self)@.iteration < usize::MAX,
        ensures
            (StepView {
                turn: final(self)@,
                shared: final(shared)@,
                events: text::views(r.events@),
                action: r.action@,
            }) == completed(old(self)@, old(shared)@),
    {
        let ghost t = self@;
        let ghost h = shared@.history;
        let mut content: Vec<ContentBlock> = Vec::new();
        if !self.thinking.as_str().is_empty() {
            content.push(
                ContentBlock::Thinking { content: self.thinking.clone(), signature: None },
            );
        }
        if !self.text.as_str().is_empty() {
            content.push(ContentBlock::Text { text: self.text.clone() });
        }
        let mut calls = crate::types::copy_blocks(&self.tool_uses);
        let ghost front = text::views(content@);
        let ghost c = text::views(calls@);
        content.append(&mut calls);
        proof {
            assert(text::views(content@) =~= front + c);
            assert(text::views(content@) =~= assistant_content(t.thinking, t.text, t.tool_uses));
        }
        if content.len() > 0 {
            let m = Message { role: Role::Assistant, content };
            let ghost mv = m@;
            shared.history.push(m);
            proof {
                assert(text::views(shared.history@) =~= h.push(mv));
            }
            history::redact_consumed_images_from_history(&mut shared.history);
        }
        proof {
            assert(shared@ =~= (SharedView {
                history: history_after_answer(t, h),
                ..old(shared)@
            }));
        }
        if self.tool_uses.len() > 0 {
            self.next = 0;
            self.results = Vec::new();
            let told: Vec<AgentEvent> = Vec::new();
            proof {
                assert(self@ =~= (TurnView { next: 0, results: Seq::empty(), ..t }));
                assert(text::views(told@) =~= Seq::<AgentEventView>::empty());
            }
            return self.settle(shared, told);
        }
        let capped = match &self.stop_reason {
            Some(reason) => text::same(reason.as_str(), "max_tokens"),
            None => false,
        };
        if capped && self.current_max_tokens < ESCALATED_MAX_TOKENS {
            self.current_max_tokens = ESCALATED_MAX_TOKENS;
            self.iteration = self.iteration + 1;
            self.quietly(Phase::Between, TurnAction::Proceed)
        } else {
            let reason = text::copy_opt(&self.stop_reason);
            self.end(shared, reason)
        }
    }

    /// The current tool has been looked up.
    fn look_up(
        &mut self,
        shared: &mut Shared,
        found: bool,
        requires_approval: bool,
        mode: PermissionMode,
        plan_exists: bool,
    ) -> (r: Step)
        requires
            old(self)@.iteration < usize::MAX,
            old(self)@.next < old(self)@.tool_uses.len(),
            old(self)@.current() is ToolUse,
        ensures
            (StepView {
                turn: final(self)@,
                shared: final(shared)@,
                events: text::views(r.events@),
                action: r.action@,
            }) == looked_up(
                old(self)@,
                old(shared)@,
                found,
                requires_approval,
                mode,
                plan_exists,
            ),
    {
        let ghost t = self@;
        let in_force = if mode == PermissionMode::Ask && self.default_mode
            == PermissionMode::Auto {
            self.default_mode
        } else {
            mode
        };
        let (_id, name, input) = self.current_call();
        match gate(name.as_str(), found, requires_approval, in_force, plan_exists) {
            Gate::Refused(m) => {
                let ev = self.report(Err(m.clone()), None);
                let ghost v = ev@;
                let mut told: Vec<AgentEvent> = Vec::new();
                told.push(ev);
                self.answer(ToolResultContent::Text(m), true);
                self.pass();
                proof {
                    assert(text::views(told@) =~= seq![v]);
                }
                self.settle(shared, told)
            },
            Gate::Ask => {
                let originator = self.origin.clone();
                self.quietly(Phase::Asking, TurnAction::Approve { name, input, originator })
            },
            Gate::Run => self.quietly(Phase::Calling, TurnAction::Call { name, input }),
        }
    }

    /// The user has decided on the current tool call.
    fn decide(&mut self, shared: &mut Shared, allow: bool) -> (r: Step)
        requires
            old(self)@.iteration < usize::MAX,
            old(self)@.next < old(self)@.tool_uses.len(),
            old(self)@.current() is ToolUse,
        ensures
            (StepView {
                turn: final(self)@,
                shared: final(shared)@,
                events: text::views(r.events@),
                action: r.action@,
            }) == decided(old(self)@, old(shared)@, allow),
    {
        let (id, name, input) = self.current_call();
        if allow {
            return self.quietly(Phase::Calling, TurnAction::Call { name, input });
        }
        let mut m = "denied by user: ".to_string();
        m.append(name.as_str());
        self.answer(ToolResultContent::Text(m), true);
        self.pass();
        let mut told: Vec<AgentEvent> = Vec::new();
        let ev = AgentEvent::ToolCallDenied { id, name };
        let ghost v = ev@;
        told.push(ev);
        proof {
            assert(text::views(told@) =~= seq![v]);
        }
        self.settle(shared, told)
    }

    /// The current tool has returned.
    fn take_result(
        &mut self,
        shared: &mut Shared,
        result: Result<ToolResultContent, String>,
        saved: SavedOutput,
    ) -> (r: Step)
        requires
            old(self)@.iteration < usize::MAX,
            old(self)@.next < old(self)@.tool_uses.len(),
            old(self)@.current() is ToolUse,
        ensures
            (StepView {
                turn: final(self)@,
                shared: final(shared)@,
                events: text::views(r.events@),
                action: r.action@,
            }) == returned(
                old(self)@,
                old(shared)@,
                match result {
                    Ok(c) => Ok(c@),
                    Err(m) => Err(m@),
                },
                saved,
            ),
    {
        let content = record_result(&result, &saved);
        let (_id, name, _input) = self.current_call();
        match result {
            Ok(c) => {
                self.answer(content, false);
                self.returned = c.to_text();
                self.quietly(Phase::FetchingUi, TurnAction::FetchUi { name })
            },
            Err(e) => {
                let ev = self.report(Err(e), None);
                let ghost v = ev@;
                let mut told: Vec<AgentEvent> = Vec::new();
                told.push(ev);
                self.answer(content, true);
                self.pass();
                proof {
                    assert(text::views(told@) =~= seq![v]);
                }
                self.settle(shared, told)
            },
        }
    }

    /// The widget of the tool that has just run was asked for.
    fn show_result(&mut self, shared: &mut Shared, ui: Option<UiResource>) -> (r: Step)
        requires
            old(self)@.iteration < usize::MAX,
            old(self)@.next < old(self)@.tool_uses.len(),
            old(self)@.current() is ToolUse,
        ensures
            (StepView {
                turn: final(self)@,
                shared: final(shared)@,
                events: text::views(r.events@),
                action: r.action@,
            }) == settled(
                passed(old(self)@),
                old(shared)@,
                seq![result_event(old(self)@, Ok(old(self)@.returned), text::view_opt(ui))],
            ),
    {
        let ev = self.report(Ok(self.returned.clone()), ui);
        let ghost v = ev@;
        let mut told: Vec<AgentEvent> = Vec::new();
        told.push(ev);
        self.pass();
        proof {
            assert(text::views(told@) =~= seq![v]);
        }
        self.settle(shared, told)
    }

    /// One step of the turn: what happened outside goes in; what the
    /// interface is told and what is to be done outside come out. An event
    /// that does not belong to the phase changes nothing.
    pub fn advance(&mut self, shared: &mut Shared, event: TurnEvent) -> (r: Step)
        requires
            old(self)@.is_valid(),
            old(self).attempt < 64,
        ensures
            final(self)@.is_valid(),
            (StepView {
                turn: final(self)@,
                shared: final(shared)@,
                events: text::views(r.events@),
                action: r.action@,
            }) == step_of(old(self)@, old(shared)@, event),
    {
        proof {
            step_keeps_valid(self@, shared@, event);
        }
        let phase = self.phase;
        match event {
            TurnEvent::Proceed => if phase == Phase::Between {
                return self.start(shared);
            },
            TurnEvent::Opened => if phase == Phase::Requesting {
                return self.quietly(Phase::Streaming, TurnAction::Read);
            },
            TurnEvent::OpenFailed(error) => if phase == Phase::Requesting {
                return self.refuse(shared, error);
            },
            TurnEvent::BackoffOver => if phase == Phase::Waiting {
                self.attempt = self.attempt + 1;
                return self.quietly(Phase::Requesting, TurnAction::Request);
            },
            TurnEvent::BackoffCancelled => if phase == Phase::Waiting {
                let error = Error::Provider("cancelled by user during retry backoff".to_string());
                return self.abort(shared, error);
            },
            TurnEvent::Assembled(a) => if phase == Phase::Streaming {
                return self.receive(shared, a);
            },
            TurnEvent::StreamFailed(error) => if phase == Phase::Streaming {
                return self.abort(shared, error);
            },
            TurnEvent::StreamEnded => if phase == Phase::Streaming {
                return self.complete(shared);
            },
            TurnEvent::LookedUp { found, requires_approval, mode, plan_exists } => if phase
                == Phase::LookingUp {
                return self.look_up(shared, found, requires_approval, mode, plan_exists);
            },
            TurnEvent::Decided { allow } => if phase == Phase::Asking {
                return self.decide(shared, allow);
            },
            TurnEvent::Returned { result, saved } => if phase == Phase::Calling {
                return self.take_result(shared, result, saved);
            },
            TurnEvent::UiFetched(ui) => if phase == Phase::FetchingUi {
                return self.show_result(shared, ui);
            },
        }
        self.quietly(phase, TurnAction::Unexpected)
    }
}

// ---------------------------------------------------------------------------
// What holds of every turn
// ---------------------------------------------------------------------------

proof fn lemma_settled_valid(t: TurnView, s: SharedView, events: Seq<AgentEventView>)
    requires
        t.iteration < iteration_limit(t.max_iterations),
        t.next <= t.tool_uses.len(),
        t.attempt <= t.max_retries,
    ensures
        settled(t, s, events).turn.is_valid(),
        settled(t, s, events).turn.max_iterations == t.max_iterations,
    decreases t.tool_uses.len() - t.next,
{
    if t.next < t.tool_uses.len() {
        if !(t.current() is ToolUse) {
            lemma_settled_valid(passed(t), s, events);
        } else if let Some(e) = error_for(t.parse_errors, call_id(t.current())) {
            lemma_settled_valid(
                passed(answered(t, ResultView::Text(e), true)),
                s,
                events.push(result_event(t, Err(e), None)),
            );
        }
    }
}

/// A turn never leaves the states that a turn can be in; in particular it
/// never makes more requests than it may.
pub proof fn step_keeps_valid(t: TurnView, s: SharedView, e: TurnEvent)
    requires
        t.is_valid(),
    ensures
        step_of(t, s, e).turn.is_valid(),
        step_of(t, s, e).turn.iteration <= iteration_limit(t.max_iterations),
{
    if t.phase == Phase::Streaming && e is StreamEnded && t.tool_uses.len() > 0 {
        lemma_settled_valid(
            TurnView { next: 0, results: Seq::empty(), ..t },
            SharedView { history: history_after_answer(t, s.history), ..s },
            Seq::empty(),
        );
    }
    if t.is_on_tool() {
        match e {
            TurnEvent::LookedUp { found, requires_approval, mode, plan_exists } => {
                let m = mode_in_force(mode, t.default_mode);
                if let GateView::Refused(x) = gate_of(
                    call_name(t.current()),
                    found,
                    requires_approval,
                    m,
                    plan_exists,
                ) {
                    lemma_settled_valid(
                        passed(answered(t, ResultView::Text(x), true)),
                        s,
                        seq![result_event(t, Err(x), None)],
                    );
                }
            },
            TurnEvent::Decided { .. } => {
                lemma_settled_valid(
                    passed(
                        answered(
                            t,
                            ResultView::Text("denied by user: "@ + call_name(t.current())),
                            true,
                        ),
                    ),
                    s,
                    seq![
                        AgentEventView::ToolCallDenied {
                            id: call_id(t.current()),
                            name: call_name(t.current()),
                        },
                    ],
                );
            },
            TurnEvent::Returned { result: Err(m), saved } => {
                lemma_settled_valid(
                    passed(
                        answered(
                            t,
                            recorded_result(Err::<ResultView, Seq<char>>(m@), saved),
                            true,
                        ),
                    ),
                    s,
                    seq![result_event(t, Err(m@), None)],
                );
            },
            TurnEvent::UiFetched(ui) => {
                lemma_settled_valid(
                    passed(t),
                    s,
                    seq![result_event(t, Ok(t.returned), text::view_opt(ui))],
                );
            },
            _ => {},
        }
    }
}

/// What a turn was started with and keeps to its end.
#[verifier::ext_equal]
pub struct SettingsView {
    pub model: Seq<char>,
    pub system: Seq<char>,
    pub budget_tokens: usize,
    pub max_iterations: usize,
    pub max_retries: usize,
    pub thinking_budget: Option<u32>,
    pub default_mode: PermissionMode,
    pub origin: AgentOrigin,
}

impl TurnView {
    pub open spec fn settings(self) -> SettingsView {
        SettingsView {
            model: self.model,
            system: self.system,
            budget_tokens: self.budget_tokens,
            max_iterations: self.max_iterations,
            max_retries: self.max_retries,
            thinking_budget: self.thinking_budget,
            default_mode: self.default_mode,
            origin: self.origin,
        }
    }
}

proof fn lemma_settled_settings(t: TurnView, s: SharedView, events: Seq<AgentEventView>)
    ensures
        settled(t, s, events).turn.settings() == t.settings(),
    decreases t.tool_uses.len() - t.next,
{
    if t.next < t.tool_uses.len() {
        if !(t.current() is ToolUse) {
            lemma_settled_settings(passed(t), s, events);
        } else if let Some(e) = error_for(t.parse_errors, call_id(t.current())) {
            lemma_settled_settings(
                passed(answered(t, ResultView::Text(e), true)),
                s,
                events.push(result_event(t, Err(e), None)),
            );
        }
    }
}

/// Every request of a turn goes out with what the turn was started with: no
/// step changes the model, the system prompt, the budgets, the limits, the
/// mode or the origin.
pub proof fn settings_last_the_turn(t: TurnView, s: SharedView, e: TurnEvent)
    ensures
        step_of(t, s, e).turn.settings() == t.settings(),
{
    let b = t.current();
    match e {
        TurnEvent::StreamEnded => {
            lemma_settled_settings(
                TurnView { next: 0, results: Seq::empty(), ..t },
                SharedView { history: history_after_answer(t, s.history), ..s },
                Seq::empty(),
            );
        },
        TurnEvent::LookedUp { found, requires_approval, mode, plan_exists } => {
            let m = mode_in_force(mode, t.default_mode);
            if let GateView::Refused(x) = gate_of(
                call_name(b),
                found,
                requires_approval,
                m,
                plan_exists,
            ) {
                lemma_settled_settings(
                    passed(answered(t, ResultView::Text(x), true)),
                    s,
                    seq![result_event(t, Err(x), None)],
                );
            }
        },
        TurnEvent::Decided { .. } => {
            lemma_settled_settings(
                passed(answered(t, ResultView::Text("denied by user: "@ + call_name(b)), true)),
                s,
                seq![AgentEventView::ToolCallDenied { id: call_id(b), name: call_name(b) }],
            );
        },
        TurnEvent::Returned { result: Err(m), saved } => {
            lemma_settled_settings(
                passed(
                    answered(t, recorded_result(Err::<ResultView, Seq<char>>(m@), saved), true),
                ),
                s,
                seq![result_event(t, Err(m@), None)],
            );
        },
        TurnEvent::UiFetched(ui) => {
            lemma_settled_settings(
                passed(t),
                s,
                seq![result_event(t, Ok(t.returned), text::view_opt(ui))],
            );
        },
        _ => {},
    }
}

/// What [`settled`] leads to: the next request, or the look-up of a tool.
proof fn lemma_settled_action(t: TurnView, s: SharedView, events: Seq<AgentEventView>)
    requires
        t.next <= t.tool_uses.len(),
    ensures
        settled(t, s, events).action is LookUp || settled(t, s, events).action is Proceed,
        settled(t, s, events).turn.current_max_tokens == t.current_max_tokens,
        settled(t, s, events).shared.model_override == s.model_override,
        settled(t, s, events).shared.next_turn_chunk_timeout == s.next_turn_chunk_timeout,
    decreases t.tool_uses.len() - t.next,
{
    if t.next < t.tool_uses.len() {
        if !(t.current() is ToolUse) {
            lemma_settled_action(passed(t), s, events);
        } else if let Some(e) = error_for(t.parse_errors, call_id(t.current())) {
            lemma_settled_action(
                passed(answered(t, ResultView::Text(e), true)),
                s,
                events.push(result_event(t, Err(e), None)),
            );
        }
    }
}

proof fn lemma_tool_steps(t: TurnView, s: SharedView, e: TurnEvent)
    requires
        t.is_valid(),
        t.is_on_tool(),
    ensures
        step_of(t, s, e).action is Call ==> (e is LookedUp || e is Decided),
        step_of(t, s, e).action is Approve ==> e is LookedUp,
        !(step_of(t, s, e).action is Finished),
        !(step_of(t, s, e).action is Abort),
        step_of(t, s, e).turn.current_max_tokens == t.current_max_tokens,
        e matches TurnEvent::LookedUp { found, requires_approval, mode, plan_exists } && gate_of(
            call_name(t.current()),
            found,
            requires_approval,
            mode_in_force(mode, t.default_mode),
            plan_exists,
        ) is Refused ==> !(step_of(t, s, e).action is Call) && !(step_of(
            t,
            s,
            e,
        ).action is Approve),
        e matches TurnEvent::Decided { allow } && !allow ==> !(step_of(t, s, e).action is Call),
{
    match e {
        TurnEvent::LookedUp { found, requires_approval, mode, plan_exists } => {
            let m = mode_in_force(mode, t.default_mode);
            if let GateView::Refused(x) = gate_of(
                call_name(t.current()),
                found,
                requires_approval,
                m,
                plan_exists,
            ) {
                lemma_settled_action(
                    passed(answered(t, ResultView::Text(x), true)),
                    s,
                    seq![result_event(t, Err(x), None)],
                );
            }
        },
        TurnEvent::Decided { .. } => {
            lemma_settled_action(
                passed(
                    answered(
                        t,
                        ResultView::Text("denied by user: "@ + call_name(t.current())),
                        true,
                    ),
                ),
                s,
                seq![
                    AgentEventView::ToolCallDenied {
                        id: call_id(t.current()),
                        name: call_name(t.current()),
                    },
                ],
            );
        },
        TurnEvent::Returned { result: Err(m), saved } => {
            lemma_settled_action(
                passed(
                    answered(t, recorded_result(Err::<ResultView, Seq<char>>(m@), saved), true),
                ),
                s,
                seq![result_event(t, Err(m@), None)],
            );
        },
        TurnEvent::UiFetched(ui) => {
            lemma_settled_action(
                passed(t),
                s,
                seq![result_event(t, Ok(t.returned), text::view_opt(ui))],
            );
        },
        _ => {},
    }
}

proof fn lemma_answer_steps(t: TurnView, s: SharedView)
    ensures
        !(completed(t, s).action is Call),
        !(completed(t, s).action is Approve),
        !(completed(t, s).action is Abort),
        completed(t, s).turn.current_max_tokens == t.current_max_tokens || (
        t.current_max_tokens < ESCALATED_MAX_TOKENS && completed(t, s).turn.current_max_tokens
            == ESCALATED_MAX_TOKENS),
        completed(t, s).action is Finished ==> completed(t, s).shared.model_override is None
            && completed(t, s).shared.next_turn_chunk_timeout is None,
{
    if t.tool_uses.len() > 0 {
        lemma_settled_action(
            TurnView { next: 0, results: Seq::empty(), ..t },
            SharedView { history: history_after_answer(t, s.history), ..s },
            Seq::empty(),
        );
    }
}

/// In plan mode a tool that needs approval is neither run nor asked about,
/// and neither is the scratchpad tool.
pub proof fn plan_mode_runs_nothing_that_needs_approval(
    t: TurnView,
    s: SharedView,
    found: bool,
    requires_approval: bool,
    plan_exists: bool,
)
    requires
        t.is_valid(),
        requires_approval || call_name(t.current()) == "TodoWrite"@,
    ensures
        ({
            let r = step_of(
                t,
                s,
                TurnEvent::LookedUp {
                    found,
                    requires_approval,
                    mode: PermissionMode::Plan,
                    plan_exists,
                },
            );
            !(r.action is Call) && !(r.action is Approve)
        }),
{
    if t.phase == Phase::LookingUp {
        lemma_tool_steps(
            t,
            s,
            TurnEvent::LookedUp {
                found,
                requires_approval,
                mode: PermissionMode::Plan,
                plan_exists,
            },
        );
    }
}

/// While a submitted plan waits for approval, the model can neither move its
/// steps nor leave plan mode.
pub proof fn waiting_plan_stays_put(
    t: TurnView,
    s: SharedView,
    found: bool,
    requires_approval: bool,
)
    requires
        t.is_valid(),
        call_name(t.current()) == "UpdatePlanStep"@ || call_name(t.current()) == "ExitPlanMode"@,
    ensures
        !(step_of(
            t,
            s,
            TurnEvent::LookedUp {
                found,
                requires_approval,
                mode: PermissionMode::Plan,
                plan_exists: true,
            },
        ).action is Call),
{
    if t.phase == Phase::LookingUp {
        lemma_tool_steps(
            t,
            s,
            TurnEvent::LookedUp {
                found,
                requires_approval,
                mode: PermissionMode::Plan,
                plan_exists: true,
            },
        );
    }
}

/// A tool that needs approval runs without a question only where the mode in
/// force is `Auto`; a tool that the user refused does not run.
pub proof fn approval_comes_first(t: TurnView, s: SharedView, e: TurnEvent)
    requires
        t.is_valid(),
        step_of(t, s, e).action is Call,
    ensures
        match e {
            TurnEvent::LookedUp { found, requires_approval, mode, plan_exists } => found && (
            requires_approval ==> mode_in_force(mode, t.default_mode) == PermissionMode::Auto),
            TurnEvent::Decided { allow } => t.phase == Phase::Asking && allow,
            _ => false,
        },
{
    if t.is_on_tool() {
        lemma_tool_steps(t, s, e);
    } else {
        lemma_answer_steps(t, s);
    }
}

/// The output cap changes at most to the escalated one, and only from a lower
/// one: so at most once in a turn.
pub proof fn cap_escalates_once(t: TurnView, s: SharedView, e: TurnEvent)
    requires
        t.is_valid(),
    ensures
        ({
            let after = step_of(t, s, e).turn.current_max_tokens;
            after == t.current_max_tokens || (t.current_max_tokens < ESCALATED_MAX_TOKENS && after
                == ESCALATED_MAX_TOKENS)
        }),
{
    if t.is_on_tool() {
        lemma_tool_steps(t, s, e);
    } else {
        lemma_answer_steps(t, s);
    }
}

/// When a turn ends, however it ends, its overrides are gone, so that the next
/// turn starts from the agent's own settings.
pub proof fn overrides_end_with_the_turn(t: TurnView, s: SharedView, e: TurnEvent)
    requires
        t.is_valid(),
        step_of(t, s, e).action is Finished || step_of(t, s, e).action is Abort,
    ensures
        step_of(t, s, e).shared.model_override is None,
        step_of(t, s, e).shared.next_turn_chunk_timeout is None,
        step_of(t, s, e).turn.phase == Phase::Over,
{
    if t.is_on_tool() {
        lemma_tool_steps(t, s, e);
    } else {
        lemma_answer_steps(t, s);
        if t.tool_uses.len() > 0 {
            lemma_settled_action(
                TurnView { next: 0, results: Seq::empty(), ..t },
                SharedView { history: history_after_answer(t, s.history), ..s },
                Seq::empty(),
            );
        }
    }
}

/// A turn that is over stays over, and an event that does not belong changes
/// nothing.
pub proof fn stray_events_change_nothing(t: TurnView, s: SharedView, e: TurnEvent)
    requires
        t.phase == Phase::Over,
    ensures
        step_of(t, s, e) == (StepView {
            turn: t,
            shared: s,
            events: Seq::empty(),
            action: ActionView::Unexpected,
        }),
{
}

/// The ids of the tool calls among blocks, in order.
pub open spec fn call_ids(b: Seq<BlockView>) -> Seq<Seq<char>>
    decreases b.len(),
{
    if b.len() == 0 {
        Seq::empty()
    } else if b.last() is ToolUse {
        call_ids(b.drop_last()).push(call_id(b.last()))
    } else {
        call_ids(b.drop_last())
    }
}

/// The ids that a list of tool results answers, in order.
pub open spec fn answered_ids(b: Seq<BlockView>) -> Seq<Seq<char>> {
    Seq::new(
        b.len(),
        |i: int|
            match b[i] {
                BlockView::ToolResult { tool_use_id, .. } => tool_use_id,
                _ => Seq::empty(),
            },
    )
}

/// The tool calls that have been answered: those behind us, and the current
/// one once it has returned.
pub open spec fn calls_behind(t: TurnView) -> Seq<BlockView> {
    if t.phase == Phase::FetchingUi {
        t.tool_uses.take((t.next + 1) as int)
    } else {
        t.tool_uses.take(t.next as int)
    }
}

/// Every tool call that is behind us has exactly one answer, in order.
pub open spec fn calls_are_answered(t: TurnView) -> bool {
    &&& t.next <= t.tool_uses.len()
    &&& t.phase == Phase::FetchingUi ==> t.next < t.tool_uses.len()
    &&& answered_ids(t.results) == call_ids(calls_behind(t))
}

proof fn lemma_answer_one(t: TurnView, content: ResultView, is_error: bool)
    requires
        t.next < t.tool_uses.len(),
        t.current() is ToolUse,
        answered_ids(t.results) == call_ids(t.tool_uses.take(t.next as int)),
    ensures
        answered_ids(answered(t, content, is_error).results) == call_ids(
            t.tool_uses.take((t.next + 1) as int),
        ),
{
    let w = t.tool_uses.take((t.next + 1) as int);
    assert(w.drop_last() == t.tool_uses.take(t.next as int));
    assert(answered_ids(answered(t, content, is_error).results) =~= answered_ids(t.results).push(
        call_id(t.current()),
    ));
}

proof fn lemma_settled_answers(t: TurnView, s: SharedView, events: Seq<AgentEventView>)
    requires
        t.next <= t.tool_uses.len(),
        answered_ids(t.results) == call_ids(t.tool_uses.take(t.next as int)),
    ensures
        ({
            let r = settled(t, s, events);
            &&& r.turn.phase == Phase::LookingUp ==> calls_are_answered(r.turn)
            &&& r.turn.phase == Phase::Between ==> {
                if call_ids(t.tool_uses).len() == 0 {
                    r.shared.history == s.history
                } else {
                    &&& r.shared.history.drop_last() == s.history
                    &&& r.shared.history.len() == s.history.len() + 1
                    &&& r.shared.history.last().role == Role::User
                    &&& answered_ids(r.shared.history.last().content) == call_ids(t.tool_uses)
                }
            }
            &&& r.turn.phase == Phase::Between || r.turn.phase == Phase::LookingUp
        }),
    decreases t.tool_uses.len() - t.next,
{
    if t.next >= t.tool_uses.len() {
        assert(t.tool_uses.take(t.next as int) == t.tool_uses);
        assert(answered_ids(t.results).len() == t.results.len());
        assert(settled(t, s, events).shared.history.drop_last() =~= s.history
            || t.results.len() == 0);
    } else if !(t.current() is ToolUse) {
        assert(t.tool_uses.take((t.next + 1) as int).drop_last() == t.tool_uses.take(t.next as int));
        lemma_settled_answers(passed(t), s, events);
    } else if let Some(e) = error_for(t.parse_errors, call_id(t.current())) {
        lemma_answer_one(t, ResultView::Text(e), true);
        lemma_settled_answers(
            passed(answered(t, ResultView::Text(e), true)),
            s,
            events.push(result_event(t, Err(e), None)),
        );
    }
}

/// Every tool call gets exactly one answer, in the order of the calls: while
/// the calls are dealt with this holds of those behind us, and when the next
/// request is due, the conversation ends with a message of the user that
/// answers each call of the request in order, also where no call of it could
/// be read.
pub proof fn every_call_is_answered_once(t: TurnView, s: SharedView, e: TurnEvent)
    requires
        t.is_valid(),
        t.is_on_tool() ==> calls_are_answered(t),
    ensures
        ({
            let r = step_of(t, s, e);
            &&& r.turn.is_on_tool() ==> calls_are_answered(r.turn)
            &&& (t.is_on_tool() || (t.phase == Phase::Streaming && t.tool_uses.len() > 0))
                && r.turn.phase == Phase::Between ==> {
                let asked = if t.is_on_tool() {
                    s.history
                } else {
                    history_after_answer(t, s.history)
                };
                if call_ids(t.tool_uses).len() == 0 {
                    r.shared.history == asked
                } else {
                    &&& r.shared.history.drop_last() == asked
                    &&& r.shared.history.last().role == Role::User
                    &&& answered_ids(r.shared.history.last().content) == call_ids(t.tool_uses)
                }
            }
        }),
{
    if t.phase == Phase::Streaming && e is StreamEnded && t.tool_uses.len() > 0 {
        let t0 = TurnView { next: 0, results: Seq::empty(), ..t };
        assert(answered_ids(t0.results) =~= call_ids(t0.tool_uses.take(0)));
        lemma_settled_answers(
            t0,
            SharedView { history: history_after_answer(t, s.history), ..s },
            Seq::empty(),
        );
    }
    if t.is_on_tool() {
        match e {
            TurnEvent::LookedUp { found, requires_approval, mode, plan_exists } => {
                let m = mode_in_force(mode, t.default_mode);
                if t.phase == Phase::LookingUp {
                    if let GateView::Refused(x) = gate_of(
                        call_name(t.current()),
                        found,
                        requires_approval,
                        m,
                        plan_exists,
                    ) {
                        lemma_answer_one(t, ResultView::Text(x), true);
                        lemma_settled_answers(
                            passed(answered(t, ResultView::Text(x), true)),
                            s,
                            seq![result_event(t, Err(x), None)],
                        );
                    }
                }
            },
            TurnEvent::Decided { allow } => {
                if t.phase == Phase::Asking && !allow {
                    let c = ResultView::Text("denied by user: "@ + call_name(t.current()));
                    lemma_answer_one(t, c, true);
                    lemma_settled_answers(
                        passed(answered(t, c, true)),
                        s,
                        seq![
                            AgentEventView::ToolCallDenied {
                                id: call_id(t.current()),
                                name: call_name(t.current()),
                            },
                        ],
                    );
                }
            },
            TurnEvent::Returned { result, saved } => {
                if t.phase == Phase::Calling {
                    let res = match result {
                        Ok(c) => Ok::<ResultView, Seq<char>>(c@),
                        Err(m) => Err(m@),
                    };
                    lemma_answer_one(t, recorded_result(res, saved), result is Err);
                    if let Err(m) = result {
                        lemma_settled_answers(
                            passed(answered(t, recorded_result(res, saved), true)),
                            s,
                            seq![result_event(t, Err(m@), None)],
                        );
                    }
                }
            },
            TurnEvent::UiFetched(ui) => {
                if t.phase == Phase::FetchingUi {
                    lemma_settled_answers(
                        passed(t),
                        s,
                        seq![result_event(t, Ok(t.returned), text::view_opt(ui))],
                    );
                }
            },
            _ => {},
        }
    }
}

} // verus!
