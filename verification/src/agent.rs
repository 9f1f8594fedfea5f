//! The agent: what it is set up with, how a turn starts, what its requests
//! look like, and what a finished turn amounts to.

use vstd::prelude::*;

use crate::plan::{self, PermissionMode, Plan};
use crate::text;
use crate::turn::{self, AgentEvent, AgentEventView, AgentOrigin, Phase, Shared, Turn};
use crate::types::{
    self, BlockView, ContentBlock, Error, ErrorView, Message, MessageView, Role, StreamRequest,
    ToolDef, Usage,
};

verus! {

/// The output cap of a request, where nothing else is asked for.
pub const DEFAULT_MAX_TOKENS: u32 = 8192;

/// The most requests of a turn, where nothing else is asked for.
pub const DEFAULT_MAX_ITERATIONS: usize = 200;

/// How often a refused request is repeated, where nothing else is asked for.
pub const DEFAULT_MAX_RETRIES: usize = 3;

/// An agent. `P` is the provider it talks to, `T` its tools, `A` whoever
/// approves tool calls, `C` its cancel signal and `H` its hooks.
pub struct Agent<P, T, A, C, H> {
    pub provider: P,
    pub tools: T,
    pub model: String,
    pub system: String,
    pub budget_tokens: usize,
    pub max_tokens: u32,
    pub max_iterations: usize,
    pub max_retries: usize,
    pub thinking_budget: Option<u32>,
    pub permission_mode: PermissionMode,
    /// Who is asked; nobody where every call is let through.
    pub approver: Option<A>,
    pub cancel: Option<C>,
    pub hooks: Option<H>,
    pub origin: AgentOrigin,
    pub shared: Shared,
}

/// The system prompt of a turn: the agent's own, then the plan reminder, then
/// the todo reminder, with an empty line between the parts that there are.
pub open spec fn turn_system(
    base: Seq<char>,
    plan_reminder: Option<Seq<char>>,
    todos_reminder: Option<Seq<char>>,
) -> Seq<char> {
    let chained = match (plan_reminder, todos_reminder) {
        (Some(p), Some(t)) => Some(p + "\n\n"@ + t),
        (Some(p), None) => Some(p),
        (None, Some(t)) => Some(t),
        (None, None) => None,
    };
    match chained {
        Some(r) => if base.len() > 0 {
            base + "\n\n"@ + r
        } else {
            r
        },
        None => base,
    }
}

/// The system prompt of a turn.
pub fn compose_system(
    base: &str,
    plan_reminder: Option<String>,
    todos_reminder: Option<String>,
) -> (r: String)
    ensures
        r@ == turn_system(base@, text::view_opt(plan_reminder), text::view_opt(todos_reminder)),
{
    let chained = match (plan_reminder, todos_reminder) {
        (Some(p), Some(t)) => {
            let mut s = p;
            s.append("\n\n");
            s.append(t.as_str());
            Some(s)
        },
        (Some(p), None) => Some(p),
        (None, t) => t,
    };
    match chained {
        Some(r) => if base.is_empty() {
            r
        } else {
            let mut s = base.to_string();
            s.append("\n\n");
            s.append(r.as_str());
            s
        },
        None => base.to_string(),
    }
}

impl<P, T, A, C, H> Agent<P, T, A, C, H> {
    /// An agent with default limits. `context_window` is how many tokens the
    /// model takes.
    pub fn new(provider: P, tools: T, model: String, system: String, context_window: usize) -> (r:
        Self)
        ensures
            r.provider == provider,
            r.tools == tools,
            r.model == model,
            r.system == system,
            r.budget_tokens == context_window,
            r.max_tokens == DEFAULT_MAX_TOKENS,
            r.max_iterations == DEFAULT_MAX_ITERATIONS,
            r.max_retries == DEFAULT_MAX_RETRIES,
            r.thinking_budget is None,
            r.permission_mode == PermissionMode::Auto,
            r.approver is None,
            r.cancel is None,
            r.hooks is None,
            r.origin == AgentOrigin::Main,
            r.shared@.history == Seq::<MessageView>::empty(),
            r.shared@.model_override is None,
            r.shared@.next_turn_chunk_timeout is None,
    {
        let shared = Shared {
            history: Vec::new(),
            model_override: None,
            next_turn_chunk_timeout: None,
        };
        proof {
            assert(shared@.history =~= Seq::<MessageView>::empty());
        }
        Agent {
            provider,
            tools,
            model,
            system,
            budget_tokens: context_window,
            max_tokens: DEFAULT_MAX_TOKENS,
            max_iterations: DEFAULT_MAX_ITERATIONS,
            max_retries: DEFAULT_MAX_RETRIES,
            thinking_budget: None,
            permission_mode: PermissionMode::Auto,
            approver: None,
            cancel: None,
            hooks: None,
            origin: AgentOrigin::Main,
            shared,
        }
    }

    /// Gives the next turn its own idle timeout; it is gone when that turn
    /// ends.
    pub fn set_next_turn_chunk_timeout(&mut self, timeout: std::time::Duration)
        ensures
            *final(self) == (Self {
                shared: Shared {
                    next_turn_chunk_timeout: Some(timeout),
                    ..old(self).shared
                },
                ..*old(self)
            }),
    {
        self.shared.next_turn_chunk_timeout = Some(timeout);
    }

    /// The place where the next turn's idle timeout is kept.
    pub fn next_turn_chunk_timeout_slot(&mut self) -> (r: &mut Option<std::time::Duration>)
        ensures
            *r == old(self).shared.next_turn_chunk_timeout,
            *final(self) == (Self {
                shared: Shared {
                    next_turn_chunk_timeout: *final(r),
                    ..old(self).shared
                },
                ..*old(self)
            }),
    {
        &mut self.shared.next_turn_chunk_timeout
    }

    /// The place where the model override of the running turn is kept.
    pub fn model_override_handle(&mut self) -> (r: &mut Option<String>)
        ensures
            *r == old(self).shared.model_override,
            *final(self) == (Self {
                shared: Shared { model_override: *final(r), ..old(self).shared },
                ..*old(self)
            }),
    {
        &mut self.shared.model_override
    }

    /// The agent under another name for approval requests.
    pub fn with_origin(self, origin: AgentOrigin) -> (r: Self)
        ensures
            r == (Self { origin, ..self }),
    {
        Agent { origin, ..self }
    }

    /// The agent with a cancel signal.
    pub fn with_cancel(self, token: C) -> (r: Self)
        ensures
            r == (Self { cancel: Some(token), ..self }),
    {
        Agent { cancel: Some(token), ..self }
    }

    /// The agent with hooks.
    pub fn with_hooks(self, hooks: H) -> (r: Self)
        ensures
            r == (Self { hooks: Some(hooks), ..self }),
    {
        Agent { hooks: Some(hooks), ..self }
    }

    /// The agent with another limit on requests per turn; 0 for none.
    pub fn with_max_iterations(self, n: usize) -> (r: Self)
        ensures
            r == (Self { max_iterations: n, ..self }),
    {
        Agent { max_iterations: n, ..self }
    }

    /// The agent with another output cap.
    pub fn with_max_tokens(self, n: u32) -> (r: Self)
        ensures
            r == (Self { max_tokens: n, ..self }),
    {
        Agent { max_tokens: n, ..self }
    }

    /// The agent with another permission mode.
    pub fn with_permission_mode(self, mode: PermissionMode) -> (r: Self)
        ensures
            r == (Self { permission_mode: mode, ..self }),
    {
        Agent { permission_mode: mode, ..self }
    }

    /// The agent with somebody to ask.
    pub fn with_approver(self, approver: A) -> (r: Self)
        ensures
            r == (Self { approver: Some(approver), ..self }),
    {
        Agent { approver: Some(approver), ..self }
    }

    /// Adds to the agent's system prompt.
    pub fn append_system(&mut self, addition: &str)
        ensures
            final(self).system@ == old(self).system@ + addition@,
            *final(self) == (Self { system: final(self).system, ..*old(self) }),
    {
        self.system.append(addition);
    }

    /// A copy of the conversation so far.
    pub fn history_snapshot(&self) -> (r: Vec<Message>)
        ensures
            text::views(r@) == self.shared@.history,
    {
        types::copy_messages(&self.shared.history)
    }

    /// The provider.
    pub fn provider(&self) -> (r: &P)
        ensures
            *r == self.provider,
    {
        &self.provider
    }

    /// Forgets the conversation.
    pub fn clear_history(&mut self)
        ensures
            final(self).shared@.history == Seq::<MessageView>::empty(),
            *final(self) == (Self {
                shared: Shared { history: final(self).shared.history, ..old(self).shared },
                ..*old(self)
            }),
    {
        self.shared.history = Vec::new();
        proof {
            assert(self.shared@.history =~= Seq::<MessageView>::empty());
        }
    }

    /// Replaces the conversation.
    pub fn set_history(&mut self, messages: Vec<Message>)
        ensures
            *final(self) == (Self {
                shared: Shared { history: messages, ..old(self).shared },
                ..*old(self)
            }),
    {
        self.shared.history = messages;
    }

    /// Starts a turn with a plain text. See [`Agent::run_turn_multipart`].
    pub fn run_turn(
        &mut self,
        user_msg: String,
        mode: PermissionMode,
        plan: Option<&Plan>,
        todos_reminder: Option<String>,
    ) -> (r: Turn)
        ensures
            turn_starts(
                *old(self),
                *final(self),
                seq![BlockView::Text(user_msg@)],
                mode,
                plan::steps_of(plan),
                text::view_opt(todos_reminder),
                r,
            ),
    {
        let mut content: Vec<ContentBlock> = Vec::new();
        content.push(ContentBlock::text(user_msg));
        proof {
            assert(text::views(content@) =~= seq![BlockView::Text(user_msg@)]);
        }
        self.run_turn_multipart(content, mode, plan, todos_reminder)
    }

    /// Starts a turn: the user's message goes into the conversation, and the
    /// turn gets the agent's settings and a system prompt that carries the
    /// reminders of the moment.
    pub fn run_turn_multipart(
        &mut self,
        user_content: Vec<ContentBlock>,
        mode: PermissionMode,
        plan: Option<&Plan>,
        todos_reminder: Option<String>,
    ) -> (r: Turn)
        ensures
            turn_starts(
                *old(self),
                *final(self),
                text::views(user_content@),
                mode,
                plan::steps_of(plan),
                text::view_opt(todos_reminder),
                r,
            ),
    {
        let plan_reminder = plan::build_plan_reminder(mode, plan);
        let system = compose_system(self.system.as_str(), plan_reminder, todos_reminder);
        let ghost h = self.shared@.history;
        let message = Message { role: Role::User, content: user_content };
        let ghost m = message@;
        self.shared.history.push(message);
        let turn = Turn {
            model: self.model.clone(),
            system,
            budget_tokens: self.budget_tokens,
            max_iterations: self.max_iterations,
            max_retries: self.max_retries,
            thinking_budget: self.thinking_budget,
            default_mode: self.permission_mode,
            origin: self.origin.clone(),
            iteration: 0,
            current_max_tokens: self.max_tokens,
            usage: Usage::default(),
            attempt: 0,
            text: String::new(),
            thinking: String::new(),
            tool_uses: Vec::new(),
            parse_errors: Vec::new(),
            stop_reason: None,
            next: 0,
            results: Vec::new(),
            returned: String::new(),
            phase: Phase::Between,
        };
        proof {
            assert(self.shared@.history =~= h.push(m));
            assert(turn@.tool_uses =~= Seq::<BlockView>::empty());
        }
        turn
    }
}

/// What a turn starts with.
pub open spec fn turn_starts<P, T, A, C, H>(
    before: Agent<P, T, A, C, H>,
    after: Agent<P, T, A, C, H>,
    user_content: Seq<BlockView>,
    mode: PermissionMode,
    plan: Option<Seq<plan::PlanStep>>,
    todos_reminder: Option<Seq<char>>,
    t: Turn,
) -> bool {
    &&& after == (Agent {
        shared: Shared { history: after.shared.history, ..before.shared },
        ..before
    })
    &&& after.shared@.history == before.shared@.history.push(
        MessageView { role: Role::User, content: user_content },
    )
    &&& t@.is_valid()
    &&& t@.phase == Phase::Between
    &&& t.iteration == 0
    &&& t.attempt == 0
    &&& t.model@ == before.model@
    &&& t.system@ == turn_system(
        before.system@,
        plan::plan_reminder(mode, plan),
        todos_reminder,
    )
    &&& t.budget_tokens == before.budget_tokens
    &&& t.max_iterations == before.max_iterations
    &&& t.max_retries == before.max_retries
    &&& t.thinking_budget == before.thinking_budget
    &&& t.default_mode == before.permission_mode
    &&& t.origin == before.origin
    &&& t.current_max_tokens == before.max_tokens
    &&& t.usage == Usage::zero()
}

// ---------------------------------------------------------------------------
// Requests
// ---------------------------------------------------------------------------

/// `a - b`, or 0 where that is negative.
pub open spec fn less(a: nat, b: nat) -> nat {
    if a > b {
        (a - b) as nat
    } else {
        0
    }
}

/// How many tokens of conversation fit: the context window without the system
/// prompt and without the reserve for tool definitions.
pub fn messages_budget(budget_tokens: usize, system_tokens: usize) -> (r: usize)
    ensures
        r == less(
            less(budget_tokens as nat, system_tokens as nat),
            turn::TOOLS_RESERVE_TOKENS as nat,
        ),
{
    budget_tokens.saturating_sub(system_tokens).saturating_sub(turn::TOOLS_RESERVE_TOKENS)
}

/// Whether the conversation has to be compacted before it is sent.
pub fn needs_compaction(message_tokens: usize, budget: usize) -> (r: bool)
    ensures
        r == (message_tokens > budget),
{
    message_tokens > budget
}

/// The model of the next request: the override, where there is one.
pub open spec fn model_in_force(over: Option<Seq<char>>, model: Seq<char>) -> Seq<char> {
    match over {
        Some(m) => m,
        None => model,
    }
}

/// The output cap of the next request: no more than the model gives.
pub open spec fn capped(current: u32, model_cap: Option<u32>) -> u32 {
    match model_cap {
        Some(cap) => if cap < current {
            cap
        } else {
            current
        },
        None => current,
    }
}

/// The model of the next request.
pub fn active_model(turn: &Turn, shared: &Shared) -> (r: String)
    ensures
        r@ == model_in_force(shared@.model_override, turn.model@),
{
    match &shared.model_override {
        Some(m) => m.clone(),
        None => turn.model.clone(),
    }
}

/// The next request of a turn. `messages` is the conversation, compacted
/// where needed; `model_cap` is the most output tokens that the model gives.
pub fn build_request(
    turn: &Turn,
    shared: &Shared,
    messages: Vec<Message>,
    tools: Vec<ToolDef>,
    model_cap: Option<u32>,
) -> (r: StreamRequest)
    ensures
        r.model@ == model_in_force(shared@.model_override, turn.model@),
        text::view_opt(r.system) == if turn.system@.len() == 0 {
            None::<Seq<char>>
        } else {
            Some(turn.system@)
        },
        r.messages == messages,
        r.tools == tools,
        r.max_tokens == capped(turn.current_max_tokens, model_cap),
        r.thinking_budget == turn.thinking_budget,
        r.stream_chunk_timeout_override == shared.next_turn_chunk_timeout,
{
    let system = if turn.system.as_str().is_empty() {
        None
    } else {
        Some(turn.system.clone())
    };
    let max_tokens = match model_cap {
        Some(cap) => if cap < turn.current_max_tokens {
            cap
        } else {
            turn.current_max_tokens
        },
        None => turn.current_max_tokens,
    };
    StreamRequest {
        model: active_model(turn, shared),
        system,
        messages,
        tools,
        max_tokens,
        thinking_budget: turn.thinking_budget,
        stream_chunk_timeout_override: shared.next_turn_chunk_timeout,
    }
}

/// The line that reports another attempt at a request.
pub fn retry_notice(attempt: usize, max_retries: usize, secs: u64, error: &str) -> (r: String)
    requires
        attempt < usize::MAX,
    ensures
        r@ == "\x1b[33m[retry "@ + text::decimal_of((attempt + 1) as nat) + "/"@
            + text::decimal_of(max_retries as nat) + " after "@ + text::decimal_of(secs as nat)
            + "s: "@ + error@ + "]\x1b[0m"@,
{
    let mut s = "\x1b[33m[retry ".to_string();
    s.append(text::decimal((attempt + 1) as u64).as_str());
    s.append("/");
    s.append(text::decimal(max_retries as u64).as_str());
    s.append(" after ");
    s.append(text::decimal(secs).as_str());
    s.append("s: ");
    s.append(error);
    s.append("]\x1b[0m");
    s
}

/// The line that reports a raised output cap.
pub fn escalation_notice() -> (r: String)
    ensures
        r@ == "\x1b[33m[output limit hit — escalating to "@ + text::decimal_of(
            turn::ESCALATED_MAX_TOKENS as nat,
        ) + "]\x1b[0m"@,
{
    let mut s = "\x1b[33m[output limit hit — escalating to ".to_string();
    s.append(text::decimal(turn::ESCALATED_MAX_TOKENS as u64).as_str());
    s.append("]\x1b[0m");
    s
}

// ---------------------------------------------------------------------------
// What a turn amounts to
// ---------------------------------------------------------------------------

/// A finished turn in short.
#[derive(Debug, PartialEq, Eq)]
pub struct AgentTurnOutcome {
    pub text: String,
    pub tool_calls: Vec<String>,
    pub tool_denials: Vec<String>,
    pub stop_reason: Option<String>,
    pub usage: Option<Usage>,
    pub iterations: usize,
}

#[verifier::ext_equal]
pub struct OutcomeView {
    pub text: Seq<char>,
    pub tool_calls: Seq<Seq<char>>,
    pub tool_denials: Seq<Seq<char>>,
    pub stop_reason: Option<Seq<char>>,
    pub usage: Option<Usage>,
    pub iterations: nat,
}

impl View for AgentTurnOutcome {
    type V = OutcomeView;

    open spec fn view(&self) -> OutcomeView {
        OutcomeView {
            text: self.text@,
            tool_calls: text::views(self.tool_calls@),
            tool_denials: text::views(self.tool_denials@),
            stop_reason: text::view_opt(self.stop_reason),
            usage: self.usage,
            iterations: self.iterations as nat,
        }
    }
}

impl OutcomeView {
    pub open spec fn empty() -> OutcomeView {
        OutcomeView {
            text: Seq::empty(),
            tool_calls: Seq::empty(),
            tool_denials: Seq::empty(),
            stop_reason: None,
            usage: None,
            iterations: 0,
        }
    }

    /// The outcome after one more event.
    pub open spec fn after(self, e: AgentEventView) -> OutcomeView {
        match e {
            AgentEventView::IterationStart { iteration } => OutcomeView {
                iterations: iteration + 1,
                ..self
            },
            AgentEventView::Text(s) => OutcomeView { text: self.text + s, ..self },
            AgentEventView::Thinking(_) => self,
            AgentEventView::ToolCallStart { name, .. } => OutcomeView {
                tool_calls: self.tool_calls.push(name),
                ..self
            },
            AgentEventView::ToolCallResult { .. } => self,
            AgentEventView::ToolCallDenied { name, .. } => OutcomeView {
                tool_denials: self.tool_denials.push(name),
                ..self
            },
            AgentEventView::Done { stop_reason, usage } => OutcomeView {
                stop_reason,
                usage: Some(usage),
                ..self
            },
        }
    }
}

/// What a run of events amounts to: the outcome, or the first error.
pub open spec fn outcome_of(events: Seq<Result<AgentEvent, Error>>) -> Result<
    OutcomeView,
    ErrorView,
>
    decreases events.len(),
{
    if events.len() == 0 {
        Ok(OutcomeView::empty())
    } else {
        match outcome_of(events.drop_last()) {
            Err(e) => Err(e),
            Ok(o) => match events.last() {
                Ok(ev) => Ok(o.after(ev@)),
                Err(e) => Err(e@),
            },
        }
    }
}

impl Default for AgentTurnOutcome {
    fn default() -> (r: AgentTurnOutcome)
        ensures
            r@ == OutcomeView::empty(),
    {
        let r = AgentTurnOutcome {
            text: String::new(),
            tool_calls: Vec::new(),
            tool_denials: Vec::new(),
            stop_reason: None,
            usage: None,
            iterations: 0,
        };
        proof {
            assert(r@ =~= OutcomeView::empty());
        }
        r
    }
}

impl AgentTurnOutcome {
    /// Takes one more event in.
    pub fn absorb(&mut self, event: AgentEvent)
        requires
            event matches AgentEvent::IterationStart { iteration } ==> iteration < usize::MAX,
        ensures
            final(self)@ == old(self)@.after(event@),
    {
        broadcast use text::views_push;

        match event {
            AgentEvent::IterationStart { iteration } => {
                self.iterations = iteration + 1;
            },
            AgentEvent::Text(s) => {
                self.text.append(s.as_str());
            },
            AgentEvent::Thinking(_) => {},
            AgentEvent::ToolCallStart { id: _, name, input: _ } => {
                self.tool_calls.push(name);
            },
            AgentEvent::ToolCallResult { .. } => {},
            AgentEvent::ToolCallDenied { id: _, name } => {
                self.tool_denials.push(name);
            },
            AgentEvent::Done { stop_reason, usage } => {
                self.stop_reason = stop_reason;
                self.usage = Some(usage);
            },
        }
    }
}

/// What a run of events amounts to; the first error in it ends the turn.
pub fn collect_agent_turn(events: Vec<Result<AgentEvent, Error>>) -> (r: Result<
    AgentTurnOutcome,
    Error,
>)
    requires
        forall|i: int|
            0 <= i < events@.len() ==> (#[trigger] events@[i] matches Ok(
                AgentEvent::IterationStart { iteration },
            ) ==> iteration < usize::MAX),
    ensures
        match r {
            Ok(o) => outcome_of(events@) == Ok::<OutcomeView, ErrorView>(o@),
            Err(e) => outcome_of(events@) == Err::<OutcomeView, ErrorView>(e@),
        },
{
    let ghost all = events@;
    let mut out = AgentTurnOutcome::default();
    let mut ended: Option<Error> = None;
    proof {
        assert(all.take(0) == Seq::<Result<AgentEvent, Error>>::empty());
    }
    for item in it: events
        invariant
            it.seq() == all,
            forall|i: int|
                0 <= i < all.len() ==> (#[trigger] all[i] matches Ok(
                    AgentEvent::IterationStart { iteration },
                ) ==> iteration < usize::MAX),
            match ended {
                Some(e) => outcome_of(all.take(it.index())) == Err::<OutcomeView, ErrorView>(e@),
                None => outcome_of(all.take(it.index())) == Ok::<OutcomeView, ErrorView>(out@),
            },
    {
        proof {
            let k = it.index();
            assert(all.take(k + 1).drop_last() == all.take(k));
            assert(all.take(k + 1).last() == item);
            assert(all[k] == item);
        }
        if ended.is_none() {
            match item {
                Ok(ev) => {
                    out.absorb(ev);
                },
                Err(e) => {
                    ended = Some(e);
                },
            }
        }
    }
    proof {
        assert(all.take(all.len() as int) == all);
    }
    match ended {
        Some(e) => Err(e),
        None => Ok(out),
    }
}

/// The error of a turn that the user cancelled.
pub fn cancelled_error() -> (r: Error)
    ensures
        r@ == ErrorView::Agent("cancelled by user"@),
{
    Error::Agent("cancelled by user".to_string())
}

/// What a turn comes to that may be cancelled: as [`collect_agent_turn`], for
/// the events that came before the end or before the user cancelled it. An
/// error among them comes first.
pub fn collect_agent_turn_with_cancel(
    events: Vec<Result<AgentEvent, Error>>,
    cancelled: bool,
) -> (r: Result<AgentTurnOutcome, Error>)
    requires
        forall|i: int|
            0 <= i < events@.len() ==> (#[trigger] events@[i] matches Ok(
                AgentEvent::IterationStart { iteration },
            ) ==> iteration < usize::MAX),
    ensures
        match (outcome_of(events@), r) {
            (Err(x), Err(e)) => e@ == x,
            (Ok(_), Err(e)) => cancelled && e@ == ErrorView::Agent("cancelled by user"@),
            (Ok(x), Ok(o)) => !cancelled && o@ == x,
            (Err(_), Ok(_)) => false,
        },
{
    match collect_agent_turn(events) {
        Ok(o) => if cancelled {
            Err(cancelled_error())
        } else {
            Ok(o)
        },
        Err(e) => Err(e),
    }
}

// ---------------------------------------------------------------------------
// What holds of a turn's beginning and end
// ---------------------------------------------------------------------------

/// The parts of a system prompt that there are.
pub open spec fn system_parts(
    base: Seq<char>,
    plan_reminder: Option<Seq<char>>,
    todos_reminder: Option<Seq<char>>,
) -> Seq<Seq<char>> {
    (if base.len() > 0 {
        seq![base]
    } else {
        Seq::empty()
    }) + (if plan_reminder is Some {
        seq![plan_reminder->0]
    } else {
        Seq::empty()
    }) + (if todos_reminder is Some {
        seq![todos_reminder->0]
    } else {
        Seq::empty()
    })
}

/// The system prompt of a turn is made of all its parts, in order, with an
/// empty line between them.
pub proof fn system_prompt_holds_its_parts(
    base: Seq<char>,
    plan_reminder: Option<Seq<char>>,
    todos_reminder: Option<Seq<char>>,
)
    ensures
        turn_system(base, plan_reminder, todos_reminder) == text::join_of(
            system_parts(base, plan_reminder, todos_reminder),
            "\n\n"@,
        ),
{
    let parts = system_parts(base, plan_reminder, todos_reminder);
    let sep = "\n\n"@;
    reveal_with_fuel(text::join_of, 3);
    if parts.len() == 0 {
        assert(base =~= Seq::empty());
    } else if parts.len() == 2 {
        assert(parts.drop_last()[0] == parts[0]);
    } else if parts.len() == 3 {
        assert(parts.drop_last()[1] == parts[1]);
        assert(parts.drop_last().drop_last()[0] == parts[0]);
        assert(base + sep + (plan_reminder->0 + sep + todos_reminder->0) =~= base + sep
            + plan_reminder->0 + sep + todos_reminder->0);
    }
    assert(turn_system(base, plan_reminder, todos_reminder) =~= text::join_of(parts, sep));
}

/// A request asks for the override's model while there is one, and for no more
/// output than is wanted and than the model gives, and for one of the two.
pub proof fn requests_keep_to_the_cap(
    over: Option<Seq<char>>,
    model: Seq<char>,
    current: u32,
    model_cap: Option<u32>,
)
    ensures
        over is Some ==> Some(model_in_force(over, model)) == over,
        over is None ==> model_in_force(over, model) == model,
        capped(current, model_cap) <= current,
        model_cap is Some ==> capped(current, model_cap) <= model_cap->0,
        capped(current, model_cap) == current || Some(capped(current, model_cap)) == model_cap,
{
}

/// The words that events tell, one after the other.
pub open spec fn words_told(events: Seq<Result<AgentEvent, Error>>) -> Seq<char>
    decreases events.len(),
{
    if events.len() == 0 {
        Seq::empty()
    } else {
        words_told(events.drop_last()) + match events.last() {
            Ok(AgentEvent::Text(x)) => x@,
            _ => Seq::empty(),
        }
    }
}

/// The names of the tools whose calls events tell.
pub open spec fn called(events: Seq<Result<AgentEvent, Error>>) -> Seq<Seq<char>>
    decreases events.len(),
{
    if events.len() == 0 {
        Seq::empty()
    } else {
        called(events.drop_last()) + match events.last() {
            Ok(AgentEvent::ToolCallStart { name, .. }) => seq![name@],
            _ => Seq::empty(),
        }
    }
}

/// The names of the tools whose calls events tell as denied.
pub open spec fn denied(events: Seq<Result<AgentEvent, Error>>) -> Seq<Seq<char>>
    decreases events.len(),
{
    if events.len() == 0 {
        Seq::empty()
    } else {
        denied(events.drop_last()) + match events.last() {
            Ok(AgentEvent::ToolCallDenied { name, .. }) => seq![name@],
            _ => Seq::empty(),
        }
    }
}

/// The last end that events tell.
pub open spec fn last_end(events: Seq<Result<AgentEvent, Error>>) -> Option<
    (Option<Seq<char>>, Usage),
>
    decreases events.len(),
{
    if events.len() == 0 {
        None
    } else {
        match events.last() {
            Ok(AgentEvent::Done { stop_reason, usage }) => Some(
                (text::view_opt(stop_reason), usage),
            ),
            _ => last_end(events.drop_last()),
        }
    }
}

/// How many requests events tell of.
pub open spec fn last_iteration(events: Seq<Result<AgentEvent, Error>>) -> nat
    decreases events.len(),
{
    if events.len() == 0 {
        0
    } else {
        match events.last() {
            Ok(AgentEvent::IterationStart { iteration }) => iteration as nat + 1,
            _ => last_iteration(events.drop_last()),
        }
    }
}

/// The first place from which on there are no errors before.
pub open spec fn is_first_error(events: Seq<Result<AgentEvent, Error>>, i: int) -> bool {
    &&& 0 <= i < events.len()
    &&& events[i] is Err
    &&& forall|k: int| 0 <= k < i ==> !(#[trigger] events[k] is Err)
}

/// A turn amounts to all that was said in it, to the tools that were called
/// and those that were denied, in order, to its last end and to its requests;
/// and where an error came, to the first error.
pub proof fn outcomes_sum_up(events: Seq<Result<AgentEvent, Error>>)
    ensures
        match outcome_of(events) {
            Ok(o) => {
                &&& forall|k: int| 0 <= k < events.len() ==> !(#[trigger] events[k] is Err)
                &&& o.text == words_told(events)
                &&& o.tool_calls == called(events)
                &&& o.tool_denials == denied(events)
                &&& o.iterations == last_iteration(events)
                &&& match last_end(events) {
                    Some(e) => o.stop_reason == e.0 && o.usage == Some(e.1),
                    None => o.stop_reason is None && o.usage is None,
                }
            },
            Err(e) => exists|i: int| #[trigger]
                is_first_error(events, i) && events[i]->Err_0@ == e,
        },
    decreases events.len(),
{
    if events.len() > 0 {
        let d = events.drop_last();
        outcomes_sum_up(d);
        match outcome_of(d) {
            Err(e) => {
                let i = choose|i: int| #[trigger] is_first_error(d, i) && d[i]->Err_0@ == e;
                assert forall|k: int| 0 <= k < i implies !(#[trigger] events[k] is Err) by {
                    assert(d[k] == events[k]);
                }
                assert(events[i] == d[i]);
                assert(is_first_error(events, i));
            },
            Ok(o) => {
                assert forall|k: int| 0 <= k < d.len() implies !(#[trigger] events[k] is Err) by {
                    assert(d[k] == events[k]);
                }
                if let Ok(x) = events.last() {
                    let p = o.after(x@);
                    assert(p.text =~= words_told(events));
                    assert(p.tool_calls =~= called(events));
                    assert(p.tool_denials =~= denied(events));
                } else {
                    assert(is_first_error(events, events.len() - 1));
                }
            },
        }
    }
}

/// A turn begins with what the user said, behind all that was said before, and
/// from nothing else: no request was made, no token is counted, and it works
/// within the limits that the agent has.
pub proof fn turns_begin_with_the_user<P, T, A, C, H>(
    before: Agent<P, T, A, C, H>,
    after: Agent<P, T, A, C, H>,
    said: Seq<BlockView>,
    mode: PermissionMode,
    plan: Option<Seq<plan::PlanStep>>,
    todos: Option<Seq<char>>,
    t: Turn,
)
    requires
        turn_starts(before, after, said, mode, plan, todos, t),
    ensures
        after.shared@.history.len() == before.shared@.history.len() + 1,
        after.shared@.history.drop_last() == before.shared@.history,
        after.shared@.history.last().role == Role::User,
        after.shared@.history.last().content == said,
        t.iteration == 0,
        t.attempt == 0,
        t.usage.input_tokens == 0,
        t.usage.output_tokens == 0,
        t.max_iterations == before.max_iterations,
        t.max_retries == before.max_retries,
        t.current_max_tokens == before.max_tokens,
        t.model@ == before.model@,
{
    assert(after.shared@.history.drop_last() =~= before.shared@.history);
}

} // verus!
