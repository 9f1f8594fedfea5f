//! Whole turns, run against scripted providers, tools and users.

use std::time::Duration;

use thclaws_core::agent::{
    active_model, build_request, cancelled_error, collect_agent_turn,
    collect_agent_turn_with_cancel, compose_system, escalation_notice, messages_budget,
    needs_compaction, retry_notice, Agent, AgentTurnOutcome,
};
use thclaws_core::history::SavedOutput;
use thclaws_core::json::{parse_json, Json};
use thclaws_core::plan::{PermissionMode, Plan, PlanStep, StepStatus};
use thclaws_core::turn::{
    gate, hook_preview, record_result, AgentEvent, AgentOrigin, AssembledEvent, Gate, Phase,
    TurnAction, TurnEvent,
};
use thclaws_core::types::{
    ContentBlock, Error, ImageSource, Message, Role, ToolResultBlock, ToolResultContent,
    UiResource, Usage,
};

type TestAgent = Agent<(), (), bool, (), ()>;

fn agent() -> TestAgent {
    Agent::new((), (), "test-model".to_string(), String::new(), 128_000)
}

/// The outside of a turn: scripted answers, tools and decisions.
struct World {
    scripts: Vec<Vec<AssembledEvent>>,
    known: Vec<&'static str>,
    mutating: Vec<&'static str>,
    output: Result<&'static str, &'static str>,
    mode: PermissionMode,
    plan_exists: bool,
    /// The tools that really ran.
    ran: Vec<String>,
    /// How often the user was asked, and by whom.
    asked: Vec<AgentOrigin>,
}

impl World {
    fn new(scripts: Vec<Vec<AssembledEvent>>) -> World {
        World {
            scripts,
            known: vec!["Read", "Write", "TodoWrite", "UpdatePlanStep"],
            mutating: vec!["Write"],
            output: Ok("the contents\n"),
            mode: PermissionMode::Ask,
            plan_exists: false,
            ran: Vec::new(),
            asked: Vec::new(),
        }
    }

    /// Runs one turn to its end.
    fn run(&mut self, agent: &mut TestAgent, msg: &str) -> Vec<Result<AgentEvent, Error>> {
        let mode = self.mode;
        let mut turn = agent.run_turn(msg.to_string(), mode, None, None);
        let mut out = Vec::new();
        let mut answer: Vec<AssembledEvent> = Vec::new();
        let mut event = TurnEvent::Proceed;
        for _ in 0..1000 {
            let step = turn.advance(&mut agent.shared, event);
            for e in step.events {
                out.push(Ok(e));
            }
            event = match step.action {
                TurnAction::Proceed => TurnEvent::Proceed,
                TurnAction::Request => {
                    answer = self.scripts.remove(0);
                    TurnEvent::Opened
                }
                TurnAction::Read => {
                    if answer.is_empty() {
                        TurnEvent::StreamEnded
                    } else {
                        TurnEvent::Assembled(answer.remove(0))
                    }
                }
                TurnAction::LookUp { name, .. } => TurnEvent::LookedUp {
                    found: self.known.contains(&name.as_str()),
                    requires_approval: self.mutating.contains(&name.as_str()),
                    mode: self.mode,
                    plan_exists: self.plan_exists,
                },
                TurnAction::Approve { originator, .. } => {
                    self.asked.push(originator);
                    TurnEvent::Decided { allow: agent.approver.unwrap_or(true) }
                }
                TurnAction::Call { name, .. } => {
                    self.ran.push(name);
                    TurnEvent::Returned {
                        result: match self.output {
                            Ok(s) => Ok(ToolResultContent::Text(s.to_string())),
                            Err(e) => Err(e.to_string()),
                        },
                        saved: SavedOutput::Failed("disk full".to_string()),
                    }
                }
                TurnAction::FetchUi { .. } => TurnEvent::UiFetched(None),
                TurnAction::Abort(e) => {
                    out.push(Err(e));
                    return out;
                }
                TurnAction::Finished => return out,
                other => panic!("unexpected action {other:?}"),
            };
        }
        panic!("the turn does not end");
    }

    fn outcome(&mut self, agent: &mut TestAgent, msg: &str) -> AgentTurnOutcome {
        collect_agent_turn(self.run(agent, msg)).unwrap()
    }
}

fn text_script(chunks: &[&str]) -> Vec<AssembledEvent> {
    let mut v: Vec<AssembledEvent> = Vec::new();
    for c in chunks {
        v.push(AssembledEvent::Text(c.to_string()));
    }
    v.push(AssembledEvent::Done { stop_reason: Some("end_turn".to_string()), usage: None });
    v
}

fn tool_script(id: &str, name: &str, args_json: &str) -> Vec<AssembledEvent> {
    vec![
        AssembledEvent::ToolUse(ContentBlock::ToolUse {
            id: id.to_string(),
            name: name.to_string(),
            input: parse_json(args_json).unwrap(),
            thought_signature: None,
        }),
        AssembledEvent::Done { stop_reason: Some("tool_use".to_string()), usage: None },
    ]
}

fn result_text(m: &Message, i: usize) -> (String, bool) {
    match &m.content[i] {
        ContentBlock::ToolResult { content, is_error, .. } => (content.to_text(), *is_error),
        other => panic!("expected a tool result, got {other:?}"),
    }
}

#[test]
fn agent_default_max_tokens_is_8192_and_with_max_tokens_overrides() {
    let default_agent = agent();
    assert_eq!(default_agent.max_tokens, 8192);
    let bumped = agent().with_max_tokens(32_000);
    assert_eq!(bumped.max_tokens, 32_000);
}

#[test]
fn text_only_turn_returns_combined_text() {
    let mut agent = agent();
    let mut world = World::new(vec![text_script(&["Hello, ", "world!"])]);
    let outcome = world.outcome(&mut agent, "hi");
    assert_eq!(outcome.text, "Hello, world!");
    assert_eq!(outcome.stop_reason.as_deref(), Some("end_turn"));
    assert_eq!(outcome.iterations, 1);
    assert!(outcome.tool_calls.is_empty());

    let history = agent.history_snapshot();
    assert_eq!(history.len(), 2);
    assert_eq!(history[0].role, Role::User);
    assert_eq!(history[1].role, Role::Assistant);
}

#[test]
fn tool_use_executes_and_continues_next_iteration() {
    let mut agent = agent();
    let mut world = World::new(vec![
        tool_script("toolu_1", "Read", r#"{"path":"/tmp/note.txt"}"#),
        text_script(&["I read: the contents."]),
    ]);
    let outcome = world.outcome(&mut agent, "read it");
    assert_eq!(outcome.text, "I read: the contents.");
    assert_eq!(outcome.tool_calls, vec!["Read".to_string()]);
    assert_eq!(outcome.iterations, 2);
    assert_eq!(outcome.stop_reason.as_deref(), Some("end_turn"));

    let history = agent.history_snapshot();
    assert_eq!(history.len(), 4);
    assert_eq!(history[0].role, Role::User);
    assert_eq!(history[1].role, Role::Assistant);
    assert!(matches!(history[1].content[0], ContentBlock::ToolUse { .. }));
    assert_eq!(history[2].role, Role::User);
    assert!(matches!(history[2].content[0], ContentBlock::ToolResult { is_error: false, .. }));
    assert_eq!(history[3].role, Role::Assistant);
    assert_eq!(world.ran, vec!["Read".to_string()]);
}

#[test]
fn tool_error_surfaces_as_tool_result_is_error_and_loop_continues() {
    let mut agent = agent();
    let mut world = World::new(vec![
        tool_script("toolu_1", "Read", r#"{"path":"/nope/does/not/exist"}"#),
        text_script(&["handled the error"]),
    ]);
    world.output = Err("no such file");
    let outcome = world.outcome(&mut agent, "try it");
    assert_eq!(outcome.text, "handled the error");
    assert_eq!(outcome.iterations, 2);

    let history = agent.history_snapshot();
    let (text, is_error) = result_text(&history[2], 0);
    assert!(is_error);
    assert!(text.contains("error:"), "got: {text}");
    assert_eq!(text, "error: no such file");
}

#[test]
fn ask_mode_approves_and_runs_mutating_tool() {
    let mut agent = agent().with_permission_mode(PermissionMode::Ask).with_approver(true);
    let mut world = World::new(vec![
        tool_script("toolu_1", "Write", r#"{"path":"/tmp/out.txt","content":"hello"}"#),
        text_script(&["done"]),
    ]);
    let outcome = world.outcome(&mut agent, "write it");
    assert_eq!(outcome.text, "done");
    assert_eq!(outcome.tool_calls, vec!["Write".to_string()]);
    assert!(outcome.tool_denials.is_empty());
    assert_eq!(world.ran, vec!["Write".to_string()]);
    assert_eq!(world.asked, vec![AgentOrigin::Main]);
}

#[test]
fn ask_mode_denies_and_surfaces_error_result() {
    let mut agent = agent().with_permission_mode(PermissionMode::Ask).with_approver(false);
    let mut world = World::new(vec![
        tool_script("toolu_1", "Write", r#"{"path":"/tmp/out.txt","content":"hello"}"#),
        text_script(&["ack"]),
    ]);
    let outcome = world.outcome(&mut agent, "write it");
    assert!(world.ran.is_empty());
    assert_eq!(outcome.tool_denials, vec!["Write".to_string()]);
    assert_eq!(outcome.tool_calls, vec!["Write".to_string()]);

    let history = agent.history_snapshot();
    let (text, is_error) = result_text(&history[2], 0);
    assert!(is_error);
    assert!(text.contains("denied"), "got: {text}");
}

#[test]
fn ask_mode_skips_approval_for_read_only_tools() {
    let mut agent = agent().with_permission_mode(PermissionMode::Ask).with_approver(false);
    let mut world = World::new(vec![
        tool_script("toolu_1", "Read", r#"{"path":"/tmp/x.txt"}"#),
        text_script(&["ok"]),
    ]);
    let outcome = world.outcome(&mut agent, "read it");
    assert_eq!(outcome.tool_calls, vec!["Read".to_string()]);
    assert!(outcome.tool_denials.is_empty());
    assert!(world.asked.is_empty());
}

#[test]
fn auto_mode_bypasses_approver_entirely() {
    let mut agent = agent().with_permission_mode(PermissionMode::Auto).with_approver(false);
    let mut world = World::new(vec![
        tool_script("toolu_1", "Write", r#"{"path":"/tmp/auto.txt","content":"ok"}"#),
        text_script(&["done"]),
    ]);
    let _ = world.outcome(&mut agent, "write");
    assert_eq!(world.ran, vec!["Write".to_string()]);
    assert!(world.asked.is_empty());
}

#[test]
fn max_iterations_short_circuits_runaway_loops() {
    let script = || tool_script("toolu_loop", "Read", r#"{"path":"/nope"}"#);
    let mut agent = agent().with_max_iterations(2);
    let mut world = World::new(vec![script(), script(), script(), script(), script()]);
    let outcome = world.outcome(&mut agent, "loop");
    assert_eq!(outcome.iterations, 2);
    assert_eq!(outcome.stop_reason.as_deref(), Some("max_iterations"));
}

#[test]
fn compact_subtracts_system_prompt_tokens_from_budget() {
    // 800 tokens of system prompt leave nothing of a budget of 1000.
    assert_eq!(messages_budget(1000, 800), 0);
    assert!(needs_compaction(1, messages_budget(1000, 800)));
    assert_eq!(messages_budget(128_000, 50_000), 76_976);
    assert!(!needs_compaction(76_976, 76_976));
    assert!(needs_compaction(76_977, 76_976));
}

#[test]
fn cancel_during_retry_sleep_short_circuits() {
    let mut agent = agent();
    let mut turn = agent.run_turn("hi".to_string(), PermissionMode::Auto, None, None);
    let step = turn.advance(&mut agent.shared, TurnEvent::Proceed);
    assert_eq!(step.action, TurnAction::Request);
    let step = turn.advance(
        &mut agent.shared,
        TurnEvent::OpenFailed(Error::Provider("transient".to_string())),
    );
    assert_eq!(step.action, TurnAction::Backoff { secs: 1 });
    let step = turn.advance(&mut agent.shared, TurnEvent::BackoffCancelled);
    match step.action {
        TurnAction::Abort(e) => assert!(e.message().contains("cancelled"), "got {e:?}"),
        other => panic!("unexpected {other:?}"),
    }
}

#[test]
fn next_turn_chunk_timeout_flows_into_request_and_clears() {
    let mut agent = agent();
    agent.set_next_turn_chunk_timeout(Duration::from_secs(900));
    let turn = agent.run_turn("first".to_string(), PermissionMode::Auto, None, None);
    let req = build_request(&turn, &agent.shared, agent.history_snapshot(), Vec::new(), None);
    assert_eq!(req.stream_chunk_timeout_override, Some(Duration::from_secs(900)));
    let mut world = World::new(vec![text_script(&["ok"])]);
    let _ = world.outcome(&mut agent, "again");
    let turn = agent.run_turn("second".to_string(), PermissionMode::Auto, None, None);
    let req = build_request(&turn, &agent.shared, agent.history_snapshot(), Vec::new(), None);
    assert_eq!(req.stream_chunk_timeout_override, None);
}

// ---------------------------------------------------------------------------
// Requests
// ---------------------------------------------------------------------------

#[test]
fn attempts_are_repeated_with_growing_waits() {
    let mut agent = agent();
    let mut turn = agent.run_turn("hi".to_string(), PermissionMode::Auto, None, None);
    turn.advance(&mut agent.shared, TurnEvent::Proceed);
    for secs in [1u64, 2, 4] {
        let step = turn.advance(
            &mut agent.shared,
            TurnEvent::OpenFailed(Error::Provider("503".to_string())),
        );
        assert_eq!(step.action, TurnAction::Backoff { secs });
        let step = turn.advance(&mut agent.shared, TurnEvent::BackoffOver);
        assert_eq!(step.action, TurnAction::Request);
    }
    let step =
        turn.advance(&mut agent.shared, TurnEvent::OpenFailed(Error::Provider("503".to_string())));
    assert_eq!(step.action, TurnAction::Abort(Error::Provider("503".to_string())));
    assert_eq!(turn.phase, Phase::Over);
}

#[test]
fn configuration_errors_are_not_repeated() {
    let mut agent = agent();
    agent.shared.model_override = Some("other".to_string());
    let mut turn = agent.run_turn("hi".to_string(), PermissionMode::Auto, None, None);
    turn.advance(&mut agent.shared, TurnEvent::Proceed);
    let step =
        turn.advance(&mut agent.shared, TurnEvent::OpenFailed(Error::Config("no key".to_string())));
    assert_eq!(step.action, TurnAction::Abort(Error::Config("no key".to_string())));
    assert_eq!(agent.shared.model_override, None);
}

#[test]
fn the_cap_is_raised_once_when_the_model_runs_into_it() {
    let cut = || {
        vec![
            AssembledEvent::Text("half".to_string()),
            AssembledEvent::Done { stop_reason: Some("max_tokens".to_string()), usage: None },
        ]
    };
    let mut agent = agent();
    let mut world = World::new(vec![cut(), cut(), text_script(&["never asked for"])]);
    let outcome = world.outcome(&mut agent, "write a lot");
    assert_eq!(outcome.iterations, 2);
    assert_eq!(outcome.stop_reason.as_deref(), Some("max_tokens"));
    assert_eq!(world.scripts.len(), 1);
    assert_eq!(escalation_notice(), "\x1b[33m[output limit hit — escalating to 64000]\x1b[0m");
}

#[test]
fn requests_carry_override_cap_and_system() {
    let mut agent = Agent::<(), (), bool, (), ()>::new(
        (),
        (),
        "base".to_string(),
        "be brief".to_string(),
        1000,
    );
    agent.append_system(" and kind");
    *agent.model_override_handle() = Some("bigger".to_string());
    let turn = agent.run_turn("hi".to_string(), PermissionMode::Auto, None, None);
    assert_eq!(active_model(&turn, &agent.shared), "bigger");
    let req = build_request(&turn, &agent.shared, agent.history_snapshot(), Vec::new(), Some(4096));
    assert_eq!(req.model, "bigger");
    assert_eq!(req.max_tokens, 4096);
    assert!(req.system.unwrap().starts_with("be brief"));
    assert_eq!(req.messages.len(), 1);
    let req =
        build_request(&turn, &agent.shared, agent.history_snapshot(), Vec::new(), Some(100_000));
    assert_eq!(req.max_tokens, 8192);
}

#[test]
fn reminders_are_chained_behind_the_system_prompt() {
    assert_eq!(compose_system("", None, None), "");
    assert_eq!(compose_system("base", None, None), "base");
    assert_eq!(compose_system("", Some("plan".to_string()), None), "plan");
    assert_eq!(
        compose_system("base", Some("plan".to_string()), Some("todo".to_string())),
        "base\n\nplan\n\ntodo"
    );
    assert_eq!(compose_system("base", None, Some("todo".to_string())), "base\n\ntodo");
}

#[test]
fn retry_notices_count_from_one() {
    assert_eq!(retry_notice(0, 3, 1, "busy"), "\x1b[33m[retry 1/3 after 1s: busy]\x1b[0m");
    assert_eq!(retry_notice(2, 3, 4, "busy"), "\x1b[33m[retry 3/3 after 4s: busy]\x1b[0m");
}

// ---------------------------------------------------------------------------
// Tool calls
// ---------------------------------------------------------------------------

#[test]
fn unreadable_input_is_answered_without_a_call() {
    let mut agent = agent();
    let mut world = World::new(vec![
        vec![
            AssembledEvent::ToolParseFailed {
                id: "t1".to_string(),
                name: "Read".to_string(),
                error: "bad json".to_string(),
            },
            AssembledEvent::Done { stop_reason: Some("tool_use".to_string()), usage: None },
        ],
        text_script(&["sorry"]),
    ]);
    let outcome = world.outcome(&mut agent, "go");
    assert_eq!(outcome.tool_calls, vec!["Read".to_string()]);
    assert!(world.ran.is_empty());
    let history = agent.history_snapshot();
    assert_eq!(result_text(&history[2], 0), ("bad json".to_string(), true));
}

#[test]
fn unknown_tools_are_answered_with_an_error() {
    let mut agent = agent();
    let mut world =
        World::new(vec![tool_script("t1", "Launch", "{}"), text_script(&["oh"])]);
    let _ = world.outcome(&mut agent, "go");
    assert!(world.ran.is_empty());
    let history = agent.history_snapshot();
    assert_eq!(result_text(&history[2], 0), ("unknown tool: Launch".to_string(), true));
}

#[test]
fn plan_mode_runs_nothing_that_needs_approval() {
    let mut agent = agent().with_permission_mode(PermissionMode::Ask).with_approver(true);
    let mut world =
        World::new(vec![tool_script("t1", "Write", "{}"), text_script(&["planned"])]);
    world.mode = PermissionMode::Plan;
    let _ = world.outcome(&mut agent, "go");
    assert!(world.ran.is_empty());
    assert!(world.asked.is_empty());
    let (text, is_error) = result_text(&agent.history_snapshot()[2], 0);
    assert!(is_error);
    assert!(text.starts_with("Blocked: Write is not available in plan mode."));
}

#[test]
fn gates_in_plan_mode_come_in_order() {
    // The scratchpad has its own message, before the general one.
    let plan = PermissionMode::Plan;
    match gate("TodoWrite", true, true, plan, true) {
        Gate::Refused(m) => assert!(m.contains("SubmitPlan to publish your plan")),
        other => panic!("{other:?}"),
    }
    match gate("ExitPlanMode", true, false, plan, true) {
        Gate::Refused(m) => assert!(m.contains("while waiting for the user to approve")),
        other => panic!("{other:?}"),
    }
    assert!(matches!(gate("ExitPlanMode", true, false, plan, false), Gate::Run));
    assert!(matches!(gate("Read", true, false, plan, true), Gate::Run));
    assert!(matches!(gate("Write", true, true, PermissionMode::Ask, false), Gate::Ask));
    assert!(matches!(gate("Write", true, true, PermissionMode::Auto, false), Gate::Run));
    match gate("Nope", false, true, plan, true) {
        Gate::Refused(m) => assert_eq!(m, "unknown tool: Nope"),
        other => panic!("{other:?}"),
    }
}

#[test]
fn every_call_of_an_answer_is_answered_once() {
    let call = |id: &str, name: &str| {
        AssembledEvent::ToolUse(ContentBlock::ToolUse {
            id: id.to_string(),
            name: name.to_string(),
            input: Json::object(),
            thought_signature: None,
        })
    };
    let mut agent = agent();
    let mut world = World::new(vec![
        vec![
            call("a", "Read"),
            AssembledEvent::ToolParseFailed {
                id: "b".to_string(),
                name: "Write".to_string(),
                error: "cut off".to_string(),
            },
            call("c", "Missing"),
            call("d", "Write"),
            AssembledEvent::Done { stop_reason: None, usage: None },
        ],
        text_script(&["done"]),
    ]);
    let _ = world.outcome(&mut agent, "go");
    let history = agent.history_snapshot();
    let mut ids: Vec<String> = Vec::new();
    for b in &history[2].content {
        if let ContentBlock::ToolResult { tool_use_id, .. } = b {
            ids.push(tool_use_id.clone());
        }
    }
    assert_eq!(ids, vec!["a", "b", "c", "d"]);
    assert_eq!(world.ran, vec!["Read".to_string(), "Write".to_string()]);
}

#[test]
fn stray_events_change_nothing() {
    let mut agent = agent();
    let mut turn = agent.run_turn("hi".to_string(), PermissionMode::Auto, None, None);
    for event in [
        TurnEvent::Opened,
        TurnEvent::BackoffOver,
        TurnEvent::StreamEnded,
        TurnEvent::Decided { allow: true },
        TurnEvent::UiFetched(None),
    ] {
        let step = turn.advance(&mut agent.shared, event);
        assert_eq!(step.action, TurnAction::Unexpected);
        assert!(step.events.is_empty());
        assert_eq!(turn.phase, Phase::Between);
        assert_eq!(agent.shared.history.len(), 1);
    }
}

#[test]
fn a_broken_answer_ends_the_turn_and_its_overrides() {
    let mut agent = agent();
    agent.set_next_turn_chunk_timeout(Duration::from_secs(5));
    let mut turn = agent.run_turn("hi".to_string(), PermissionMode::Auto, None, None);
    turn.advance(&mut agent.shared, TurnEvent::Proceed);
    turn.advance(&mut agent.shared, TurnEvent::Opened);
    let step = turn
        .advance(&mut agent.shared, TurnEvent::StreamFailed(Error::Provider("reset".to_string())));
    assert_eq!(step.action, TurnAction::Abort(Error::Provider("reset".to_string())));
    assert_eq!(agent.shared.next_turn_chunk_timeout, None);
}

#[test]
fn widgets_travel_with_the_result() {
    let mut agent = agent();
    let mut turn = agent.run_turn("hi".to_string(), PermissionMode::Auto, None, None);
    let shared = &mut agent.shared;
    turn.advance(shared, TurnEvent::Proceed);
    turn.advance(shared, TurnEvent::Opened);
    for piece in tool_script("t1", "Read", "{}") {
        turn.advance(shared, TurnEvent::Assembled(piece));
    }
    turn.advance(shared, TurnEvent::StreamEnded);
    turn.advance(
        shared,
        TurnEvent::LookedUp {
            found: true,
            requires_approval: false,
            mode: PermissionMode::Auto,
            plan_exists: false,
        },
    );
    let step = turn.advance(
        shared,
        TurnEvent::Returned {
            result: Ok(ToolResultContent::Text("out".to_string())),
            saved: SavedOutput::Failed(String::new()),
        },
    );
    assert_eq!(step.action, TurnAction::FetchUi { name: "Read".to_string() });
    let widget = || UiResource {
        uri: "ui://pinn.ai/x".to_string(),
        html: "<p>x</p>".to_string(),
        mime: None,
    };
    let step = turn.advance(shared, TurnEvent::UiFetched(Some(widget())));
    assert_eq!(
        step.events,
        vec![AgentEvent::ToolCallResult {
            id: "t1".to_string(),
            name: "Read".to_string(),
            output: Ok("out".to_string()),
            ui_resource: Some(widget()),
        }]
    );
}

#[test]
fn results_without_output_are_marked() {
    let saved = SavedOutput::Failed("x".to_string());
    assert_eq!(
        record_result(&Ok(ToolResultContent::Text(String::new())), &saved),
        ToolResultContent::Text("(no output)".to_string())
    );
    assert_eq!(
        record_result(&Err("boom".to_string()), &saved),
        ToolResultContent::Text("error: boom".to_string())
    );
    let blocks = || {
        ToolResultContent::Blocks(vec![ToolResultBlock::Image {
            source: ImageSource::Base64 {
                media_type: "image/png".to_string(),
                data: "AAAA".to_string(),
            },
        }])
    };
    assert_eq!(record_result(&Ok(blocks()), &saved), blocks());
    assert_eq!(hook_preview(&blocks()), "<multimodal>");
    assert_eq!(hook_preview(&ToolResultContent::Text("seen".to_string())), "seen");
}

// ---------------------------------------------------------------------------
// Outcomes
// ---------------------------------------------------------------------------

#[test]
fn usage_adds_up_over_the_requests_of_a_turn() {
    let with_usage = |mut script: Vec<AssembledEvent>, input: u32, output: u32| {
        let last = script.len() - 1;
        if let AssembledEvent::Done { usage, .. } = &mut script[last] {
            *usage = Some(Usage {
                input_tokens: input,
                output_tokens: output,
                cache_creation_input_tokens: None,
                cache_read_input_tokens: Some(7),
                reasoning_output_tokens: None,
            });
        }
        script
    };
    let mut agent = agent();
    let mut world = World::new(vec![
        with_usage(tool_script("t1", "Read", "{}"), 100, 10),
        with_usage(text_script(&["ok"]), 150, u32::MAX),
    ]);
    let usage = world.outcome(&mut agent, "go").usage.unwrap();
    assert_eq!(usage.input_tokens, 250);
    assert_eq!(usage.output_tokens, u32::MAX);
    assert_eq!(usage.cache_read_input_tokens, Some(14));
    assert_eq!(usage.cache_creation_input_tokens, None);
}

#[test]
fn the_first_error_ends_the_collection() {
    let events = vec![
        Ok(AgentEvent::Text("a".to_string())),
        Err(Error::Provider("gone".to_string())),
        Ok(AgentEvent::Text("b".to_string())),
    ];
    assert_eq!(collect_agent_turn(events), Err(Error::Provider("gone".to_string())));
    assert_eq!(collect_agent_turn(Vec::new()).unwrap(), AgentTurnOutcome::default());
}

#[test]
fn a_cancelled_collection_is_an_error() {
    let events = || vec![Ok(AgentEvent::Text("a".to_string()))];
    assert_eq!(collect_agent_turn_with_cancel(events(), true), Err(cancelled_error()));
    assert_eq!(collect_agent_turn_with_cancel(events(), false).unwrap().text, "a");
}

#[test]
fn the_plan_reminder_is_part_of_the_system_prompt_of_a_turn() {
    let mut agent = agent();
    let plan = Plan {
        id: "p".to_string(),
        steps: vec![PlanStep {
            id: "s1".to_string(),
            title: "Look around".to_string(),
            description: "ls".to_string(),
            status: StepStatus::Todo,
            note: None,
            output: None,
        }],
    };
    let turn = agent.run_turn("go".to_string(), PermissionMode::Auto, Some(&plan), None);
    assert!(turn.system.contains("Look around"));
    let turn = agent.run_turn("go".to_string(), PermissionMode::Auto, None, None);
    assert_eq!(turn.system, "");
}

#[test]
fn history_can_be_replaced_and_cleared() {
    let mut agent = agent().with_origin(AgentOrigin::Subagent { agent_name: "x".to_string() });
    assert_eq!(agent.origin, AgentOrigin::Subagent { agent_name: "x".to_string() });
    agent.set_history(vec![Message {
        role: Role::Assistant,
        content: vec![ContentBlock::text("hello".to_string())],
    }]);
    assert_eq!(agent.history_snapshot().len(), 1);
    agent.clear_history();
    assert!(agent.history_snapshot().is_empty());
}

#[test]
fn builders_set_one_thing_each() {
    let mut agent = agent().with_cancel(()).with_hooks(());
    assert_eq!(agent.cancel, Some(()));
    assert_eq!(agent.hooks, Some(()));
    assert_eq!(agent.approver, None);
    *agent.next_turn_chunk_timeout_slot() = Some(Duration::from_secs(3));
    assert_eq!(agent.shared.next_turn_chunk_timeout, Some(Duration::from_secs(3)));
    assert_eq!(agent.provider(), &());
}

#[test]
fn requests_keep_what_the_turn_started_with() {
    let mut agent: TestAgent =
        Agent::new((), (), "m".to_string(), "sys".to_string(), 1000).with_max_iterations(3);
    let mut turn = agent.run_turn("go".to_string(), PermissionMode::Auto, None, None);
    let mut answers = vec![tool_script("t1", "Nope", "{}"), text_script(&["done"])];
    let mut event = TurnEvent::Proceed;
    let mut requests = 0;
    let mut answer: Vec<AssembledEvent> = Vec::new();
    loop {
        let step = turn.advance(&mut agent.shared, event);
        event = match step.action {
            TurnAction::Request => {
                let req = build_request(&turn, &agent.shared, Vec::new(), Vec::new(), None);
                assert_eq!(req.model, "m");
                assert_eq!(req.system, Some("sys".to_string()));
                assert_eq!(turn.budget_tokens, 1000);
                requests += 1;
                answer = answers.remove(0);
                TurnEvent::Opened
            }
            TurnAction::Read if answer.is_empty() => TurnEvent::StreamEnded,
            TurnAction::Read => TurnEvent::Assembled(answer.remove(0)),
            TurnAction::LookUp { .. } => TurnEvent::LookedUp {
                found: false,
                requires_approval: false,
                mode: PermissionMode::Auto,
                plan_exists: false,
            },
            TurnAction::Proceed => TurnEvent::Proceed,
            TurnAction::Finished => break,
            other => panic!("{other:?}"),
        };
    }
    assert_eq!(requests, 2);
}

#[test]
fn unreadable_calls_are_answered_in_the_conversation() {
    let failed = |id: &str| AssembledEvent::ToolParseFailed {
        id: id.to_string(),
        name: "Read".to_string(),
        error: format!("bad input of {id}"),
    };
    let mut world = World::new(vec![
        vec![failed("t1"), failed("t2"), AssembledEvent::Done { stop_reason: None, usage: None }],
        text_script(&["ok"]),
    ]);
    let mut agent = agent();
    world.outcome(&mut agent, "go");
    assert!(world.ran.is_empty());
    let history = agent.history_snapshot();
    assert_eq!(history.len(), 4);
    assert!(history.iter().all(|m| !m.content.is_empty()));
    let ids: Vec<&str> = history[2]
        .content
        .iter()
        .map(|b| match b {
            ContentBlock::ToolResult { tool_use_id, .. } => tool_use_id.as_str(),
            other => panic!("{other:?}"),
        })
        .collect();
    assert_eq!(ids, vec!["t1", "t2"]);
}
