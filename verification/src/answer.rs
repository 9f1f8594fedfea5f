//! What a turn makes of an answer of the model, and of what its tools hand
//! back.

use vstd::arithmetic::power2::*;
use vstd::prelude::*;

use crate::conversation;
use crate::history::{self, SavedOutput};
use crate::json::JsonView;
use crate::plan::PermissionMode;
use crate::text;
use crate::turn::{
    self, ActionView, AgentEventView, AssembledEvent, Phase, SharedView, StepView, TurnEvent,
    TurnView,
};
use crate::types::{
    BlockView, Error, MessageView, ResultView, Role, ToolResultContent, UiResource, UiView, Usage,
};

verus! {

// ---------------------------------------------------------------------------
// The pieces of an answer
// ---------------------------------------------------------------------------

/// The pieces of the answer that is coming in: those that a turn has taken
/// since its last request was due.
pub open spec fn pieces_of(t: TurnView, s: SharedView, events: Seq<TurnEvent>) -> Seq<
    AssembledEvent,
>
    decreases events.len(),
{
    if events.len() == 0 {
        Seq::empty()
    } else {
        let before = pieces_of(t, s, events.drop_last());
        let phase = conversation::run_of(t, s, events.drop_last()).0.phase;
        match events.last() {
            TurnEvent::Proceed => if phase == Phase::Between {
                Seq::empty()
            } else {
                before
            },
            TurnEvent::Assembled(a) => if phase == Phase::Streaming {
                before.push(a)
            } else {
                before
            },
            _ => before,
        }
    }
}

/// What the interface has been told since the last request was due.
pub open spec fn told_of(t: TurnView, s: SharedView, events: Seq<TurnEvent>) -> Seq<AgentEventView>
    decreases events.len(),
{
    if events.len() == 0 {
        Seq::empty()
    } else {
        let (u, v) = conversation::run_of(t, s, events.drop_last());
        let now = turn::step_of(u, v, events.last()).events;
        if events.last() is Proceed && u.phase == Phase::Between {
            now
        } else {
            told_of(t, s, events.drop_last()) + now
        }
    }
}

/// The texts among pieces, one after the other.
pub open spec fn said_in(p: Seq<AssembledEvent>) -> Seq<char>
    decreases p.len(),
{
    if p.len() == 0 {
        Seq::empty()
    } else {
        said_in(p.drop_last()) + match p.last() {
            AssembledEvent::Text(x) => x@,
            _ => Seq::empty(),
        }
    }
}

/// The reasoning among pieces, one after the other.
pub open spec fn thought_in(p: Seq<AssembledEvent>) -> Seq<char>
    decreases p.len(),
{
    if p.len() == 0 {
        Seq::empty()
    } else {
        thought_in(p.drop_last()) + match p.last() {
            AssembledEvent::Thinking(x) => x@,
            _ => Seq::empty(),
        }
    }
}

/// The tool calls among pieces; one whose input could not be read has an empty
/// object in its place.
pub open spec fn calls_in(p: Seq<AssembledEvent>) -> Seq<BlockView>
    decreases p.len(),
{
    if p.len() == 0 {
        Seq::empty()
    } else {
        calls_in(p.drop_last()) + match p.last() {
            AssembledEvent::ToolUse(b) => seq![b@],
            AssembledEvent::ToolParseFailed { id, name, .. } => seq![
                BlockView::ToolUse {
                    id: id@,
                    name: name@,
                    input: JsonView::Obj(Seq::empty()),
                    thought_signature: None,
                },
            ],
            _ => Seq::empty(),
        }
    }
}

/// The tool calls among pieces whose input could not be read, with what was
/// wrong.
pub open spec fn unreadable_in(p: Seq<AssembledEvent>) -> Seq<(Seq<char>, Seq<char>)>
    decreases p.len(),
{
    if p.len() == 0 {
        Seq::empty()
    } else {
        unreadable_in(p.drop_last()) + match p.last() {
            AssembledEvent::ToolParseFailed { id, error, .. } => seq![(id@, error@)],
            _ => Seq::empty(),
        }
    }
}

/// Why the answer stopped, as its last piece of the end says.
pub open spec fn stopped_by(p: Seq<AssembledEvent>) -> Option<Seq<char>>
    decreases p.len(),
{
    if p.len() == 0 {
        None
    } else {
        match p.last() {
            AssembledEvent::Done { stop_reason: Some(x), .. } => Some(x@),
            AssembledEvent::Done { stop_reason: None, .. } => None,
            _ => stopped_by(p.drop_last()),
        }
    }
}

/// The texts that the interface was told, one after the other.
pub open spec fn texts_told(e: Seq<AgentEventView>) -> Seq<char>
    decreases e.len(),
{
    if e.len() == 0 {
        Seq::empty()
    } else {
        texts_told(e.drop_last()) + match e.last() {
            AgentEventView::Text(x) => x,
            _ => Seq::empty(),
        }
    }
}

/// The reasoning that the interface was told, one after the other.
pub open spec fn thoughts_told(e: Seq<AgentEventView>) -> Seq<char>
    decreases e.len(),
{
    if e.len() == 0 {
        Seq::empty()
    } else {
        thoughts_told(e.drop_last()) + match e.last() {
            AgentEventView::Thinking(x) => x,
            _ => Seq::empty(),
        }
    }
}

/// The tool calls that the interface was told of: id, name and input.
pub open spec fn calls_told(e: Seq<AgentEventView>) -> Seq<(Seq<char>, Seq<char>, JsonView)>
    decreases e.len(),
{
    if e.len() == 0 {
        Seq::empty()
    } else {
        calls_told(e.drop_last()) + match e.last() {
            AgentEventView::ToolCallStart { id, name, input } => seq![(id, name, input)],
            _ => Seq::empty(),
        }
    }
}

/// Id, name and input of the tool calls among blocks.
pub open spec fn calls_among(b: Seq<BlockView>) -> Seq<(Seq<char>, Seq<char>, JsonView)>
    decreases b.len(),
{
    if b.len() == 0 {
        Seq::empty()
    } else {
        calls_among(b.drop_last()) + match b.last() {
            BlockView::ToolUse { id, name, input, .. } => seq![(id, name, input)],
            _ => Seq::empty(),
        }
    }
}

/// A message that holds an answer whole: first the reasoning in one block,
/// where there is any, then the text in one block, where there is any, then
/// the tool calls.
pub open spec fn holds_answer(
    m: MessageView,
    thought: Seq<char>,
    said: Seq<char>,
    calls: Seq<BlockView>,
) -> bool {
    let n = m.content.len() - calls.len();
    &&& m.role == Role::Assistant
    &&& n == (if thought.len() > 0 {
        1int
    } else {
        0
    }) + (if said.len() > 0 {
        1int
    } else {
        0
    })
    &&& thought.len() > 0 ==> m.content[0] == (BlockView::Thinking {
        content: thought,
        signature: None,
    })
    &&& said.len() > 0 ==> m.content[n - 1] == BlockView::Text(said)
    &&& m.content.skip(n) == calls
}

proof fn lemma_told_of_sum(a: Seq<AgentEventView>, b: Seq<AgentEventView>)
    requires
        b.len() <= 1,
    ensures
        texts_told(a + b) == texts_told(a) + texts_told(b),
        thoughts_told(a + b) == thoughts_told(a) + thoughts_told(b),
        calls_told(a + b) == calls_told(a) + calls_told(b),
{
    if b.len() == 0 {
        assert(a + b == a);
        assert(texts_told(b) =~= Seq::empty());
        assert(thoughts_told(b) =~= Seq::empty());
        assert(calls_told(b) =~= Seq::empty());
    } else {
        assert((a + b).drop_last() == a);
        assert((a + b).last() == b.last());
        assert(b.drop_last().len() == 0);
        assert(texts_told(b.drop_last()) =~= Seq::empty());
        assert(thoughts_told(b.drop_last()) =~= Seq::empty());
        assert(calls_told(b.drop_last()) =~= Seq::empty());
    }
}

/// Where tool calls lead: to the next request or the next call, with the
/// conversation so far and the answers so far as they were.
proof fn lemma_settled_leads_on(t: TurnView, s: SharedView, events: Seq<AgentEventView>)
    ensures
        ({
            let r = turn::settled(t, s, events);
            &&& r.turn.phase == Phase::Between || r.turn.phase == Phase::LookingUp
            &&& r.shared.history.len() >= s.history.len()
            &&& r.shared.history.take(s.history.len() as int) == s.history
            &&& r.events.len() >= events.len()
            &&& r.events.take(events.len() as int) == events
            &&& results_in(r).len() >= t.results.len()
            &&& results_in(r).take(t.results.len() as int) == t.results
        }),
    decreases t.tool_uses.len() - t.next,
{
    let r = turn::settled(t, s, events);
    if t.next >= t.tool_uses.len() {
        assert(r.shared.history.take(s.history.len() as int) =~= s.history);
        assert(r.events.take(events.len() as int) =~= events);
        assert(results_in(r).take(t.results.len() as int) =~= t.results);
    } else if !(t.current() is ToolUse) {
        lemma_settled_leads_on(turn::passed(t), s, events);
    } else if let Some(e) = turn::error_for(t.parse_errors, turn::call_id(t.current())) {
        let t2 = turn::passed(turn::answered(t, ResultView::Text(e), true));
        let e2 = events.push(turn::result_event(t, Err(e), None));
        lemma_settled_leads_on(t2, s, e2);
        assert(r.events.take(events.len() as int) =~= r.events.take(e2.len() as int).take(
            events.len() as int,
        ));
        assert(results_in(r).take(t.results.len() as int) =~= results_in(r).take(
            t2.results.len() as int,
        ).take(t.results.len() as int));
    } else {
        assert(r.shared.history.take(s.history.len() as int) =~= s.history);
        assert(r.events.take(events.len() as int) =~= events);
        assert(results_in(r).take(t.results.len() as int) =~= t.results);
    }
}

/// The answers to tool calls after a step: those that have gone into the
/// conversation where all calls are dealt with, else those that are kept.
pub open spec fn results_in(r: StepView) -> Seq<BlockView> {
    if r.turn.phase == Phase::Between && r.shared.history.len() > 0 {
        r.shared.history.last().content
    } else {
        r.turn.results
    }
}

/// A request is on its way, or its answer is coming in.
pub open spec fn is_asking_the_model(t: TurnView) -> bool {
    t.phase == Phase::Requesting || t.phase == Phase::Waiting || t.phase == Phase::Streaming
}

proof fn lemma_step_leads_on(t: TurnView, s: SharedView, e: TurnEvent)
    requires
        !is_asking_the_model(t) || e is StreamEnded,
        !(e is Proceed),
        !(t.phase == Phase::Requesting || t.phase == Phase::Waiting),
    ensures
        !is_asking_the_model(turn::step_of(t, s, e).turn),
{
    match e {
        TurnEvent::StreamEnded => {
            if t.phase == Phase::Streaming {
                lemma_settled_leads_on(
                    TurnView { next: 0, results: Seq::empty(), ..t },
                    SharedView { history: turn::history_after_answer(t, s.history), ..s },
                    Seq::empty(),
                );
            }
        },
        TurnEvent::LookedUp { found, requires_approval, mode, plan_exists } => {
            let b = t.current();
            let m = turn::mode_in_force(mode, t.default_mode);
            if let turn::GateView::Refused(x) = turn::gate_of(
                turn::call_name(b),
                found,
                requires_approval,
                m,
                plan_exists,
            ) {
                lemma_settled_leads_on(
                    turn::passed(turn::answered(t, ResultView::Text(x), true)),
                    s,
                    seq![turn::result_event(t, Err(x), None)],
                );
            }
        },
        TurnEvent::Decided { allow } => {
            let b = t.current();
            lemma_settled_leads_on(
                turn::passed(
                    turn::answered(
                        t,
                        ResultView::Text("denied by user: "@ + turn::call_name(b)),
                        true,
                    ),
                ),
                s,
                seq![
                    AgentEventView::ToolCallDenied {
                        id: turn::call_id(b),
                        name: turn::call_name(b),
                    },
                ],
            );
        },
        TurnEvent::Returned { result, saved } => {
            if let Err(x) = result {
                lemma_settled_leads_on(
                    turn::passed(
                        turn::answered(t, turn::recorded_result(Err(x@), saved), true),
                    ),
                    s,
                    seq![turn::result_event(t, Err(x@), None)],
                );
            }
        },
        TurnEvent::UiFetched(ui) => {
            lemma_settled_leads_on(
                turn::passed(t),
                s,
                seq![turn::result_event(t, Ok(t.returned), text::view_opt(ui))],
            );
        },
        _ => {},
    }
}

/// While an answer comes in, a turn holds exactly the pieces of it that have
/// come since the request, however often the request had to be made: its text,
/// its reasoning, its tool calls, those that could not be read, and why it
/// stopped.
pub proof fn pieces_are_collected(t: TurnView, s: SharedView, events: Seq<TurnEvent>)
    requires
        t.phase == Phase::Between,
    ensures
        ({
            let u = conversation::run_of(t, s, events).0;
            let p = pieces_of(t, s, events);
            is_asking_the_model(u) ==> {
                &&& u.text == said_in(p)
                &&& u.thinking == thought_in(p)
                &&& u.tool_uses == calls_in(p)
                &&& u.parse_errors == unreadable_in(p)
                &&& u.stop_reason == stopped_by(p)
            }
        }),
    decreases events.len(),
{
    if events.len() > 0 {
        let (u, v) = conversation::run_of(t, s, events.drop_last());
        let p = pieces_of(t, s, events.drop_last());
        let q = pieces_of(t, s, events);
        let e = events.last();
        pieces_are_collected(t, s, events.drop_last());
        if e is Proceed && u.phase == Phase::Between {
            assert(said_in(q) =~= Seq::empty());
            assert(thought_in(q) =~= Seq::empty());
            assert(calls_in(q) =~= Seq::empty());
            assert(unreadable_in(q) =~= Seq::empty());
        } else if e is Assembled && u.phase == Phase::Streaming {
            assert(q.drop_last() == p);
            let r = turn::step_of(u, v, e).turn;
            assert(r.text =~= said_in(q));
            assert(r.thinking =~= thought_in(q));
            assert(r.tool_uses =~= calls_in(q));
            assert(r.parse_errors =~= unreadable_in(q));
        } else if !is_asking_the_model(u) && !(e is Proceed) {
            lemma_step_leads_on(u, v, e);
        } else if u.phase == Phase::Streaming && e is StreamEnded {
            lemma_step_leads_on(u, v, e);
        }
    }
}

/// The message that a complete answer leaves in the conversation holds the
/// answer whole: the text that has come since the request in one block, also
/// where the answer has tool calls, the reasoning in one block before it, and
/// the tool calls behind, in the order in which they came. An answer without
/// any of these leaves nothing. The messages before it stay, but for images in
/// tool results, which the model has seen.
pub proof fn answers_are_kept_whole(t: TurnView, s: SharedView, events: Seq<TurnEvent>)
    requires
        t.phase == Phase::Between,
        conversation::run_of(t, s, events).0.phase == Phase::Streaming,
    ensures
        ({
            let (u, v) = conversation::run_of(t, s, events);
            let p = pieces_of(t, s, events);
            let h = turn::step_of(u, v, TurnEvent::StreamEnded).shared.history;
            let n = v.history.len();
            if said_in(p).len() == 0 && thought_in(p).len() == 0 && calls_in(p).len() == 0 {
                h == v.history
            } else {
                &&& h.len() > n
                &&& holds_answer(h[n as int], thought_in(p), said_in(p), calls_in(p))
                &&& history::same_but_images(v.history, h.take(n as int))
            }
        }),
{
    let (u, v) = conversation::run_of(t, s, events);
    let p = pieces_of(t, s, events);
    pieces_are_collected(t, s, events);
    let n = v.history.len();
    let content = turn::assistant_content(u.thinking, u.text, u.tool_uses);
    let m = MessageView { role: Role::Assistant, content };
    let after = turn::history_after_answer(u, v.history);
    let h = turn::step_of(u, v, TurnEvent::StreamEnded).shared.history;
    lemma_settled_leads_on(
        TurnView { next: 0, results: Seq::empty(), ..u },
        SharedView { history: after, ..v },
        Seq::empty(),
    );
    if content.len() > 0 {
        assert(after[n as int] == m);
        assert(h[n as int] == after[n as int]) by {
            assert(h.take(after.len() as int)[n as int] == h[n as int]);
        }
        assert(content.skip(content.len() - u.tool_uses.len()) =~= u.tool_uses);
        history::redaction_touches_images_only(v.history.push(m));
        assert(h.take(n as int) =~= after.take(n as int));
        assert forall|i: int| 0 <= i < n implies history::same_message_but_images(
            v.history[i],
            #[trigger] h.take(n as int)[i],
        ) by {
            assert(after[i] == h.take(n as int)[i]);
            assert(v.history.push(m)[i] == v.history[i]);
        }
    }
}

/// What the user is shown of an answer is what comes in of it: the texts and
/// the reasoning that the interface was told since the request are those of
/// the pieces, and every tool call is told with its id, name and input.
pub proof fn answers_are_shown_whole(t: TurnView, s: SharedView, events: Seq<TurnEvent>)
    requires
        t.phase == Phase::Between,
    ensures
        ({
            let u = conversation::run_of(t, s, events).0;
            let p = pieces_of(t, s, events);
            let e = told_of(t, s, events);
            is_asking_the_model(u) ==> {
                &&& texts_told(e) == said_in(p)
                &&& thoughts_told(e) == thought_in(p)
                &&& calls_told(e) == calls_among(calls_in(p))
            }
        }),
    decreases events.len(),
{
    if events.len() > 0 {
        let (u, v) = conversation::run_of(t, s, events.drop_last());
        let p = pieces_of(t, s, events.drop_last());
        let q = pieces_of(t, s, events);
        let e = events.last();
        let now = turn::step_of(u, v, e).events;
        let before = told_of(t, s, events.drop_last());
        answers_are_shown_whole(t, s, events.drop_last());
        if e is Proceed && u.phase == Phase::Between {
            assert(said_in(q) =~= Seq::empty());
            assert(thought_in(q) =~= Seq::empty());
            assert(calls_in(q) =~= Seq::empty());
            assert(calls_among(calls_in(q)) =~= Seq::empty());
            lemma_told_of_sum(Seq::empty(), now);
            reveal_with_fuel(texts_told, 2);
            reveal_with_fuel(thoughts_told, 2);
            reveal_with_fuel(calls_told, 2);
            if now.len() == 1 {
                assert(now.drop_last() =~= Seq::empty());
            }
        } else if e is Assembled && u.phase == Phase::Streaming {
            assert(q.drop_last() == p);
            lemma_told_of_sum(before, now);
            reveal_with_fuel(texts_told, 2);
            reveal_with_fuel(thoughts_told, 2);
            reveal_with_fuel(calls_told, 2);
            if now.len() == 1 {
                assert(now.drop_last() =~= Seq::empty());
            }
            if q.last() is ToolUse || q.last() is ToolParseFailed {
                assert(calls_in(q).drop_last() =~= calls_in(p));
            } else {
                assert(calls_in(q) =~= calls_in(p));
            }
            assert(texts_told(before + now) =~= said_in(q));
            assert(thoughts_told(before + now) =~= thought_in(q));
            assert(calls_told(before + now) =~= calls_among(calls_in(q)));
        } else if !is_asking_the_model(u) && !(e is Proceed) {
            lemma_step_leads_on(u, v, e);
        } else if u.phase == Phase::Streaming && e is StreamEnded {
            lemma_step_leads_on(u, v, e);
        } else {
            lemma_told_of_sum(before, now);
            assert(is_asking_the_model(conversation::run_of(t, s, events).0) ==> now.len() == 0);
        }
    }
}

// ---------------------------------------------------------------------------
// What tools hand back
// ---------------------------------------------------------------------------

/// The tool call that a turn is on.
pub open spec fn call_at(t: TurnView) -> (Seq<char>, Seq<char>, JsonView) {
    match t.tool_uses[t.next as int] {
        BlockView::ToolUse { id, name, input, .. } => (id, name, input),
        _ => (Seq::empty(), Seq::empty(), JsonView::Null),
    }
}

/// The step answers the tool call that the turn was on with this, after the
/// answers to the calls before it, which stay.
pub open spec fn answers_the_call(
    t: TurnView,
    r: StepView,
    content: ResultView,
    is_error: bool,
) -> bool {
    let n = t.results.len();
    &&& results_in(r).len() > n
    &&& results_in(r).take(n as int) == t.results
    &&& results_in(r)[n as int] == (BlockView::ToolResult {
        tool_use_id: call_at(t).0,
        content,
        is_error,
    })
}

/// The step answers the tool call that the turn was on with this text.
pub open spec fn says(t: TurnView, r: StepView, words: Seq<char>, is_error: bool) -> bool {
    answers_the_call(t, r, ResultView::Text(words), is_error)
}

/// The step tells the interface first how the tool call ended.
pub open spec fn tells_the_end(
    t: TurnView,
    r: StepView,
    output: Result<Seq<char>, Seq<char>>,
    ui: Option<UiView>,
) -> bool {
    &&& r.events.len() > 0
    &&& r.events[0] == (AgentEventView::ToolCallResult {
        id: call_at(t).0,
        name: call_at(t).1,
        output,
        ui_resource: ui,
    })
}

proof fn lemma_answer_stays(
    t: TurnView,
    s: SharedView,
    content: ResultView,
    is_error: bool,
    e: AgentEventView,
)
    requires
        t.next < t.tool_uses.len(),
        t.tool_uses[t.next as int] is ToolUse,
    ensures
        ({
            let r = turn::settled(
                turn::passed(turn::answered(t, content, is_error)),
                s,
                seq![e],
            );
            &&& answers_the_call(t, r, content, is_error)
            &&& r.events.len() > 0
            &&& r.events[0] == e
        }),
{
    let t2 = turn::passed(turn::answered(t, content, is_error));
    let r = turn::settled(t2, s, seq![e]);
    lemma_settled_leads_on(t2, s, seq![e]);
    let n = t.results.len();
    assert(results_in(r).take(n as int) =~= results_in(r).take(t2.results.len() as int).take(
        n as int,
    ));
    assert(results_in(r).take(n as int) =~= t.results);
    assert(results_in(r)[n as int] == results_in(r).take(t2.results.len() as int)[n as int]);
    assert(r.events[0] == r.events.take(1)[0]);
}

/// A tool's result goes into the conversation under the id of its call, as it
/// is. A text that is too long is cut, an error is marked and its message
/// kept, and an empty result says so.
pub proof fn results_are_recorded(
    t: TurnView,
    s: SharedView,
    result: Result<ToolResultContent, String>,
    saved: SavedOutput,
)
    requires
        t.phase == Phase::Calling,
        t.next < t.tool_uses.len(),
        t.tool_uses[t.next as int] is ToolUse,
    ensures
        ({
            let r = turn::step_of(t, s, TurnEvent::Returned { result, saved });
            match result {
                Ok(ToolResultContent::Text(x)) => if x@.len() == 0 {
                    answers_the_call(t, r, ResultView::Text("(no output)"@), false)
                } else if vstd::utf8::encode_utf8(x@).len() <= history::TOOL_RESULT_CONTEXT_LIMIT {
                    answers_the_call(t, r, ResultView::Text(x@), false)
                } else {
                    exists|y: Seq<char>|
                        #![trigger says(t, r, y, false)]
                        y.len() >= history::TOOL_RESULT_PREVIEW_CHARS && y.take(
                            history::TOOL_RESULT_PREVIEW_CHARS as int,
                        ) == x@.take(history::TOOL_RESULT_PREVIEW_CHARS as int)
                            && says(t, r, y, false)
                },
                Ok(ToolResultContent::Blocks(b)) => if b@.len() == 0 {
                    answers_the_call(t, r, ResultView::Text("(no output)"@), false)
                } else {
                    answers_the_call(t, r, ResultView::Blocks(text::views(b@)), false)
                },
                Err(e) => answers_the_call(t, r, ResultView::Text("error: "@ + e@), true)
                    && tells_the_end(t, r, Err(e@), None),
            }
        }),
{
    let r = turn::step_of(t, s, TurnEvent::Returned { result, saved });
    let n = t.results.len();
    match result {
        Ok(c) => {
            let y = turn::recorded_result(Ok(c@), saved);
            assert(results_in(r) == t.results.push(
                BlockView::ToolResult { tool_use_id: call_at(t).0, content: y, is_error: false },
            ));
            assert(results_in(r).take(n as int) =~= t.results);
            if let ToolResultContent::Text(x) = c {
                if vstd::utf8::encode_utf8(x@).len() > history::TOOL_RESULT_CONTEXT_LIMIT {
                    history::cut_results_keep_their_beginning(x@, saved);
                    if x@.len() > 0 {
                        assert(says(t, r, history::truncated(x@, saved), false));
                    }
                }
            } else if let ToolResultContent::Blocks(b) = c {
                assert(text::views(b@).len() == b@.len());
            }
        },
        Err(e) => {
            reveal_strlit("error: ");
            lemma_answer_stays(
                t,
                s,
                ResultView::Text("error: "@ + e@),
                true,
                turn::result_event(t, Err(e@), None),
            );
        },
    }
}

/// The interface is told what a tool handed back, with its widget where it
/// has one, once that has been asked for.
pub proof fn results_are_shown(
    t: TurnView,
    s: SharedView,
    content: ToolResultContent,
    saved: SavedOutput,
    ui: Option<UiResource>,
)
    requires
        t.phase == Phase::Calling,
        t.next < t.tool_uses.len(),
        t.tool_uses[t.next as int] is ToolUse,
    ensures
        ({
            let r = turn::step_of(t, s, TurnEvent::Returned { result: Ok(content), saved });
            let w = turn::step_of(r.turn, r.shared, TurnEvent::UiFetched(ui));
            &&& r.action == (ActionView::FetchUi { name: call_at(t).1 })
            &&& r.events.len() == 0
            &&& tells_the_end(t, w, Ok(content@.text()), text::view_opt(ui))
            &&& results_in(w).len() > t.results.len()
            &&& results_in(w).take(t.results.len() as int + 1) == r.turn.results
        }),
{
    let r = turn::step_of(t, s, TurnEvent::Returned { result: Ok(content), saved });
    let e = turn::result_event(r.turn, Ok(r.turn.returned), text::view_opt(ui));
    let w = turn::step_of(r.turn, r.shared, TurnEvent::UiFetched(ui));
    lemma_settled_leads_on(turn::passed(r.turn), r.shared, seq![e]);
    assert(w.events[0] == w.events.take(1)[0]);
}

/// A call that the user does not allow is answered with an error that names
/// the tool, and told as denied; one that the user allows is made as the model
/// asked.
pub proof fn decisions_are_carried_out(t: TurnView, s: SharedView, allow: bool)
    requires
        t.phase == Phase::Asking,
        t.next < t.tool_uses.len(),
        t.tool_uses[t.next as int] is ToolUse,
    ensures
        ({
            let r = turn::step_of(t, s, TurnEvent::Decided { allow });
            if allow {
                &&& r.action == (ActionView::Call { name: call_at(t).1, input: call_at(t).2 })
                &&& r.turn == (TurnView { phase: Phase::Calling, ..t })
                &&& r.shared == s
            } else {
                &&& !(r.action is Call)
                &&& answers_the_call(
                    t,
                    r,
                    ResultView::Text("denied by user: "@ + call_at(t).1),
                    true,
                )
                &&& r.events.len() > 0
                &&& r.events[0] == (AgentEventView::ToolCallDenied {
                    id: call_at(t).0,
                    name: call_at(t).1,
                })
            }
        }),
{
    if !allow {
        let content = ResultView::Text("denied by user: "@ + call_at(t).1);
        lemma_answer_stays(
            t,
            s,
            content,
            true,
            AgentEventView::ToolCallDenied { id: call_at(t).0, name: call_at(t).1 },
        );
        lemma_settled_looks_up(
            turn::passed(turn::answered(t, content, true)),
            s,
            seq![AgentEventView::ToolCallDenied { id: call_at(t).0, name: call_at(t).1 }],
        );
    }
}

proof fn lemma_settled_looks_up(t: TurnView, s: SharedView, events: Seq<AgentEventView>)
    ensures
        ({
            let r = turn::settled(t, s, events);
            r.action is Proceed || r.action is LookUp
        }),
    decreases t.tool_uses.len() - t.next,
{
    if t.next < t.tool_uses.len() {
        if !(t.current() is ToolUse) {
            lemma_settled_looks_up(turn::passed(t), s, events);
        } else if let Some(e) = turn::error_for(t.parse_errors, turn::call_id(t.current())) {
            lemma_settled_looks_up(
                turn::passed(turn::answered(t, ResultView::Text(e), true)),
                s,
                events.push(turn::result_event(t, Err(e), None)),
            );
        }
    }
}

/// Something stands against a call in plan mode: the tool is the scratchpad,
/// or needs approval, or would move on a plan that waits for approval.
pub open spec fn plan_forbids(name: Seq<char>, requires_approval: bool, plan_exists: bool) -> bool {
    ||| requires_approval
    ||| name == "TodoWrite"@
    ||| plan_exists && (name == "UpdatePlanStep"@ || name == "ExitPlanMode"@)
}

/// What becomes of a tool call that was looked up. A tool that there is runs,
/// unless plan mode forbids it, or it needs approval and the mode asks for
/// that: then the user is asked. A call that does not run is answered with an
/// error, and the interface is told the same.
pub proof fn known_tools_run_unless_forbidden(
    t: TurnView,
    s: SharedView,
    found: bool,
    requires_approval: bool,
    mode: PermissionMode,
    plan_exists: bool,
)
    requires
        t.phase == Phase::LookingUp,
        t.next < t.tool_uses.len(),
        t.tool_uses[t.next as int] is ToolUse,
    ensures
        ({
            let r = turn::step_of(
                t,
                s,
                TurnEvent::LookedUp { found, requires_approval, mode, plan_exists },
            );
            let call = call_at(t);
            let auto = mode == PermissionMode::Auto || (mode == PermissionMode::Ask
                && t.default_mode == PermissionMode::Auto);
            let planning = mode == PermissionMode::Plan;
            if !found || (planning && plan_forbids(call.1, requires_approval, plan_exists)) {
                exists|why: Seq<char>|
                    #![trigger says(t, r, why, true)]
                    says(t, r, why, true) && tells_the_end(
                        t,
                        r,
                        Err(why),
                        None,
                    ) && (!found ==> why == "unknown tool: "@ + call.1) && !(r.action is Call)
                        && !(r.action is Approve)
            } else if requires_approval && !auto {
                &&& r.action == (ActionView::Approve {
                    name: call.1,
                    input: call.2,
                    originator: t.origin,
                })
                &&& r.turn == (TurnView { phase: Phase::Asking, ..t })
                &&& r.shared == s
            } else {
                &&& r.action == (ActionView::Call { name: call.1, input: call.2 })
                &&& r.turn == (TurnView { phase: Phase::Calling, ..t })
                &&& r.shared == s
            }
        }),
{
    let call = call_at(t);
    let r = turn::step_of(
        t,
        s,
        TurnEvent::LookedUp { found, requires_approval, mode, plan_exists },
    );
    let m = turn::mode_in_force(mode, t.default_mode);
    if let turn::GateView::Refused(x) = turn::gate_of(
        call.1,
        found,
        requires_approval,
        m,
        plan_exists,
    ) {
        let e = turn::result_event(t, Err(x), None);
        lemma_answer_stays(t, s, ResultView::Text(x), true, e);
        lemma_settled_looks_up(
            turn::passed(turn::answered(t, ResultView::Text(x), true)),
            s,
            seq![e],
        );
        assert(says(t, r, x, true));
    }
}

// ---------------------------------------------------------------------------
// From request to request
// ---------------------------------------------------------------------------

proof fn lemma_waits_double(attempt: nat)
    ensures
        turn::backoff_secs(attempt) == pow2(attempt),
    decreases attempt,
{
    if attempt == 0 {
        lemma2_to64();
    } else {
        lemma_waits_double((attempt - 1) as nat);
        lemma_pow2_unfold(attempt);
    }
}

/// A refused request is made again after a wait, which doubles from attempt to
/// attempt, while attempts are left; an error of configuration, or one after
/// the last attempt, ends the turn with that error.
pub proof fn refused_requests_are_made_again(t: TurnView, s: SharedView, error: Error)
    requires
        t.phase == Phase::Requesting,
        t.attempt < 64,
    ensures
        ({
            let r = turn::step_of(t, s, TurnEvent::OpenFailed(error));
            let w = turn::step_of(r.turn, r.shared, TurnEvent::BackoffOver);
            if t.attempt < t.max_retries && !(error@ is Config) {
                &&& r.action is Backoff
                &&& r.action->secs == pow2(t.attempt)
                &&& w.action is Request
                &&& w.turn == (TurnView { attempt: t.attempt + 1, ..t })
                &&& w.shared == s
            } else {
                &&& r.action == ActionView::Abort(error@)
                &&& r.turn.phase == Phase::Over
                &&& r.shared.history == s.history
            }
        }),
{
    lemma_waits_double(t.attempt);
    lemma2_to64();
    lemma2_to64_rest();
    if t.attempt < 63 {
        lemma_pow2_strictly_increases(t.attempt, 63);
    }
}

/// How an answer without tool calls ends. Where the model ran into the lower
/// cap, the request is made once more with the higher one; else the turn is
/// over, and the interface is told why the answer stopped and what the turn
/// has used.
pub proof fn answers_without_calls_end_the_turn(
    t: TurnView,
    s: SharedView,
    events: Seq<TurnEvent>,
)
    requires
        t.phase == Phase::Between,
        conversation::run_of(t, s, events).0.phase == Phase::Streaming,
        calls_in(pieces_of(t, s, events)).len() == 0,
    ensures
        ({
            let (u, v) = conversation::run_of(t, s, events);
            let why = stopped_by(pieces_of(t, s, events));
            let r = turn::step_of(u, v, TurnEvent::StreamEnded);
            if why == Some("max_tokens"@) && u.current_max_tokens < turn::ESCALATED_MAX_TOKENS {
                &&& r.action is Proceed
                &&& r.turn.phase == Phase::Between
                &&& r.turn.current_max_tokens == turn::ESCALATED_MAX_TOKENS
                &&& r.turn.iteration == u.iteration + 1
                &&& r.events.len() == 0
            } else {
                &&& r.action is Finished
                &&& r.turn.phase == Phase::Over
                &&& r.events == seq![AgentEventView::Done { stop_reason: why, usage: u.usage }]
            }
        }),
{
    pieces_are_collected(t, s, events);
}

/// Tokens among pieces, counted where the end of an answer tells them.
pub open spec fn tokens_in(p: Seq<AssembledEvent>, of: spec_fn(Usage) -> nat) -> nat
    decreases p.len(),
{
    if p.len() == 0 {
        0
    } else {
        tokens_in(p.drop_last(), of) + match p.last() {
            AssembledEvent::Done { usage: Some(u), .. } => of(u),
            _ => 0,
        }
    }
}

/// All pieces that a turn has taken.
pub open spec fn all_pieces(t: TurnView, s: SharedView, events: Seq<TurnEvent>) -> Seq<
    AssembledEvent,
>
    decreases events.len(),
{
    if events.len() == 0 {
        Seq::empty()
    } else {
        let before = all_pieces(t, s, events.drop_last());
        match events.last() {
            TurnEvent::Assembled(a) => if conversation::run_of(t, s, events.drop_last()).0.phase
                == Phase::Streaming {
                before.push(a)
            } else {
                before
            },
            _ => before,
        }
    }
}

/// As much of a count as fits.
pub open spec fn capped(n: nat) -> nat {
    if n <= u32::MAX {
        n
    } else {
        u32::MAX as nat
    }
}

/// A count that may not have been told.
pub open spec fn count_of(n: Option<u32>) -> nat {
    match n {
        Some(x) => x as nat,
        None => 0,
    }
}

proof fn lemma_settled_uses_nothing(t: TurnView, s: SharedView, events: Seq<AgentEventView>)
    ensures
        turn::settled(t, s, events).turn.usage == t.usage,
    decreases t.tool_uses.len() - t.next,
{
    if t.next < t.tool_uses.len() {
        if !(t.current() is ToolUse) {
            lemma_settled_uses_nothing(turn::passed(t), s, events);
        } else if let Some(e) = turn::error_for(t.parse_errors, turn::call_id(t.current())) {
            lemma_settled_uses_nothing(
                turn::passed(turn::answered(t, ResultView::Text(e), true)),
                s,
                events.push(turn::result_event(t, Err(e), None)),
            );
        }
    }
}

proof fn lemma_step_uses(t: TurnView, s: SharedView, e: TurnEvent)
    ensures
        ({
            let after = turn::step_of(t, s, e).turn.usage;
            match e {
                TurnEvent::Assembled(AssembledEvent::Done { usage: Some(u), .. }) => after
                    == if t.phase == Phase::Streaming {
                    t.usage.plus(u)
                } else {
                    t.usage
                },
                _ => after == t.usage,
            }
        }),
{
    let b = t.current();
    match e {
        TurnEvent::StreamEnded => {
            lemma_settled_uses_nothing(
                TurnView { next: 0, results: Seq::empty(), ..t },
                SharedView { history: turn::history_after_answer(t, s.history), ..s },
                Seq::empty(),
            );
        },
        TurnEvent::LookedUp { found, requires_approval, mode, plan_exists } => {
            if let turn::GateView::Refused(x) = turn::gate_of(
                turn::call_name(b),
                found,
                requires_approval,
                turn::mode_in_force(mode, t.default_mode),
                plan_exists,
            ) {
                lemma_settled_uses_nothing(
                    turn::passed(turn::answered(t, ResultView::Text(x), true)),
                    s,
                    seq![turn::result_event(t, Err(x), None)],
                );
            }
        },
        TurnEvent::Decided { allow } => {
            lemma_settled_uses_nothing(
                turn::passed(
                    turn::answered(
                        t,
                        ResultView::Text("denied by user: "@ + turn::call_name(b)),
                        true,
                    ),
                ),
                s,
                seq![
                    AgentEventView::ToolCallDenied {
                        id: turn::call_id(b),
                        name: turn::call_name(b),
                    },
                ],
            );
        },
        TurnEvent::Returned { result, saved } => {
            if let Err(x) = result {
                lemma_settled_uses_nothing(
                    turn::passed(
                        turn::answered(t, turn::recorded_result(Err(x@), saved), true),
                    ),
                    s,
                    seq![turn::result_event(t, Err(x@), None)],
                );
            }
        },
        TurnEvent::UiFetched(ui) => {
            lemma_settled_uses_nothing(
                turn::passed(t),
                s,
                seq![turn::result_event(t, Ok(t.returned), text::view_opt(ui))],
            );
        },
        _ => {},
    }
}

/// What a turn has used is what it had used before and what its answers have
/// told since, as far as the counts go.
pub proof fn usage_adds_up(t: TurnView, s: SharedView, events: Seq<TurnEvent>)
    ensures
        ({
            let u = conversation::run_of(t, s, events).0;
            let p = all_pieces(t, s, events);
            &&& u.usage.input_tokens == capped(
                t.usage.input_tokens as nat + tokens_in(p, |x: Usage| x.input_tokens as nat),
            )
            &&& u.usage.output_tokens == capped(
                t.usage.output_tokens as nat + tokens_in(p, |x: Usage| x.output_tokens as nat),
            )
            &&& count_of(u.usage.cache_read_input_tokens) == capped(
                count_of(t.usage.cache_read_input_tokens) + tokens_in(
                    p,
                    |x: Usage| count_of(x.cache_read_input_tokens),
                ),
            )
            &&& count_of(u.usage.cache_creation_input_tokens) == capped(
                count_of(t.usage.cache_creation_input_tokens) + tokens_in(
                    p,
                    |x: Usage| count_of(x.cache_creation_input_tokens),
                ),
            )
            &&& count_of(u.usage.reasoning_output_tokens) == capped(
                count_of(t.usage.reasoning_output_tokens) + tokens_in(
                    p,
                    |x: Usage| count_of(x.reasoning_output_tokens),
                ),
            )
        }),
    decreases events.len(),
{
    let p = all_pieces(t, s, events);
    if events.len() > 0 {
        let (u, v) = conversation::run_of(t, s, events.drop_last());
        usage_adds_up(t, s, events.drop_last());
        lemma_step_uses(u, v, events.last());
        if events.last() is Assembled && u.phase == Phase::Streaming {
            assert(p.drop_last() == all_pieces(t, s, events.drop_last()));
        }
    }
}

// ---------------------------------------------------------------------------
// From call to call
// ---------------------------------------------------------------------------

/// A tool call whose input could not be read, or a block that is no tool call:
/// there is nothing to run.
pub open spec fn has_nothing_to_run(t: TurnView, k: int) -> bool {
    match t.tool_uses[k] {
        BlockView::ToolUse { id, .. } => exists|e: Seq<char>| #[trigger]
            t.parse_errors.contains((id, e)),
        _ => true,
    }
}

/// A block that answers a tool call that could not be read with what was wrong
/// with it.
pub open spec fn tells_what_was_wrong(t: TurnView, b: BlockView) -> bool {
    b matches BlockView::ToolResult { tool_use_id, content: ResultView::Text(e), is_error: true }
        && t.parse_errors.contains((tool_use_id, e))
}

proof fn lemma_error_is_there(errors: Seq<(Seq<char>, Seq<char>)>, id: Seq<char>)
    ensures
        match turn::error_for(errors, id) {
            Some(e) => errors.contains((id, e)),
            None => forall|e: Seq<char>| !errors.contains((id, e)),
        },
    decreases errors.len(),
{
    if errors.len() > 0 {
        let rest = errors.skip(1);
        lemma_error_is_there(rest, id);
        if errors[0].0 != id {
            if let Some(e) = turn::error_for(errors, id) {
                let k = choose|k: int| 0 <= k < rest.len() && rest[k] == (id, e);
                assert(errors[k + 1] == (id, e));
            } else {
                assert forall|e: Seq<char>| !errors.contains((id, e)) by {
                    if errors.contains((id, e)) {
                        let k = choose|k: int| 0 <= k < errors.len() && errors[k] == (id, e);
                        assert(rest[k - 1] == (id, e));
                        assert(rest.contains((id, e)));
                    }
                }
            }
        } else {
            assert(errors[0] == (id, errors[0].1));
        }
    }
}

/// On the way to the next call that there is something to run of, none is
/// passed over, and those that could not be read are answered with what was
/// wrong with them.
pub open spec fn goes_on_from(t: TurnView, from: nat, given: nat, r: StepView) -> bool {
    let n = if r.turn.phase == Phase::LookingUp {
        r.turn.next
    } else {
        t.tool_uses.len()
    };
    &&& r.turn.phase == Phase::LookingUp ==> from <= n < t.tool_uses.len() && !has_nothing_to_run(
        t,
        n as int,
    ) && r.action == (ActionView::LookUp {
        id: call_at(r.turn).0,
        name: call_at(r.turn).1,
        input: call_at(r.turn).2,
    })
    &&& r.turn.phase == Phase::LookingUp || r.action is Proceed
    &&& r.turn.tool_uses == t.tool_uses
    &&& forall|k: int| from <= k < n ==> #[trigger] has_nothing_to_run(t, k)
    &&& r.turn.phase == Phase::LookingUp || results_in(r).len() > given ==> forall|k: int|
        given <= k < results_in(r).len() ==> tells_what_was_wrong(t, #[trigger] results_in(r)[k])
}

proof fn lemma_settled_goes_on(t: TurnView, s: SharedView, events: Seq<AgentEventView>)
    requires
        t.results.len() > 0 || t.next < t.tool_uses.len(),
    ensures
        ({
            let r = turn::settled(t, s, events);
            &&& (t.results.len() > 0 || r.turn.phase == Phase::LookingUp || exists|k: int|
                t.next <= k < t.tool_uses.len() && #[trigger] t.tool_uses[k] is ToolUse)
                ==> goes_on_from(t, t.next, t.results.len(), r)
        }),
    decreases t.tool_uses.len() - t.next,
{
    let r = turn::settled(t, s, events);
    let n = t.next as int;
    if t.next >= t.tool_uses.len() {
    } else if !(t.current() is ToolUse) {
        assert(has_nothing_to_run(t, n));
        let t2 = turn::passed(t);
        if t2.results.len() > 0 || t2.next < t2.tool_uses.len() {
            lemma_settled_goes_on(t2, s, events);
            lemma_same_calls(t, t2);
            if exists|k: int| t.next <= k < t.tool_uses.len() && #[trigger] t.tool_uses[k]
                is ToolUse {
                let k = choose|k: int|
                    t.next <= k < t.tool_uses.len() && #[trigger] t.tool_uses[k] is ToolUse;
                assert(t2.tool_uses[k] is ToolUse && t2.next <= k);
            }
            if goes_on_from(t2, t2.next, t2.results.len(), r) {
                assert(goes_on_from(t, t.next, t.results.len(), r));
            }
        }
    } else {
        let id = turn::call_id(t.current());
        lemma_error_is_there(t.parse_errors, id);
        if let Some(e) = turn::error_for(t.parse_errors, id) {
            let t2 = turn::passed(turn::answered(t, ResultView::Text(e), true));
            let e2 = events.push(turn::result_event(t, Err(e), None));
            assert(has_nothing_to_run(t, n));
            lemma_settled_goes_on(t2, s, e2);
            lemma_settled_leads_on(t2, s, e2);
            lemma_same_calls(t, t2);
            assert(goes_on_from(t2, t2.next, t2.results.len(), r));
            let g = t.results.len() as int;
            assert(results_in(r)[g] == results_in(r).take(t2.results.len() as int)[g]);
            assert(tells_what_was_wrong(t, results_in(r)[g]));
            assert(goes_on_from(t, t.next, t.results.len(), r));
        }
    }
}

proof fn lemma_same_calls(t: TurnView, u: TurnView)
    requires
        u.tool_uses == t.tool_uses,
        u.parse_errors == t.parse_errors,
    ensures
        forall|k: int| #[trigger] has_nothing_to_run(t, k) == has_nothing_to_run(u, k),
        forall|b: BlockView| #[trigger] tells_what_was_wrong(t, b) == tells_what_was_wrong(u, b),
{
}

/// The tool calls of an answer are dealt with one after the other, and none is
/// left out: what is looked up next is the first call behind the current one
/// that could be read, and the next request is due only when there is none.
pub proof fn no_call_is_left_out(t: TurnView, s: SharedView, e: TurnEvent)
    requires
        t.is_valid(),
        t.is_on_tool() || (t.phase == Phase::Streaming && e is StreamEnded && exists|k: int|
            0 <= k < t.tool_uses.len() && #[trigger] t.tool_uses[k] is ToolUse),
        t.phase == Phase::FetchingUi ==> t.results.len() > 0,
    ensures
        ({
            let r = turn::step_of(t, s, e);
            let on = t.is_on_tool();
            let given = if on && t.phase != Phase::FetchingUi {
                t.results.len() + 1
            } else if on {
                t.results.len()
            } else {
                0
            };
            let from = if on {
                t.next + 1
            } else {
                0
            };
            r.action is LookUp || r.action is Proceed ==> goes_on_from(t, from, given, r)
        }),
{
    let b = t.current();
    if t.phase == Phase::Streaming {
        let t2 = TurnView { next: 0, results: Seq::empty(), ..t };
        let k = choose|k: int| 0 <= k < t.tool_uses.len() && #[trigger] t.tool_uses[k] is ToolUse;
        assert(t2.tool_uses[k] is ToolUse);
        lemma_settled_goes_on(
            t2,
            SharedView { history: turn::history_after_answer(t, s.history), ..s },
            Seq::empty(),
        );
        lemma_same_calls(t, t2);
        let r = turn::step_of(t, s, e);
        assert(goes_on_from(t2, 0, 0, r));
        assert(goes_on_from(t, 0, 0, r));
    } else {
        match e {
            TurnEvent::LookedUp { found, requires_approval, mode, plan_exists } => {
                if let turn::GateView::Refused(x) = turn::gate_of(
                    turn::call_name(b),
                    found,
                    requires_approval,
                    turn::mode_in_force(mode, t.default_mode),
                    plan_exists,
                ) {
                    lemma_goes_on_after(
                        t,
                        turn::passed(turn::answered(t, ResultView::Text(x), true)),
                        s,
                        seq![turn::result_event(t, Err(x), None)],
                    );
                }
            },
            TurnEvent::Decided { allow } => {
                lemma_goes_on_after(
                    t,
                    turn::passed(
                        turn::answered(
                            t,
                            ResultView::Text("denied by user: "@ + turn::call_name(b)),
                            true,
                        ),
                    ),
                    s,
                    seq![
                        AgentEventView::ToolCallDenied {
                            id: turn::call_id(b),
                            name: turn::call_name(b),
                        },
                    ],
                );
            },
            TurnEvent::Returned { result, saved } => {
                if let Err(x) = result {
                    lemma_goes_on_after(
                        t,
                        turn::passed(
                            turn::answered(t, turn::recorded_result(Err(x@), saved), true),
                        ),
                        s,
                        seq![turn::result_event(t, Err(x@), None)],
                    );
                }
            },
            TurnEvent::UiFetched(ui) => {
                if t.phase == Phase::FetchingUi {
                    lemma_goes_on_after(
                        t,
                        turn::passed(t),
                        s,
                        seq![turn::result_event(t, Ok(t.returned), text::view_opt(ui))],
                    );
                }
            },
            _ => {},
        }
    }
}

proof fn lemma_goes_on_after(
    t: TurnView,
    t2: TurnView,
    s: SharedView,
    events: Seq<AgentEventView>,
)
    requires
        t2.results.len() > 0,
        t2.next == t.next + 1,
        t2.tool_uses == t.tool_uses,
        t2.parse_errors == t.parse_errors,
    ensures
        goes_on_from(t, t.next + 1, t2.results.len(), turn::settled(t2, s, events)),
{
    lemma_settled_goes_on(t2, s, events);
    lemma_same_calls(t, t2);
    assert(goes_on_from(t2, t2.next, t2.results.len(), turn::settled(t2, s, events)));
}

/// A turn makes as many requests as it may, each of them told of by its number,
/// and then ends by saying that the limit was reached. A limit of zero is none
/// but that of the machine.
pub proof fn turns_keep_to_their_limit(t: TurnView, s: SharedView)
    requires
        t.phase == Phase::Between,
    ensures
        ({
            let r = turn::step_of(t, s, TurnEvent::Proceed);
            if t.iteration < t.max_iterations || (t.max_iterations == 0 && t.iteration
                < usize::MAX) {
                &&& r.action is Request
                &&& r.turn.phase == Phase::Requesting
                &&& r.turn.attempt == 0
                &&& r.turn.iteration == t.iteration
                &&& r.shared == s
                &&& r.events == seq![AgentEventView::IterationStart { iteration: t.iteration }]
            } else {
                &&& r.action is Finished
                &&& r.turn.phase == Phase::Over
                &&& r.shared.history == s.history
                &&& r.events == seq![
                    AgentEventView::Done {
                        stop_reason: Some("max_iterations"@),
                        usage: t.usage,
                    },
                ]
            }
        }),
{
}

/// A stream that breaks off ends the turn with its error, and a wait that the
/// user breaks off with one that says so; the conversation stays as it was,
/// and nothing more is told.
pub proof fn failures_end_the_turn(t: TurnView, s: SharedView, error: Error)
    ensures
        t.phase == Phase::Streaming ==> {
            let r = turn::step_of(t, s, TurnEvent::StreamFailed(error));
            &&& r.action == ActionView::Abort(error@)
            &&& r.turn.phase == Phase::Over
            &&& r.shared.history == s.history
            &&& r.events.len() == 0
        },
        t.phase == Phase::Waiting ==> {
            let r = turn::step_of(t, s, TurnEvent::BackoffCancelled);
            &&& r.action is Abort
            &&& r.turn.phase == Phase::Over
            &&& r.shared.history == s.history
            &&& r.events.len() == 0
        },
{
}

/// A request that is answered is read piece by piece until its end.
pub proof fn answers_are_read_to_their_end(t: TurnView, s: SharedView, piece: AssembledEvent)
    ensures
        t.phase == Phase::Requesting ==> {
            let r = turn::step_of(t, s, TurnEvent::Opened);
            &&& r.action is Read
            &&& r.turn == (TurnView { phase: Phase::Streaming, ..t })
            &&& r.shared == s
        },
        t.phase == Phase::Streaming ==> {
            let r = turn::step_of(t, s, TurnEvent::Assembled(piece));
            &&& r.action is Read
            &&& r.turn.phase == Phase::Streaming
            &&& r.shared == s
        },
{
}

} // verus!
