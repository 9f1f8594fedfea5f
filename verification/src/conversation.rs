//! What a whole turn leaves in the conversation.

use vstd::prelude::*;

use crate::history;
use crate::text;
use crate::turn::{self, Phase, SharedView, TurnEvent, TurnView};
use crate::types::{BlockView, MessageView, ResultView, Role};

verus! {

/// A turn, and what it shares, after a run of events.
pub open spec fn run_of(t: TurnView, s: SharedView, events: Seq<TurnEvent>) -> (
    TurnView,
    SharedView,
)
    decreases events.len(),
{
    if events.len() == 0 {
        (t, s)
    } else {
        let (u, v) = run_of(t, s, events.drop_last());
        let r = turn::step_of(u, v, events.last());
        (r.turn, r.shared)
    }
}

/// Blocks that are answers to tool calls: one to each of these, in order, and
/// nothing else.
pub open spec fn answers(content: Seq<BlockView>, ids: Seq<Seq<char>>) -> bool {
    &&& content.len() == ids.len()
    &&& forall|k: int|
        0 <= k < ids.len() ==> (#[trigger] content[k] matches BlockView::ToolResult {
            tool_use_id,
            ..
        } && tool_use_id == ids[k])
}

/// From place `n` on, the conversation is made of answers of the model and of
/// the user's replies to their tool calls. No message is empty, and each
/// answer with tool calls is followed directly by one message that replies to
/// each of the calls once, in their order.
pub open spec fn is_paired(h: Seq<MessageView>, n: nat) -> bool {
    forall|i: int|
        n <= i < h.len() ==> {
            let ids = turn::call_ids((#[trigger] h[i]).content);
            &&& h[i].content.len() > 0
            &&& h[i].role == Role::Assistant || (n < i && replies(h[i - 1], h[i]))
            &&& h[i].role == Role::Assistant && ids.len() > 0 ==> i + 1 < h.len() && replies(
                h[i],
                h[i + 1],
            )
        }
}

/// The second message replies to the tool calls of the first.
pub open spec fn replies(a: MessageView, b: MessageView) -> bool {
    &&& a.role == Role::Assistant
    &&& b.role == Role::User
    &&& turn::call_ids(a.content).len() > 0
    &&& answers(b.content, turn::call_ids(a.content))
}

/// The conversation begins with these messages, but for images that the model
/// has seen.
pub open spec fn continues(h: Seq<MessageView>, base: Seq<MessageView>) -> bool {
    &&& h.len() >= base.len()
    &&& history::redact_history(h.take(base.len() as int)) == history::redact_history(base)
}

/// The last message holds the tool calls that are being dealt with, and all
/// before it are paired.
pub open spec fn is_pending(h: Seq<MessageView>, calls: Seq<BlockView>, base: Seq<MessageView>) -> bool {
    &&& continues(h, base)
    &&& h.len() > base.len()
    &&& h.last().role == Role::Assistant
    &&& h.last().content.len() > 0
    &&& turn::call_ids(h.last().content) == turn::call_ids(calls)
    &&& is_paired(h.drop_last(), base.len())
}

/// How a turn stands to a conversation that began with `base`.
pub open spec fn stands(t: TurnView, s: SharedView, base: Seq<MessageView>) -> bool {
    if t.is_on_tool() {
        &&& is_pending(s.history, t.tool_uses, base)
        &&& answers(t.results, turn::call_ids(turn::calls_behind(t)))
    } else {
        continues(s.history, base) && is_paired(s.history, base.len())
    }
}

proof fn lemma_answered(t: TurnView, content: ResultView, is_error: bool)
    requires
        t.next < t.tool_uses.len(),
        t.current() is ToolUse,
        answers(t.results, turn::call_ids(t.tool_uses.take(t.next as int))),
    ensures
        answers(
            turn::answered(t, content, is_error).results,
            turn::call_ids(t.tool_uses.take((t.next + 1) as int)),
        ),
{
    let w = t.tool_uses.take((t.next + 1) as int);
    assert(w.drop_last() == t.tool_uses.take(t.next as int));
    assert(w.last() == t.current());
}

proof fn lemma_reply_pairs(h: Seq<MessageView>, m: MessageView, n: nat)
    requires
        h.len() > n,
        h.last().content.len() > 0,
        h.last().role == Role::Assistant,
        is_paired(h.drop_last(), n),
        replies(h.last(), m),
    ensures
        is_paired(h.push(m), n),
{
    let w = h.push(m);
    let f = h.drop_last();
    assert forall|i: int| n <= i < w.len() implies {
        let ids = turn::call_ids((#[trigger] w[i]).content);
        &&& w[i].content.len() > 0
        &&& w[i].role == Role::Assistant || (n < i && replies(w[i - 1], w[i]))
        &&& w[i].role == Role::Assistant && ids.len() > 0 ==> i + 1 < w.len() && replies(
            w[i],
            w[i + 1],
        )
    } by {
        if i < f.len() {
            assert(w[i] == f[i]);
            if i + 1 < f.len() {
                assert(w[i + 1] == f[i + 1]);
            }
            if n < i {
                assert(w[i - 1] == f[i - 1]);
            }
        } else if i == f.len() {
            assert(w[i] == h.last());
        } else {
            assert(w[i - 1] == h.last());
        }
    }
}

proof fn lemma_plain_answer_pairs(h: Seq<MessageView>, n: nat)
    requires
        h.len() > n,
        h.last().content.len() > 0,
        h.last().role == Role::Assistant,
        turn::call_ids(h.last().content).len() == 0,
        is_paired(h.drop_last(), n),
    ensures
        is_paired(h, n),
{
    let f = h.drop_last();
    assert forall|i: int| n <= i < h.len() implies {
        let ids = turn::call_ids((#[trigger] h[i]).content);
        &&& h[i].content.len() > 0
        &&& h[i].role == Role::Assistant || (n < i && replies(h[i - 1], h[i]))
        &&& h[i].role == Role::Assistant && ids.len() > 0 ==> i + 1 < h.len() && replies(
            h[i],
            h[i + 1],
        )
    } by {
        if i < f.len() {
            assert(h[i] == f[i]);
            if i + 1 < f.len() {
                assert(h[i + 1] == f[i + 1]);
            }
            if n < i {
                assert(h[i - 1] == f[i - 1]);
            }
        }
    }
}

proof fn lemma_settled(
    t: TurnView,
    s: SharedView,
    events: Seq<turn::AgentEventView>,
    base: Seq<MessageView>,
)
    requires
        t.next <= t.tool_uses.len(),
        is_pending(s.history, t.tool_uses, base),
        answers(t.results, turn::call_ids(t.tool_uses.take(t.next as int))),
    ensures
        stands(turn::settled(t, s, events).turn, turn::settled(t, s, events).shared, base),
    decreases t.tool_uses.len() - t.next,
{
    if t.next >= t.tool_uses.len() {
        assert(t.tool_uses.take(t.next as int) == t.tool_uses);
        if t.results.len() == 0 {
            lemma_plain_answer_pairs(s.history, base.len());
        } else {
            let m = MessageView { role: Role::User, content: t.results };
            lemma_reply_pairs(s.history, m, base.len());
            assert(s.history.push(m).take(base.len() as int) == s.history.take(base.len() as int));
        }
    } else if !(t.current() is ToolUse) {
        let w = t.tool_uses.take((t.next + 1) as int);
        assert(w.drop_last() == t.tool_uses.take(t.next as int));
        assert(w.last() == t.current());
        lemma_settled(turn::passed(t), s, events, base);
    } else if let Some(e) = turn::error_for(t.parse_errors, turn::call_id(t.current())) {
        lemma_answered(t, ResultView::Text(e), true);
        lemma_settled(
            turn::passed(turn::answered(t, ResultView::Text(e), true)),
            s,
            events.push(turn::result_event(t, Err(e), None)),
            base,
        );
    }
}

proof fn lemma_calls_of_sum(a: Seq<BlockView>, b: Seq<BlockView>)
    requires
        forall|i: int| 0 <= i < a.len() ==> !(#[trigger] a[i] is ToolUse),
    ensures
        turn::call_ids(a + b) == turn::call_ids(b),
    decreases a.len() + b.len(),
{
    if b.len() > 0 {
        assert((a + b).drop_last() == a + b.drop_last());
        lemma_calls_of_sum(a, b.drop_last());
    } else if a.len() > 0 {
        assert(a + b == a);
        assert(a.drop_last() + b == a.drop_last());
        lemma_calls_of_sum(a.drop_last(), b);
    }
}

proof fn lemma_calls_of_answer(thinking: Seq<char>, words: Seq<char>, calls: Seq<BlockView>)
    ensures
        turn::call_ids(turn::assistant_content(thinking, words, calls)) == turn::call_ids(calls),
{
    let a = if thinking.len() > 0 {
        seq![BlockView::Thinking { content: thinking, signature: None }]
    } else {
        Seq::empty()
    };
    let b = if words.len() > 0 {
        a.push(BlockView::Text(words))
    } else {
        a
    };
    lemma_calls_of_sum(b, calls);
}

/// Redaction changes nothing of who replies to what.
proof fn lemma_redaction_keeps_pairs(h: Seq<MessageView>, n: nat)
    requires
        is_paired(h, n),
    ensures
        is_paired(history::redact_history(h), n),
{
    let w = history::redact_history(h);
    assert forall|i: int| 0 <= i < h.len() - 1 && replies(h[i], #[trigger] h[i + 1]) implies replies(
        w[i],
        w[i + 1],
    ) by {
        assert(w[i] == h[i]);
        assert(w[i + 1] == history::redact_message(h[i + 1]));
    }
    assert forall|i: int| n <= i < w.len() implies {
        let ids = turn::call_ids((#[trigger] w[i]).content);
        &&& w[i].content.len() > 0
        &&& w[i].role == Role::Assistant || (n < i && replies(w[i - 1], w[i]))
        &&& w[i].role == Role::Assistant && ids.len() > 0 ==> i + 1 < w.len() && replies(
            w[i],
            w[i + 1],
        )
    } by {
        assert(w[i] == history::redact_message(h[i]));
        if h[i].role != Role::Assistant {
            assert(h[i - 1 + 1] == h[i]);
        }
    }
}

proof fn lemma_completed(t: TurnView, s: SharedView, base: Seq<MessageView>)
    requires
        continues(s.history, base),
        is_paired(s.history, base.len()),
    ensures
        stands(turn::completed(t, s).turn, turn::completed(t, s).shared, base),
{
    let content = turn::assistant_content(t.thinking, t.text, t.tool_uses);
    if content.len() > 0 {
        let h = s.history;
        let m = MessageView { role: Role::Assistant, content };
        let w = history::redact_history(h);
        let after = turn::history_after_answer(t, h);
        let n = base.len() as int;
        lemma_calls_of_answer(t.thinking, t.text, t.tool_uses);
        lemma_redaction_keeps_pairs(h, base.len());
        assert(after =~= w.push(m));
        assert(after.drop_last() =~= w);
        assert(after.take(n) =~= history::redact_history(h.take(n)));
        history::redaction_is_idempotent(h.take(n));
        let shared = SharedView { history: after, ..s };
        if t.tool_uses.len() > 0 {
            let t0 = TurnView { next: 0, results: Seq::empty(), ..t };
            assert(t0.tool_uses.take(0) == Seq::<BlockView>::empty());
            lemma_settled(t0, shared, Seq::empty(), base);
        } else {
            lemma_plain_answer_pairs(after, base.len());
        }
    }
}

proof fn lemma_step(t: TurnView, s: SharedView, e: TurnEvent, base: Seq<MessageView>)
    requires
        t.is_valid(),
        stands(t, s, base),
    ensures
        stands(turn::step_of(t, s, e).turn, turn::step_of(t, s, e).shared, base),
{
    if t.phase == Phase::Streaming && e is StreamEnded {
        lemma_completed(t, s, base);
    }
    if t.is_on_tool() {
        let b = t.current();
        match e {
            TurnEvent::LookedUp { found, requires_approval, mode, plan_exists } => {
                let m = turn::mode_in_force(mode, t.default_mode);
                if t.phase == Phase::LookingUp {
                    if let turn::GateView::Refused(x) = turn::gate_of(
                        turn::call_name(b),
                        found,
                        requires_approval,
                        m,
                        plan_exists,
                    ) {
                        lemma_answered(t, ResultView::Text(x), true);
                        lemma_settled(
                            turn::passed(turn::answered(t, ResultView::Text(x), true)),
                            s,
                            seq![turn::result_event(t, Err(x), None)],
                            base,
                        );
                    }
                }
            },
            TurnEvent::Decided { allow } => {
                if t.phase == Phase::Asking && !allow {
                    let c = ResultView::Text("denied by user: "@ + turn::call_name(b));
                    lemma_answered(t, c, true);
                    lemma_settled(
                        turn::passed(turn::answered(t, c, true)),
                        s,
                        seq![
                            turn::AgentEventView::ToolCallDenied {
                                id: turn::call_id(b),
                                name: turn::call_name(b),
                            },
                        ],
                        base,
                    );
                }
            },
            TurnEvent::Returned { result, saved } => {
                if t.phase == Phase::Calling {
                    let res = match result {
                        Ok(c) => Ok::<ResultView, Seq<char>>(c@),
                        Err(m) => Err(m@),
                    };
                    lemma_answered(t, turn::recorded_result(res, saved), result is Err);
                    if let Err(m) = result {
                        lemma_settled(
                            turn::passed(
                                turn::answered(t, turn::recorded_result(res, saved), true),
                            ),
                            s,
                            seq![turn::result_event(t, Err(m@), None)],
                            base,
                        );
                    }
                }
            },
            TurnEvent::UiFetched(ui) => {
                if t.phase == Phase::FetchingUi {
                    lemma_settled(
                        turn::passed(t),
                        s,
                        seq![turn::result_event(t, Ok(t.returned), text::view_opt(ui))],
                        base,
                    );
                }
            },
            _ => {},
        }
    }
}

/// Wherever a turn stands after however many events, but between a tool call
/// and its answer, the conversation is the one that it started with, but for
/// images that the model has seen, and then the messages of the turn: none is
/// empty, and each answer of the model with tool calls is followed directly by
/// one message of the user with one reply to each call, in order, whether the
/// call ran, failed, was refused or could not be read. So it is when the turn
/// is over, however it ended. Every request on the way went out with what the
/// turn was started with.
pub proof fn every_turn_is_paired(t: TurnView, s: SharedView, events: Seq<TurnEvent>)
    requires
        t.is_valid(),
        t.phase == Phase::Between,
    ensures
        ({
            let (u, v) = run_of(t, s, events);
            &&& u.is_valid()
            &&& u.settings() == t.settings()
            &&& v.history.len() >= s.history.len()
            &&& stands(u, v, s.history)
            &&& !u.is_on_tool() ==> continues(v.history, s.history) && is_paired(
                v.history,
                s.history.len(),
            )
            &&& u.phase == Phase::Over ==> is_paired(v.history, s.history.len())
        }),
    decreases events.len(),
{
    if events.len() == 0 {
        assert(s.history.take(s.history.len() as int) == s.history);
    } else {
        let (u, v) = run_of(t, s, events.drop_last());
        every_turn_is_paired(t, s, events.drop_last());
        turn::step_keeps_valid(u, v, events.last());
        turn::settings_last_the_turn(u, v, events.last());
        lemma_step(u, v, events.last(), s.history);
    }
}

} // verus!
