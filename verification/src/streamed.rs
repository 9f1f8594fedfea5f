//! What a streamed answer says, from the documents of the stream to the pieces
//! that a turn takes.

use vstd::prelude::*;

use crate::assemble::{self, AssembledView, CallView};
use crate::carried;
use crate::json::{self, JsonNumber, JsonView};
use crate::opencode_go::{self, WireFormat};
use crate::opencode_stream::{self, OpenaiParseState, Parsed, ProviderEventView};
use crate::text;
use crate::types::{BlockView, ErrorView, Usage};

verus! {

// ---------------------------------------------------------------------------
// What is told
// ---------------------------------------------------------------------------

/// A tool call as it comes in: its id, the name of the tool, and the text of
/// its input so far.
#[verifier::ext_equal]
pub struct StreamedCall {
    pub id: Seq<char>,
    pub name: Seq<char>,
    pub input: Seq<char>,
}

/// The texts that events tell, one after the other.
pub open spec fn texts_told(e: Seq<ProviderEventView>) -> Seq<char>
    decreases e.len(),
{
    if e.len() == 0 {
        Seq::empty()
    } else {
        texts_told(e.drop_last()) + match e.last() {
            ProviderEventView::TextDelta(x) => x,
            _ => Seq::empty(),
        }
    }
}

/// The reasoning that events tell, one piece after the other.
pub open spec fn thoughts_told(e: Seq<ProviderEventView>) -> Seq<char>
    decreases e.len(),
{
    if e.len() == 0 {
        Seq::empty()
    } else {
        thoughts_told(e.drop_last()) + match e.last() {
            ProviderEventView::ThinkingDelta(x) => x,
            _ => Seq::empty(),
        }
    }
}

/// The models that events name at the beginning of an answer.
pub open spec fn models_told(e: Seq<ProviderEventView>) -> Seq<Seq<char>>
    decreases e.len(),
{
    if e.len() == 0 {
        Seq::empty()
    } else {
        models_told(e.drop_last()) + match e.last() {
            ProviderEventView::MessageStart { model } => seq![model],
            _ => Seq::empty(),
        }
    }
}

/// The ends that events tell: why, and what was used.
pub open spec fn ends_told(e: Seq<ProviderEventView>) -> Seq<(Option<Seq<char>>, Option<Usage>)>
    decreases e.len(),
{
    if e.len() == 0 {
        Seq::empty()
    } else {
        ends_told(e.drop_last()) + match e.last() {
            ProviderEventView::MessageStop { stop_reason, usage } => seq![(stop_reason, usage)],
            _ => Seq::empty(),
        }
    }
}

/// More text for the last of the calls.
pub open spec fn with_input(calls: Seq<StreamedCall>, more: Seq<char>) -> Seq<StreamedCall> {
    if calls.len() == 0 {
        calls
    } else {
        calls.drop_last().push(StreamedCall { input: calls.last().input + more, ..calls.last() })
    }
}

/// The tool calls that events tell, each with all the text of its input, after
/// those that were told before.
pub open spec fn calls_told(before: Seq<StreamedCall>, e: Seq<ProviderEventView>) -> Seq<
    StreamedCall,
>
    decreases e.len(),
{
    if e.len() == 0 {
        before
    } else {
        let calls = calls_told(before, e.drop_last());
        match e.last() {
            ProviderEventView::ToolUseStart { id, name, .. } => calls.push(
                StreamedCall { id, name, input: Seq::empty() },
            ),
            ProviderEventView::ToolUseDelta { partial_json } => with_input(calls, partial_json),
            _ => calls,
        }
    }
}

/// Tool calls of which all has come, and the one that is still coming in.
#[verifier::ext_equal]
pub struct CallLog {
    pub done: Seq<StreamedCall>,
    pub open: Option<StreamedCall>,
}

impl CallLog {
    /// The call that is coming in has come.
    pub open spec fn close(self) -> CallLog {
        CallLog {
            done: match self.open {
                Some(c) => self.done.push(c),
                None => self.done,
            },
            open: None,
        }
    }

    /// Another call begins.
    pub open spec fn begin(self, id: Seq<char>, name: Seq<char>) -> CallLog {
        CallLog { open: Some(StreamedCall { id, name, input: Seq::empty() }), ..self.close() }
    }

    /// More text for the call that is coming in.
    pub open spec fn add(self, more: Seq<char>) -> CallLog {
        match self.open {
            Some(c) => CallLog {
                open: Some(StreamedCall { input: c.input + more, ..c }),
                ..self
            },
            None => self,
        }
    }
}

/// The calls that events begin and close, after those before.
pub open spec fn log_told(before: CallLog, e: Seq<ProviderEventView>) -> CallLog
    decreases e.len(),
{
    if e.len() == 0 {
        before
    } else {
        let log = log_told(before, e.drop_last());
        match e.last() {
            ProviderEventView::ToolUseStart { id, name, .. } => log.begin(id, name),
            ProviderEventView::ToolUseDelta { partial_json } => log.add(partial_json),
            ProviderEventView::ContentBlockStop => log.close(),
            ProviderEventView::MessageStop { .. } => log.close(),
            _ => log,
        }
    }
}

proof fn lemma_told_sum(
    c: Seq<StreamedCall>,
    l: CallLog,
    a: Seq<ProviderEventView>,
    b: Seq<ProviderEventView>,
)
    ensures
        texts_told(a + b) == texts_told(a) + texts_told(b),
        thoughts_told(a + b) == thoughts_told(a) + thoughts_told(b),
        models_told(a + b) == models_told(a) + models_told(b),
        ends_told(a + b) == ends_told(a) + ends_told(b),
        calls_told(c, a + b) == calls_told(calls_told(c, a), b),
        log_told(l, a + b) == log_told(log_told(l, a), b),
    decreases b.len(),
{
    if b.len() == 0 {
        assert(a + b == a);
        assert(texts_told(a + b) =~= texts_told(a) + texts_told(b));
        assert(thoughts_told(a + b) =~= thoughts_told(a) + thoughts_told(b));
        assert(models_told(a + b) =~= models_told(a) + models_told(b));
        assert(ends_told(a + b) =~= ends_told(a) + ends_told(b));
    } else {
        lemma_told_sum(c, l, a, b.drop_last());
        assert((a + b).drop_last() == a + b.drop_last());
        assert(texts_told(a + b) =~= texts_told(a) + texts_told(b));
        assert(thoughts_told(a + b) =~= thoughts_told(a) + thoughts_told(b));
        assert(models_told(a + b) =~= models_told(a) + models_told(b));
        assert(ends_told(a + b) =~= ends_told(a) + ends_told(b));
    }
}

// ---------------------------------------------------------------------------
// What documents in the OpenAI format carry
// ---------------------------------------------------------------------------

/// The choices of a document.
pub open spec fn choices_in(doc: JsonView) -> Seq<JsonView> {
    match doc.get("choices"@) {
        Some(JsonView::Arr(c)) => c,
        _ => Seq::empty(),
    }
}

/// The pieces of tool calls in a choice.
pub open spec fn pieces_in(choice: JsonView) -> Seq<JsonView> {
    match choice.get("delta"@) {
        Some(d) => match d.get("tool_calls"@) {
            Some(JsonView::Arr(p)) => p,
            _ => Seq::empty(),
        },
        None => Seq::empty(),
    }
}

/// The choices of documents, in order, each with its document.
pub open spec fn choices_among(docs: Seq<JsonView>) -> Seq<(JsonView, JsonView)>
    decreases docs.len(),
{
    if docs.len() == 0 {
        Seq::empty()
    } else {
        let c = choices_in(docs.last());
        choices_among(docs.drop_last()) + Seq::new(c.len(), |i: int| (c[i], docs.last()))
    }
}

/// The texts that choices carry, one after the other.
pub open spec fn texts_carried(c: Seq<(JsonView, JsonView)>) -> Seq<char>
    decreases c.len(),
{
    if c.len() == 0 {
        Seq::empty()
    } else {
        texts_carried(c.drop_last()) + carried::text_under(c.last().0.get("delta"@), "content"@)
    }
}

/// The reasoning that choices carry, one piece after the other.
pub open spec fn thoughts_carried(c: Seq<(JsonView, JsonView)>) -> Seq<char>
    decreases c.len(),
{
    if c.len() == 0 {
        Seq::empty()
    } else {
        thoughts_carried(c.drop_last()) + carried::text_under(
            c.last().0.get("delta"@),
            "reasoning_content"@,
        )
    }
}

/// The tool calls that pieces carry, after those before. A piece that names a
/// tool begins a call; the input of a call is all the text that its pieces
/// carry, whether they name it or not.
pub open spec fn calls_of_pieces(before: Seq<StreamedCall>, p: Seq<JsonView>) -> Seq<StreamedCall>
    decreases p.len(),
{
    if p.len() == 0 {
        before
    } else {
        let calls = calls_of_pieces(before, p.drop_last());
        let name = carried::text_under(p.last().get("function"@), "name"@);
        let more = carried::text_under(p.last().get("function"@), "arguments"@);
        if name.len() > 0 {
            calls.push(
                StreamedCall { id: carried::text_under(Some(p.last()), "id"@), name, input: more },
            )
        } else {
            with_input(calls, more)
        }
    }
}

/// The tool calls that choices carry.
pub open spec fn calls_carried(c: Seq<(JsonView, JsonView)>) -> Seq<StreamedCall>
    decreases c.len(),
{
    if c.len() == 0 {
        Seq::empty()
    } else {
        calls_of_pieces(calls_carried(c.drop_last()), pieces_in(c.last().0))
    }
}

/// The number of the tool call that a piece belongs to, where it says so.
pub open spec fn number_of(piece: JsonView) -> Option<int> {
    match piece.get("index"@) {
        Some(JsonView::Num(JsonNumber::Pos(n))) => if n <= i64::MAX {
            Some(n as int)
        } else {
            None
        },
        Some(JsonView::Num(JsonNumber::Neg(n))) => Some(n as int),
        _ => None,
    }
}

/// What has come of an answer: its tool calls, the number of the call that
/// pieces came of last, and whether it has ended.
#[verifier::ext_equal]
pub struct Incoming {
    pub log: CallLog,
    pub number: Option<int>,
    pub ended: bool,
}

impl Incoming {
    /// What has come after a piece: a piece of a call with another number
    /// closes the call before, one that names a tool begins a call, and the
    /// text of every piece goes to the call that is coming in.
    pub open spec fn with_piece(self, piece: JsonView) -> Incoming {
        let name = carried::text_under(piece.get("function"@), "name"@);
        let number = number_of(piece);
        let a = if number is Some && self.number is Some && number != self.number {
            self.log.close()
        } else {
            self.log
        };
        let b = if name.len() > 0 {
            a.begin(carried::text_under(Some(piece), "id"@), name)
        } else {
            a
        };
        Incoming {
            log: b.add(carried::text_under(piece.get("function"@), "arguments"@)),
            number: if number is Some {
                number
            } else {
                self.number
            },
            ..self
        }
    }

    pub open spec fn with_pieces(self, p: Seq<JsonView>) -> Incoming
        decreases p.len(),
    {
        if p.len() == 0 {
            self
        } else {
            self.with_pieces(p.drop_last()).with_piece(p.last())
        }
    }

    /// What has come after a choice: one that says why the answer is over
    /// closes the call that is coming in.
    pub open spec fn with_choice(self, choice: JsonView) -> Incoming {
        let a = self.with_pieces(pieces_in(choice));
        if reason_in(choice) is Some {
            Incoming {
                log: if a.number is Some || !a.ended {
                    a.log.close()
                } else {
                    a.log
                },
                number: None,
                ended: true,
            }
        } else {
            a
        }
    }

    pub open spec fn with_choices(self, c: Seq<JsonView>) -> Incoming
        decreases c.len(),
    {
        if c.len() == 0 {
            self
        } else {
            self.with_choices(c.drop_last()).with_choice(c.last())
        }
    }

    /// What has come after a document; one that only tells what was used ends
    /// the answer too.
    pub open spec fn with_document(self, doc: JsonView) -> Incoming {
        let a = self.with_choices(choices_in(doc));
        if choices_in(doc).len() == 0 && doc.get("usage"@) is Some && !a.ended {
            Incoming { log: a.log.close(), ended: true, ..a }
        } else {
            a
        }
    }

    pub open spec fn with_documents(self, docs: Seq<JsonView>) -> Incoming
        decreases docs.len(),
    {
        if docs.len() == 0 {
            self
        } else {
            self.with_documents(docs.drop_last()).with_document(docs.last())
        }
    }
}

/// Why a choice says that the answer is over.
pub open spec fn reason_in(choice: JsonView) -> Option<Seq<char>> {
    match choice.get("finish_reason"@) {
        Some(JsonView::Str(r)) => Some(r),
        _ => None,
    }
}

/// The ends that the choices of a document carry.
pub open spec fn ends_of_choices(c: Seq<JsonView>, usage: Option<Usage>) -> Seq<
    (Option<Seq<char>>, Option<Usage>),
>
    decreases c.len(),
{
    if c.len() == 0 {
        Seq::empty()
    } else {
        ends_of_choices(c.drop_last(), usage) + if reason_in(c.last()) is Some {
            seq![(reason_in(c.last()), usage)]
        } else {
            Seq::empty()
        }
    }
}

/// The ends that documents carry: why, and what was used. A document that only
/// tells what was used counts as an end.
pub open spec fn ends_carried(docs: Seq<JsonView>) -> Seq<(Option<Seq<char>>, Option<Usage>)>
    decreases docs.len(),
{
    if docs.len() == 0 {
        Seq::empty()
    } else {
        let doc = docs.last();
        let usage = opencode_stream::openai_usage_opt(doc);
        ends_carried(docs.drop_last()) + if choices_in(doc).len() > 0 {
            ends_of_choices(choices_in(doc), usage)
        } else if usage is Some {
            seq![(Some("stop"@), usage)]
        } else {
            Seq::empty()
        }
    }
}

/// The first of a list, or none.
pub open spec fn first_of<A>(s: Seq<A>) -> Seq<A> {
    if s.len() == 0 {
        s
    } else {
        s.take(1)
    }
}

/// What documents in the OpenAI format say, one after the other; none where
/// one of them is an error.
pub open spec fn documents_read(s: OpenaiParseState, docs: Seq<JsonView>) -> Option<Parsed>
    decreases docs.len(),
{
    if docs.len() == 0 {
        Some(Parsed { state: s, events: Seq::empty() })
    } else {
        match documents_read(s, docs.drop_last()) {
            Some(p) => match opencode_stream::openai_document(p.state, docs.last()) {
                Ok(q) => Some(Parsed { state: q.state, events: p.events + q.events }),
                Err(_) => None,
            },
            None => None,
        }
    }
}

// ---------------------------------------------------------------------------
// Documents in the OpenAI format, read
// ---------------------------------------------------------------------------

/// What has come, as events told it after what was there before.
spec fn incoming_of(l: CallLog, p: Parsed) -> Incoming {
    Incoming {
        log: log_told(l, p.events),
        number: match p.state.active_tool_index {
            Some(i) => Some(i as int),
            None => None,
        },
        ended: p.state.emitted_message_stop,
    }
}

proof fn lemma_emit(c: Seq<StreamedCall>, l: CallLog, p: Parsed, x: ProviderEventView)
    ensures
        ({
            let e = p.events;
            let f = p.emit(x).events;
            &&& texts_told(f) == texts_told(e) + match x {
                ProviderEventView::TextDelta(t) => t,
                _ => Seq::empty(),
            }
            &&& thoughts_told(f) == thoughts_told(e) + match x {
                ProviderEventView::ThinkingDelta(t) => t,
                _ => Seq::empty(),
            }
            &&& !(x is MessageStart) ==> models_told(f) == models_told(e)
            &&& x is MessageStop ==> ends_told(f) == ends_told(e).push(
                (x->stop_reason, x->usage),
            )
            &&& !(x is MessageStop) ==> ends_told(f) == ends_told(e)
            &&& calls_told(c, f) == match x {
                ProviderEventView::ToolUseStart { id, name, .. } => calls_told(c, e).push(
                    StreamedCall { id, name, input: Seq::empty() },
                ),
                ProviderEventView::ToolUseDelta { partial_json } => with_input(
                    calls_told(c, e),
                    partial_json,
                ),
                _ => calls_told(c, e),
            }
            &&& log_told(l, f) == match x {
                ProviderEventView::ToolUseStart { id, name, .. } => log_told(l, e).begin(id, name),
                ProviderEventView::ToolUseDelta { partial_json } => log_told(l, e).add(
                    partial_json,
                ),
                ProviderEventView::ContentBlockStop => log_told(l, e).close(),
                ProviderEventView::MessageStop { .. } => log_told(l, e).close(),
                _ => log_told(l, e),
            }
        }),
{
    let e = p.events;
    let f = p.emit(x).events;
    assert(f.drop_last() == e);
    assert(models_told(e) + Seq::<Seq<char>>::empty() =~= models_told(e));
    assert(ends_told(e) + Seq::<(Option<Seq<char>>, Option<Usage>)>::empty() =~= ends_told(e));
    if x is MessageStop {
        assert(ends_told(f) =~= ends_told(e).push((x->stop_reason, x->usage)));
    }
}

/// Two parse results that tell the same texts, models and ends.
spec fn same_words(p: Parsed, q: Parsed) -> bool {
    &&& texts_told(q.events) == texts_told(p.events)
    &&& thoughts_told(q.events) == thoughts_told(p.events)
    &&& models_told(q.events) == models_told(p.events)
    &&& ends_told(q.events) == ends_told(p.events)
    &&& q.state.emitted_message_stop == p.state.emitted_message_stop
    &&& q.state.seen_message_start == p.state.seen_message_start
}

proof fn lemma_piece(c: Seq<StreamedCall>, l: CallLog, p: Parsed, tc: JsonView)
    ensures
        ({
            let q = opencode_stream::tool_piece(p, tc);
            &&& same_words(p, q)
            &&& calls_told(c, q.events) == calls_of_pieces(calls_told(c, p.events), seq![tc])
            &&& incoming_of(l, q) == incoming_of(l, p).with_piece(tc)
        }),
{
    let q = opencode_stream::tool_piece(p, tc);
    let name = carried::text_under(tc.get("function"@), "name"@);
    let args = carried::text_under(tc.get("function"@), "arguments"@);
    let id = if name.len() > 0 {
        carried::text_under(Some(tc), "id"@)
    } else {
        Seq::empty()
    };
    let stop = ProviderEventView::ContentBlockStop;
    let start = ProviderEventView::ToolUseStart { id, name, thought_signature: None };
    let delta = ProviderEventView::ToolUseDelta { partial_json: args };
    let number = opencode_stream::i64_of(tc.get("index"@));
    let turned = number is Some && p.state.active_tool_index is Some
        && p.state.active_tool_index != number;
    let a = p.emit_if(turned, stop);
    let b = Parsed {
        state: OpenaiParseState {
            active_tool_index: if number is Some {
                number
            } else {
                p.state.active_tool_index
            },
            ..p.state
        },
        ..a
    };
    let d = b.emit_if(name.len() > 0, start);
    assert(q == d.emit_if(args.len() > 0, delta));
    lemma_emit(c, l, p, stop);
    lemma_emit(c, l, b, start);
    lemma_emit(c, l, d, delta);
    let t0 = texts_told(p.events);
    assert(t0 + Seq::<char>::empty() =~= t0);
    let h0 = thoughts_told(p.events);
    assert(h0 + Seq::<char>::empty() =~= h0);
    assert(seq![tc].drop_last() =~= Seq::empty());
    let before = calls_told(c, p.events);
    assert(calls_of_pieces(before, seq![tc].drop_last()) == before);
    if args.len() == 0 {
        assert(args =~= Seq::empty());
        lemma_no_input(calls_told(c, d.events));
        lemma_no_add(log_told(l, d.events));
    }
    assert(Seq::<char>::empty() + args =~= args);
    if name.len() > 0 {
        assert(calls_told(c, q.events) =~= before.push(StreamedCall { id, name, input: args }));
    }
    assert(incoming_of(l, q).log =~= incoming_of(l, p).with_piece(tc).log);
    assert(incoming_of(l, q).number == incoming_of(l, p).with_piece(tc).number);
}

proof fn lemma_no_input(calls: Seq<StreamedCall>)
    ensures
        with_input(calls, Seq::empty()) == calls,
{
    if calls.len() > 0 {
        assert(calls.last().input + Seq::<char>::empty() =~= calls.last().input);
        assert(with_input(calls, Seq::empty()) =~= calls);
    }
}

proof fn lemma_no_add(log: CallLog)
    ensures
        log.add(Seq::empty()) == log,
{
    if let Some(c) = log.open {
        assert(c.input + Seq::<char>::empty() =~= c.input);
    }
}

proof fn lemma_pieces_of_sum(before: Seq<StreamedCall>, a: Seq<JsonView>, b: Seq<JsonView>)
    ensures
        calls_of_pieces(before, a + b) == calls_of_pieces(calls_of_pieces(before, a), b),
    decreases b.len(),
{
    if b.len() == 0 {
        assert(a + b == a);
    } else {
        lemma_pieces_of_sum(before, a, b.drop_last());
        assert((a + b).drop_last() == a + b.drop_last());
    }
}

proof fn lemma_pieces(c: Seq<StreamedCall>, l: CallLog, p: Parsed, tcs: Seq<JsonView>)
    ensures
        ({
            let q = opencode_stream::tool_pieces(p, tcs);
            &&& same_words(p, q)
            &&& calls_told(c, q.events) == calls_of_pieces(calls_told(c, p.events), tcs)
            &&& incoming_of(l, q) == incoming_of(l, p).with_pieces(tcs)
        }),
    decreases tcs.len(),
{
    if tcs.len() > 0 {
        let t = tcs.drop_last();
        lemma_pieces(c, l, p, t);
        lemma_piece(c, l, opencode_stream::tool_pieces(p, t), tcs.last());
        lemma_pieces_of_sum(calls_told(c, p.events), t, seq![tcs.last()]);
        assert(t + seq![tcs.last()] =~= tcs);
    }
}

/// The ends that have been told after some are carried: only the first counts.
spec fn ends_after(told: bool, carried: Seq<(Option<Seq<char>>, Option<Usage>)>) -> Seq<
    (Option<Seq<char>>, Option<Usage>),
> {
    if told {
        Seq::empty()
    } else {
        first_of(carried)
    }
}

proof fn lemma_choice(
    c: Seq<StreamedCall>,
    l: CallLog,
    p: Parsed,
    choice: JsonView,
    doc: JsonView,
)
    ensures
        ({
            let q = opencode_stream::choice_step(p, choice, doc);
            let usage = opencode_stream::openai_usage_opt(doc);
            &&& texts_told(q.events) == texts_told(p.events) + carried::text_under(
                choice.get("delta"@),
                "content"@,
            )
            &&& thoughts_told(q.events) == thoughts_told(p.events) + carried::text_under(
                choice.get("delta"@),
                "reasoning_content"@,
            )
            &&& models_told(q.events) == models_told(p.events)
            &&& ends_told(q.events) == ends_told(p.events) + if reason_in(choice) is Some
                && !p.state.emitted_message_stop {
                seq![(reason_in(choice), usage)]
            } else {
                Seq::empty()
            }
            &&& q.state.emitted_message_stop == (p.state.emitted_message_stop || reason_in(choice)
                is Some)
            &&& q.state.seen_message_start == p.state.seen_message_start
            &&& calls_told(c, q.events) == calls_of_pieces(
                calls_told(c, p.events),
                pieces_in(choice),
            )
            &&& incoming_of(l, q) == incoming_of(l, p).with_choice(choice)
        }),
{
    let q = opencode_stream::choice_step(p, choice, doc);
    let usage = opencode_stream::openai_usage_opt(doc);
    let words = carried::text_under(choice.get("delta"@), "content"@);
    let thought = carried::text_under(choice.get("delta"@), "reasoning_content"@);
    let a = opencode_stream::tool_pieces(p, pieces_in(choice));
    lemma_pieces(c, l, p, pieces_in(choice));
    let b = a.emit_if(words.len() > 0, ProviderEventView::TextDelta(words));
    let d = b.emit_if(thought.len() > 0, ProviderEventView::ThinkingDelta(thought));
    lemma_emit(c, l, a, ProviderEventView::TextDelta(words));
    lemma_emit(c, l, b, ProviderEventView::ThinkingDelta(thought));
    let t0 = texts_told(p.events);
    let h0 = thoughts_told(p.events);
    let e0 = ends_told(p.events);
    assert(t0 + Seq::<char>::empty() =~= t0);
    assert(h0 + Seq::<char>::empty() =~= h0);
    assert(e0 + Seq::<(Option<Seq<char>>, Option<Usage>)>::empty() =~= e0);
    assert(t0 + words + Seq::<char>::empty() =~= t0 + words);
    assert(h0 + thought + Seq::<char>::empty() =~= h0 + thought);
    if words.len() == 0 {
        assert(words =~= Seq::empty());
    }
    if thought.len() == 0 {
        assert(thought =~= Seq::empty());
    }
    if let Some(reason) = reason_in(choice) {
        let closed = d.emit_if(
            d.state.active_tool_index is Some,
            ProviderEventView::ContentBlockStop,
        );
        lemma_emit(c, l, d, ProviderEventView::ContentBlockStop);
        let g = Parsed {
            state: OpenaiParseState { active_tool_index: None, ..closed.state },
            ..closed
        };
        let end = ProviderEventView::MessageStop { stop_reason: Some(reason), usage };
        lemma_emit(c, l, g, end);
        assert(q == opencode_stream::stop(g, reason, usage));
        assert(q.events == if g.state.emitted_message_stop {
            g.events
        } else {
            g.emit(end).events
        });
        assert(ends_told(q.events) =~= e0 + if !p.state.emitted_message_stop {
            seq![(reason_in(choice), usage)]
        } else {
            Seq::empty()
        });
        assert(log_told(l, closed.events).close() == log_told(l, d.events).close());
    } else {
        assert(q == d);
    }
}

/// The choices with their document.
spec fn with_doc(c: Seq<JsonView>, doc: JsonView) -> Seq<(JsonView, JsonView)> {
    Seq::new(c.len(), |i: int| (c[i], doc))
}

/// The tool calls that choices carry, after those before.
spec fn calls_of_choices(before: Seq<StreamedCall>, c: Seq<(JsonView, JsonView)>) -> Seq<
    StreamedCall,
>
    decreases c.len(),
{
    if c.len() == 0 {
        before
    } else {
        calls_of_pieces(calls_of_choices(before, c.drop_last()), pieces_in(c.last().0))
    }
}

proof fn lemma_choices_of_sum(
    before: Seq<StreamedCall>,
    a: Seq<(JsonView, JsonView)>,
    b: Seq<(JsonView, JsonView)>,
)
    ensures
        texts_carried(a + b) == texts_carried(a) + texts_carried(b),
        thoughts_carried(a + b) == thoughts_carried(a) + thoughts_carried(b),
        calls_of_choices(before, a + b) == calls_of_choices(calls_of_choices(before, a), b),
    decreases b.len(),
{
    if b.len() == 0 {
        assert(a + b == a);
        assert(texts_carried(a + b) =~= texts_carried(a) + texts_carried(b));
        assert(thoughts_carried(a + b) =~= thoughts_carried(a) + thoughts_carried(b));
    } else {
        lemma_choices_of_sum(before, a, b.drop_last());
        assert((a + b).drop_last() == a + b.drop_last());
        assert(texts_carried(a + b) =~= texts_carried(a) + texts_carried(b));
        assert(thoughts_carried(a + b) =~= thoughts_carried(a) + thoughts_carried(b));
    }
}

proof fn lemma_calls_from_none(c: Seq<(JsonView, JsonView)>)
    ensures
        calls_of_choices(Seq::empty(), c) == calls_carried(c),
    decreases c.len(),
{
    if c.len() > 0 {
        lemma_calls_from_none(c.drop_last());
    }
}

proof fn lemma_choices(
    c: Seq<StreamedCall>,
    l: CallLog,
    p: Parsed,
    choices: Seq<JsonView>,
    doc: JsonView,
)
    ensures
        ({
            let q = opencode_stream::choice_steps(p, choices, doc);
            let usage = opencode_stream::openai_usage_opt(doc);
            let w = with_doc(choices, doc);
            let ends = ends_of_choices(choices, usage);
            &&& texts_told(q.events) == texts_told(p.events) + texts_carried(w)
            &&& thoughts_told(q.events) == thoughts_told(p.events) + thoughts_carried(w)
            &&& models_told(q.events) == models_told(p.events)
            &&& ends_told(q.events) == ends_told(p.events) + ends_after(
                p.state.emitted_message_stop,
                ends,
            )
            &&& q.state.emitted_message_stop == (p.state.emitted_message_stop || ends.len() > 0)
            &&& q.state.seen_message_start == p.state.seen_message_start
            &&& calls_told(c, q.events) == calls_of_choices(calls_told(c, p.events), w)
            &&& incoming_of(l, q) == incoming_of(l, p).with_choices(choices)
        }),
    decreases choices.len(),
{
    let usage = opencode_stream::openai_usage_opt(doc);
    let w = with_doc(choices, doc);
    let ends = ends_of_choices(choices, usage);
    if choices.len() == 0 {
        assert(w =~= Seq::empty());
        assert(texts_told(p.events) + texts_carried(w) =~= texts_told(p.events));
        assert(thoughts_told(p.events) + thoughts_carried(w) =~= thoughts_told(p.events));
        assert(ends_told(p.events) + ends_after(p.state.emitted_message_stop, ends) =~= ends_told(
            p.events,
        ));
    } else {
        let t = choices.drop_last();
        let q = opencode_stream::choice_steps(p, t, doc);
        let r = opencode_stream::choice_steps(p, choices, doc);
        let before = ends_of_choices(t, usage);
        lemma_choices(c, l, p, t, doc);
        lemma_choice(c, l, q, choices.last(), doc);
        assert(w.drop_last() =~= with_doc(t, doc));
        assert(w.last() == (choices.last(), doc));
        assert(texts_told(r.events) =~= texts_told(p.events) + texts_carried(w));
        assert(thoughts_told(r.events) =~= thoughts_told(p.events) + thoughts_carried(w));
        if before.len() > 0 {
            assert(first_of(ends) =~= first_of(before));
        } else {
            assert(ends =~= first_of(ends));
        }
        assert(ends_told(r.events) =~= ends_told(p.events) + ends_after(
            p.state.emitted_message_stop,
            ends,
        ));
    }
}

/// The ends that one document carries.
pub open spec fn ends_in(doc: JsonView) -> Seq<(Option<Seq<char>>, Option<Usage>)> {
    let usage = opencode_stream::openai_usage_opt(doc);
    if choices_in(doc).len() > 0 {
        ends_of_choices(choices_in(doc), usage)
    } else if usage is Some {
        seq![(Some("stop"@), usage)]
    } else {
        Seq::empty()
    }
}

proof fn lemma_document(
    c: Seq<StreamedCall>,
    l: CallLog,
    s: OpenaiParseState,
    doc: JsonView,
)
    ensures
        opencode_stream::openai_document(s, doc) is Err <==> doc.get("error"@) is Some,
        opencode_stream::openai_document(s, doc) matches Ok(q) ==> {
            let w = with_doc(choices_in(doc), doc);
            let p = Parsed { state: s, events: Seq::empty() };
            &&& texts_told(q.events) == texts_carried(w)
            &&& thoughts_told(q.events) == thoughts_carried(w)
            &&& models_told(q.events) == if s.seen_message_start {
                Seq::empty()
            } else {
                seq![carried::text_under(Some(doc), "model"@)]
            }
            &&& ends_told(q.events) == ends_after(s.emitted_message_stop, ends_in(doc))
            &&& q.state.emitted_message_stop == (s.emitted_message_stop || ends_in(doc).len() > 0)
            &&& q.state.seen_message_start
            &&& calls_told(c, q.events) == calls_of_choices(c, w)
            &&& incoming_of(l, q) == incoming_of(l, p).with_document(doc)
        },
{
    if let Ok(q) = opencode_stream::openai_document(s, doc) {
        let p = Parsed { state: s, events: Seq::empty() };
        let model = carried::text_under(Some(doc), "model"@);
        let m = ProviderEventView::MessageStart { model };
        let a = if s.seen_message_start {
            p
        } else {
            Parsed {
                state: OpenaiParseState { seen_message_start: true, ..s },
                events: seq![m],
            }
        };
        lemma_emit(c, l, p, m);
        assert(p.emit(m).events =~= seq![m]);
        assert(texts_told(p.events) =~= Seq::empty());
        assert(Seq::<char>::empty() + Seq::<char>::empty() =~= Seq::<char>::empty());
        assert(thoughts_told(p.events) =~= Seq::empty());
        assert(ends_told(p.events) =~= Seq::empty());
        assert(seq![m].drop_last() =~= Seq::empty());
        assert(models_told(seq![m].drop_last()) =~= Seq::empty());
        assert(models_told(seq![m]) =~= seq![model]);
        assert(models_told(p.events) =~= Seq::empty());
        let usage = opencode_stream::openai_usage_opt(doc);
        let w = with_doc(choices_in(doc), doc);
        let b = opencode_stream::choice_steps(a, choices_in(doc), doc);
        lemma_choices(c, l, a, choices_in(doc), doc);
        assert(texts_told(b.events) =~= texts_carried(w));
        assert(thoughts_told(b.events) =~= thoughts_carried(w));
        assert(incoming_of(l, a) == incoming_of(l, p));
        let end = ProviderEventView::MessageStop { stop_reason: Some("stop"@), usage };
        lemma_emit(c, l, b, end);
        assert(texts_told(b.events) + Seq::<char>::empty() =~= texts_told(b.events));
        assert(thoughts_told(b.events) + Seq::<char>::empty() =~= thoughts_told(b.events));
        if choices_in(doc).len() == 0 {
            assert(ends_of_choices(choices_in(doc), usage) =~= Seq::empty());
            assert(ends_told(b.events) =~= Seq::empty());
            assert(seq![(Some("stop"@), usage)].take(1) =~= seq![(Some("stop"@), usage)]);
            if usage is Some && !s.emitted_message_stop {
                assert(q.events == b.emit(end).events);
                assert(ends_told(q.events) =~= seq![(Some("stop"@), usage)]);
            } else {
                assert(q.events == b.events);
            }
        } else {
            assert(q == b);
            assert(ends_told(b.events) =~= ends_after(s.emitted_message_stop, ends_in(doc)));
        }
    }
}

/// A stream of documents in the OpenAI format loses nothing. Over any run of
/// documents without an error, the texts that are told join to the texts that
/// the documents carry, and so does the reasoning. Every tool call is told with
/// its id and its name, and with all the text of its input, in order, whether
/// or not the piece that carries it names the tool. A call is closed where the
/// pieces turn to another call or the answer ends, and not before. The answer
/// begins once, under the model that the first document names, and ends at most
/// once, for the first reason that is given.
pub proof fn documents_are_told_whole(s: OpenaiParseState, docs: Seq<JsonView>)
    requires
        documents_read(s, docs) is Some,
    ensures
        ({
            let p = documents_read(s, docs)->0;
            let nothing = Incoming {
                log: CallLog { done: Seq::empty(), open: None },
                number: match s.active_tool_index {
                    Some(i) => Some(i as int),
                    None => None,
                },
                ended: s.emitted_message_stop,
            };
            &&& texts_told(p.events) == texts_carried(choices_among(docs))
            &&& thoughts_told(p.events) == thoughts_carried(choices_among(docs))
            &&& calls_told(Seq::empty(), p.events) == calls_carried(choices_among(docs))
            &&& log_told(nothing.log, p.events) == nothing.with_documents(docs).log
            &&& models_told(p.events) == if s.seen_message_start || docs.len() == 0 {
                Seq::empty()
            } else {
                seq![carried::text_under(Some(docs[0]), "model"@)]
            }
            &&& ends_told(p.events) == if s.emitted_message_stop {
                Seq::empty()
            } else {
                first_of(ends_carried(docs))
            }
        }),
{
    lemma_documents(s, docs);
    lemma_calls_from_none(choices_among(docs));
}

proof fn lemma_documents(s: OpenaiParseState, docs: Seq<JsonView>)
    requires
        documents_read(s, docs) is Some,
    ensures
        ({
            let p = documents_read(s, docs)->0;
            let l = CallLog { done: Seq::empty(), open: None };
            let w = choices_among(docs);
            &&& texts_told(p.events) == texts_carried(w)
            &&& thoughts_told(p.events) == thoughts_carried(w)
            &&& calls_told(Seq::empty(), p.events) == calls_of_choices(Seq::empty(), w)
            &&& incoming_of(l, p) == incoming_of(
                l,
                Parsed { state: s, events: Seq::empty() },
            ).with_documents(docs)
            &&& models_told(p.events) == if s.seen_message_start || docs.len() == 0 {
                Seq::empty()
            } else {
                seq![carried::text_under(Some(docs[0]), "model"@)]
            }
            &&& p.state.seen_message_start == (s.seen_message_start || docs.len() > 0)
            &&& p.state.emitted_message_stop == (s.emitted_message_stop || ends_carried(docs).len()
                > 0)
            &&& ends_told(p.events) == ends_after(s.emitted_message_stop, ends_carried(docs))
        }),
    decreases docs.len(),
{
    let l = CallLog { done: Seq::empty(), open: None };
    let c = Seq::<StreamedCall>::empty();
    if docs.len() > 0 {
        let d = docs.drop_last();
        let p = documents_read(s, d)->0;
        let q = opencode_stream::openai_document(p.state, docs.last())->Ok_0;
        let r = documents_read(s, docs)->0;
        let w = with_doc(choices_in(docs.last()), docs.last());
        lemma_documents(s, d);
        lemma_told_sum(c, l, p.events, q.events);
        lemma_document(calls_told(c, p.events), log_told(l, p.events), p.state, docs.last());
        lemma_choices_of_sum(c, choices_among(d), w);
        assert(choices_among(docs) =~= choices_among(d) + w);
        assert(incoming_of(l, r) == incoming_of(log_told(l, p.events), q));
        assert(incoming_of(log_told(l, p.events), Parsed { state: p.state, events: Seq::empty() })
            == incoming_of(l, p));
        assert(ends_carried(docs) == ends_carried(d) + ends_in(docs.last()));
        if ends_carried(d).len() > 0 {
            assert(first_of(ends_carried(docs)) =~= first_of(ends_carried(d)));
            assert(ends_told(q.events) =~= Seq::empty());
        } else {
            assert(ends_carried(docs) =~= ends_in(docs.last()));
        }
        assert(ends_told(r.events) =~= ends_after(s.emitted_message_stop, ends_carried(docs)));
        assert(models_told(r.events) =~= if s.seen_message_start || docs.len() == 0 {
            Seq::empty()
        } else {
            seq![carried::text_under(Some(docs[0]), "model"@)]
        });
    } else {
        assert(choices_among(docs) =~= Seq::empty());
    }
}

// ---------------------------------------------------------------------------
// What was used, and what went wrong
// ---------------------------------------------------------------------------

/// The count under a name.
pub open spec fn count_under(j: Option<JsonView>, key: Seq<char>) -> Option<u64> {
    match j {
        Some(v) => match v.get(key) {
            Some(JsonView::Num(JsonNumber::Pos(n))) => Some(n),
            _ => None,
        },
        None => None,
    }
}

/// A count that may be absent.
pub open spec fn count_or_zero(n: Option<u64>) -> nat {
    match n {
        Some(x) => x as nat,
        None => 0,
    }
}

/// The tokens of a prompt that were read from the cache, under either name.
pub open spec fn cached_tokens(u: JsonView) -> Option<u64> {
    let a = count_under(u.get("prompt_tokens_details"@), "cached_tokens"@);
    if a is Some {
        a
    } else {
        count_under(Some(u), "prompt_cache_hit_tokens"@)
    }
}

/// What was used, as a document in the OpenAI format tells it: the tokens of
/// the prompt are those read from the cache and those counted as input, which
/// add up; all other counts are taken over, and a count that is absent stays
/// so. Counts of more than 32 bits are left out here.
pub proof fn openai_usage_adds_up(u: JsonView)
    requires
        count_or_zero(count_under(Some(u), "prompt_tokens"@)) <= u32::MAX,
        count_or_zero(count_under(Some(u), "completion_tokens"@)) <= u32::MAX,
        count_or_zero(cached_tokens(u)) <= u32::MAX,
        count_or_zero(
            count_under(u.get("prompt_tokens_details"@), "cache_creation_tokens"@),
        ) <= u32::MAX,
    ensures
        ({
            let r = opencode_stream::openai_usage(u);
            let prompt = count_or_zero(count_under(Some(u), "prompt_tokens"@));
            let cached = count_or_zero(cached_tokens(u));
            &&& cached <= prompt ==> r.input_tokens + cached == prompt
            &&& cached > prompt ==> r.input_tokens == 0
            &&& r.output_tokens == count_or_zero(count_under(Some(u), "completion_tokens"@))
            &&& (match (r.cache_read_input_tokens, cached_tokens(u)) {
                (Some(a), Some(b)) => a == b,
                (None, None) => true,
                _ => false,
            })
            &&& (match (
                r.cache_creation_input_tokens,
                count_under(u.get("prompt_tokens_details"@), "cache_creation_tokens"@),
            ) {
                (Some(a), Some(b)) => a == b,
                (None, None) => true,
                _ => false,
            })
        }),
{
}

/// What was used, as a document in the Anthropic format tells it: every count
/// is taken over, and a count that is absent stays so.
pub proof fn anthropic_usage_is_taken_over(u: JsonView)
    requires
        count_or_zero(count_under(Some(u), "input_tokens"@)) <= u32::MAX,
        count_or_zero(count_under(Some(u), "output_tokens"@)) <= u32::MAX,
        count_or_zero(count_under(Some(u), "cache_creation_input_tokens"@)) <= u32::MAX,
        count_or_zero(count_under(Some(u), "cache_read_input_tokens"@)) <= u32::MAX,
    ensures
        ({
            let r = opencode_stream::anthropic_usage(u);
            &&& r.input_tokens == count_or_zero(count_under(Some(u), "input_tokens"@))
            &&& r.output_tokens == count_or_zero(count_under(Some(u), "output_tokens"@))
            &&& (match (
                r.cache_read_input_tokens,
                count_under(Some(u), "cache_read_input_tokens"@),
            ) {
                (Some(a), Some(b)) => a == b,
                (None, None) => true,
                _ => false,
            })
            &&& (match (
                r.cache_creation_input_tokens,
                count_under(Some(u), "cache_creation_input_tokens"@),
            ) {
                (Some(a), Some(b)) => a == b,
                (None, None) => true,
                _ => false,
            })
        }),
{
}

/// A document that says what went wrong ends the stream, in either format,
/// with an error that says the same; no other document does.
pub proof fn upstream_errors_are_told(s: OpenaiParseState, doc: JsonView)
    ensures
        opencode_stream::openai_document(s, doc) is Err <==> doc.get("error"@) is Some,
        opencode_stream::anthropic_document(doc) is Err <==> doc.get("error"@) is Some,
        doc.get("error"@) matches Some(e) ==> (e.get("message"@) matches Some(JsonView::Str(m))
            ==> {
            let told = ErrorView::Provider("upstream error: "@ + m);
            &&& opencode_stream::openai_document(s, doc) == Err::<Parsed, ErrorView>(told)
            &&& opencode_stream::anthropic_document(doc) == Err::<
                Option<ProviderEventView>,
                ErrorView,
            >(told)
        }),
{
}

// ---------------------------------------------------------------------------
// Documents in the Anthropic format
// ---------------------------------------------------------------------------

/// What documents in the Anthropic format say, one after the other; none where
/// one of them is an error.
pub open spec fn anthropic_read(docs: Seq<JsonView>) -> Option<Seq<ProviderEventView>>
    decreases docs.len(),
{
    if docs.len() == 0 {
        Some(Seq::empty())
    } else {
        match anthropic_read(docs.drop_last()) {
            Some(e) => match opencode_stream::anthropic_document(docs.last()) {
                Ok(Some(x)) => Some(e.push(x)),
                Ok(None) => Some(e),
                Err(_) => None,
            },
            None => None,
        }
    }
}

/// A document of a kind.
pub open spec fn is_kind(doc: JsonView, kind: Seq<char>) -> bool {
    doc.get("type"@) == Some(JsonView::Str(kind))
}

/// A document that carries a piece of a block, of this kind of piece.
pub open spec fn is_delta(doc: JsonView, kind: Seq<char>) -> bool {
    &&& is_kind(doc, "content_block_delta"@)
    &&& doc.get("delta"@) matches Some(d) && d.get("type"@) == Some(JsonView::Str(kind))
}

/// A document that begins a tool call.
pub open spec fn begins_call(doc: JsonView) -> bool {
    &&& is_kind(doc, "content_block_start"@)
    &&& doc.get("content_block"@) matches Some(b) && b.get("type"@) == Some(
        JsonView::Str("tool_use"@),
    )
}

/// The texts that documents carry, one after the other.
pub open spec fn anthropic_texts(docs: Seq<JsonView>) -> Seq<char>
    decreases docs.len(),
{
    if docs.len() == 0 {
        Seq::empty()
    } else {
        anthropic_texts(docs.drop_last()) + if is_delta(docs.last(), "text_delta"@) {
            carried::text_under(docs.last().get("delta"@), "text"@)
        } else {
            Seq::empty()
        }
    }
}

/// The tool calls that documents begin and close, each with all the text of
/// its input.
pub open spec fn anthropic_log(docs: Seq<JsonView>) -> CallLog
    decreases docs.len(),
{
    if docs.len() == 0 {
        CallLog { done: Seq::empty(), open: None }
    } else {
        let log = anthropic_log(docs.drop_last());
        let doc = docs.last();
        if begins_call(doc) {
            log.begin(
                carried::text_under(doc.get("content_block"@), "id"@),
                carried::text_under(doc.get("content_block"@), "name"@),
            )
        } else if is_delta(doc, "input_json_delta"@) {
            log.add(carried::text_under(doc.get("delta"@), "partial_json"@))
        } else if is_kind(doc, "content_block_stop"@) || is_kind(doc, "message_delta"@) {
            log.close()
        } else {
            log
        }
    }
}

/// The ends that documents carry.
pub open spec fn anthropic_ends(docs: Seq<JsonView>) -> Seq<(Option<Seq<char>>, Option<Usage>)>
    decreases docs.len(),
{
    if docs.len() == 0 {
        Seq::empty()
    } else {
        let doc = docs.last();
        anthropic_ends(docs.drop_last()) + if is_kind(doc, "message_delta"@) {
            seq![
                (
                    match doc.get("delta"@) {
                        Some(d) => match d.get("stop_reason"@) {
                            Some(JsonView::Str(r)) => Some(r),
                            _ => None,
                        },
                        None => None,
                    },
                    match doc.get("usage"@) {
                        Some(u) => Some(opencode_stream::anthropic_usage(u)),
                        None => None,
                    },
                ),
            ]
        } else {
            Seq::empty()
        }
    }
}

/// The models that documents name.
pub open spec fn anthropic_models(docs: Seq<JsonView>) -> Seq<Seq<char>>
    decreases docs.len(),
{
    if docs.len() == 0 {
        Seq::empty()
    } else {
        anthropic_models(docs.drop_last()) + if is_kind(docs.last(), "message_start"@) {
            seq![carried::text_under(docs.last().get("message"@), "model"@)]
        } else {
            Seq::empty()
        }
    }
}

proof fn lemma_anthropic_names()
    ensures
        "message_start"@.len() == 13,
        "content_block_start"@.len() == 19,
        "content_block_start"@[15] == 't',
        "content_block_delta"@.len() == 19,
        "content_block_delta"@[14] == 'd',
        "content_block_start"@[14] == 's',
        "content_block_stop"@.len() == 18,
        "message_delta"@.len() == 13,
        "message_delta"@[8] == 'd',
        "message_start"@[8] == 's',
        "text_delta"@.len() == 10,
        "input_json_delta"@.len() == 16,
        "tool_use"@.len() == 8,
{
    reveal_strlit("message_start");
    reveal_strlit("content_block_start");
    reveal_strlit("content_block_delta");
    reveal_strlit("content_block_stop");
    reveal_strlit("message_delta");
    reveal_strlit("text_delta");
    reveal_strlit("input_json_delta");
    reveal_strlit("tool_use");
}

/// A stream of documents in the Anthropic format loses nothing: over any run
/// of documents without an error, the texts that are told join to those that
/// the documents carry, every tool call is told with its id, its name and all
/// the text of its input, and is closed where its block or the answer ends, and
/// every beginning and every end is told as the documents have it.
pub proof fn anthropic_documents_are_told_whole(docs: Seq<JsonView>)
    requires
        anthropic_read(docs) is Some,
    ensures
        ({
            let e = anthropic_read(docs)->0;
            &&& texts_told(e) == anthropic_texts(docs)
            &&& thoughts_told(e) == Seq::<char>::empty()
            &&& log_told(CallLog { done: Seq::empty(), open: None }, e) == anthropic_log(docs)
            &&& ends_told(e) == anthropic_ends(docs)
            &&& models_told(e) == anthropic_models(docs)
        }),
    decreases docs.len(),
{
    lemma_anthropic_names();
    if docs.len() > 0 {
        let l = CallLog { done: Seq::empty(), open: None };
        let d = docs.drop_last();
        let e = anthropic_read(d)->0;
        let f = anthropic_read(docs)->0;
        let doc = docs.last();
        anthropic_documents_are_told_whole(d);
        let kind = opencode_stream::text_or_empty(doc.get("type"@));
        assert(kind.len() > 0 ==> doc.get("type"@) == Some(JsonView::Str(kind)));
        if let Ok(Some(x)) = opencode_stream::anthropic_document(doc) {
            assert(f.drop_last() == e);
            assert(f.last() == x);
        }
        assert(texts_told(f) =~= anthropic_texts(docs));
        assert(thoughts_told(f) =~= Seq::empty());
        assert(ends_told(f) =~= anthropic_ends(docs));
        assert(models_told(f) =~= anthropic_models(docs));
        assert(log_told(l, f) =~= anthropic_log(docs));
    }
}

// ---------------------------------------------------------------------------
// Frames
// ---------------------------------------------------------------------------

/// What an event text carries: what stands behind `data:` and at most one
/// space, but for the word that ends the stream.
pub proof fn data_is_what_stands_behind_the_name(raw: Seq<char>, x: Seq<char>)
    ensures
        text::trim_of(raw) == "data: "@ + x && x != "[DONE]"@ ==> opencode_stream::event_data(raw)
            == Some(x),
        text::trim_of(raw) == "data: "@ + "[DONE]"@ ==> opencode_stream::event_data(raw) is None,
        text::trim_of(raw) == "data:"@ + x && (x.len() == 0 || x[0] != ' ')
            ==> opencode_stream::event_data(raw) == Some(x),
        opencode_stream::event_data(raw) is Some ==> text::has_prefix(
            text::trim_of(raw),
            "data:"@,
        ),
{
    let t = text::trim_of(raw);
    reveal_strlit("data: ");
    reveal_strlit("data:");
    reveal_strlit("[DONE]");
    reveal_strlit("data: [DONE]");
    assert("data: "@ + "[DONE]"@ =~= "data: [DONE]"@);
    assert("data: "@.take(5) =~= "data:"@);
    if t == "data: "@ + x {
        assert(t.take(6) =~= "data: "@);
        assert(t.skip(6) =~= x);
        if x != "[DONE]"@ {
            assert(t != "data: [DONE]"@) by {
                if t == "data: [DONE]"@ {
                    assert(x =~= "data: [DONE]"@.skip(6));
                    assert("[DONE]"@ =~= "data: [DONE]"@.skip(6));
                }
            }
        }
    }
    if t == "data:"@ + x && (x.len() == 0 || x[0] != ' ') {
        assert(t.take(5) =~= "data:"@);
        assert(t.skip(5) =~= x);
        assert(!text::has_prefix(t, "data: "@)) by {
            if text::has_prefix(t, "data: "@) {
                assert(t.take(6)[5] == "data: "@[5]);
                assert(t[5] == x[0]);
            }
        }
        assert(t != "data: [DONE]"@) by {
            if t == "data: [DONE]"@ {
                assert(t[5] == x[0]);
            }
        }
    }
    if text::has_prefix(t, "data: "@) {
        assert(t.take(5) =~= t.take(6).take(5));
    }
}

/// The documents that frames carry.
pub open spec fn documents_of(f: Seq<Seq<u8>>) -> Seq<JsonView>
    decreases f.len(),
{
    if f.len() == 0 {
        Seq::empty()
    } else {
        documents_of(f.drop_last()) + match opencode_stream::event_data(
            opencode_stream::frame_text(f.last()),
        ) {
            Some(d) => match json::json_parse(d) {
                Ok(doc) => seq![doc],
                Err(_) => Seq::empty(),
            },
            None => Seq::empty(),
        }
    }
}

/// Frames without an error say what their documents say.
pub proof fn frames_say_what_their_documents_say(s: OpenaiParseState, f: Seq<Seq<u8>>)
    requires
        opencode_stream::openai_fed(s, f).error is None,
    ensures
        documents_read(s, documents_of(f)) == Some(
            Parsed {
                state: opencode_stream::openai_fed(s, f).state,
                events: opencode_stream::openai_fed(s, f).events,
            },
        ),
    decreases f.len(),
{
    if f.len() > 0 {
        let g = f.drop_last();
        frames_say_what_their_documents_say(s, g);
        let p = opencode_stream::openai_fed(s, g);
        let raw = opencode_stream::frame_text(f.last());
        if let Some(d) = opencode_stream::event_data(raw) {
            if let Ok(doc) = json::json_parse(d) {
                assert(documents_of(f).drop_last() =~= documents_of(g));
                assert(documents_of(f).last() == doc);
            }
        } else {
            assert(documents_of(f) =~= documents_of(g));
            assert(p.events + Seq::<ProviderEventView>::empty() =~= p.events);
        }
    }
}

/// What an event text in the Anthropic format carries: what its data line says,
/// unless the event only keeps the line open or only says that the answer is
/// over.
pub proof fn named_data_is_read(raw: Seq<char>, name: Seq<char>, data: Seq<char>)
    requires
        text::lines_of(text::trim_of(raw)) == seq!["event: "@ + name, "data: "@ + data],
    ensures
        name != "ping"@ && name != "message_stop"@ ==> opencode_stream::anthropic_data(raw) == Some(
            data,
        ),
        name == "ping"@ || name == "message_stop"@ ==> opencode_stream::anthropic_data(raw) is None,
{
    reveal_strlit("event: ");
    reveal_strlit("data: ");
    reveal_with_fuel(opencode_stream::event_lines, 3);
    let a = "event: "@ + name;
    let b = "data: "@ + data;
    let lines = text::lines_of(text::trim_of(raw));
    assert(a.take(7) =~= "event: "@);
    assert(a.skip(7) =~= name);
    assert(b.take(6) =~= "data: "@);
    assert(b.skip(6) =~= data);
    assert(!text::has_prefix(b, "event: "@)) by {
        if text::has_prefix(b, "event: "@) {
            assert(b.take(7)[0] == "event: "@[0]);
            assert(b[0] == "data: "@[0]);
        }
    }
    assert(lines.drop_last() =~= seq![a]);
    assert(seq![a].drop_last() =~= Seq::empty());
    let e = opencode_stream::EventLines { name: None, data: None };
    assert(opencode_stream::event_lines(seq![a]) == opencode_stream::line_step(e, a));
    assert(opencode_stream::event_lines(lines) == opencode_stream::EventLines {
        name: Some(name),
        data: Some(data),
    });
}

/// The documents that frames in the Anthropic format carry.
pub open spec fn anthropic_documents_of(f: Seq<Seq<u8>>) -> Seq<JsonView>
    decreases f.len(),
{
    if f.len() == 0 {
        Seq::empty()
    } else {
        anthropic_documents_of(f.drop_last()) + match opencode_stream::anthropic_data(
            opencode_stream::frame_text(f.last()),
        ) {
            Some(d) => match json::json_parse(d) {
                Ok(doc) => seq![doc],
                Err(_) => Seq::empty(),
            },
            None => Seq::empty(),
        }
    }
}

/// Frames in the Anthropic format without an error say what their documents
/// say.
pub proof fn anthropic_frames_say_what_their_documents_say(f: Seq<Seq<u8>>)
    requires
        opencode_stream::anthropic_fed(f).1 is None,
    ensures
        anthropic_read(anthropic_documents_of(f)) == Some(opencode_stream::anthropic_fed(f).0),
    decreases f.len(),
{
    if f.len() > 0 {
        let g = f.drop_last();
        anthropic_frames_say_what_their_documents_say(g);
        let raw = opencode_stream::frame_text(f.last());
        if let Some(d) = opencode_stream::anthropic_data(raw) {
            if let Ok(doc) = json::json_parse(d) {
                assert(anthropic_documents_of(f).drop_last() =~= anthropic_documents_of(g));
                assert(anthropic_documents_of(f).last() == doc);
            }
        } else {
            assert(anthropic_documents_of(f) =~= anthropic_documents_of(g));
        }
    }
}

/// A frame that cannot be read, or whose document is an error, ends the stream
/// with that error, and what was said before it stays said.
pub proof fn unreadable_frames_end_the_stream(f: Seq<Seq<u8>>, frame: Seq<u8>, d: Seq<char>)
    requires
        opencode_stream::anthropic_fed(f).1 is None,
        opencode_stream::anthropic_data(opencode_stream::frame_text(frame)) == Some(d),
        json::json_parse(d) matches Ok(doc) ==> doc.get("error"@) is Some,
    ensures
        opencode_stream::anthropic_fed(f.push(frame)).1 is Some,
        opencode_stream::anthropic_fed(f.push(frame)).0 == opencode_stream::anthropic_fed(f).0,
{
    assert(f.push(frame).drop_last() =~= f);
    if let Ok(doc) = json::json_parse(d) {
        upstream_errors_are_told(
            OpenaiParseState {
                seen_message_start: true,
                emitted_message_stop: false,
                active_tool_index: None,
            },
            doc,
        );
    }
}

// ---------------------------------------------------------------------------
// Pieces
// ---------------------------------------------------------------------------

/// The call that is open, and the pieces that are complete, after events.
pub open spec fn put_together(open: Option<CallView>, e: Seq<ProviderEventView>) -> (
    Option<CallView>,
    Seq<AssembledView>,
)
    decreases e.len(),
{
    if e.len() == 0 {
        (open, Seq::empty())
    } else {
        let before = put_together(open, e.drop_last());
        let now = assemble::assembled(before.0, e.last());
        (now.0, before.1 + now.1)
    }
}

/// The texts among pieces, one after the other.
pub open spec fn texts_of(p: Seq<AssembledView>) -> Seq<char>
    decreases p.len(),
{
    if p.len() == 0 {
        Seq::empty()
    } else {
        texts_of(p.drop_last()) + match p.last() {
            AssembledView::Text(x) => x,
            _ => Seq::empty(),
        }
    }
}

/// The reasoning among pieces, one after the other.
pub open spec fn thoughts_of(p: Seq<AssembledView>) -> Seq<char>
    decreases p.len(),
{
    if p.len() == 0 {
        Seq::empty()
    } else {
        thoughts_of(p.drop_last()) + match p.last() {
            AssembledView::Thinking(x) => x,
            _ => Seq::empty(),
        }
    }
}

/// The ends among pieces.
pub open spec fn ends_of(p: Seq<AssembledView>) -> Seq<(Option<Seq<char>>, Option<Usage>)>
    decreases p.len(),
{
    if p.len() == 0 {
        Seq::empty()
    } else {
        ends_of(p.drop_last()) + match p.last() {
            AssembledView::Done { stop_reason, usage } => seq![(stop_reason, usage)],
            _ => Seq::empty(),
        }
    }
}

/// The pieces that are tool calls, readable or not.
pub open spec fn calls_of(p: Seq<AssembledView>) -> Seq<AssembledView>
    decreases p.len(),
{
    if p.len() == 0 {
        Seq::empty()
    } else {
        calls_of(p.drop_last()) + if p.last() is ToolUse || p.last() is ToolParseFailed {
            seq![p.last()]
        } else {
            Seq::empty()
        }
    }
}

/// A piece that is a tool call as it came in: the same id, the same name, and
/// the document that the text of its input is; no input stands for an empty
/// object, and input that is no document is said to be none.
pub open spec fn is_call(p: AssembledView, c: StreamedCall) -> bool {
    let blank = text::trim_of(c.input).len() == 0;
    match p {
        AssembledView::ToolUse(BlockView::ToolUse { id, name, input, .. }) => id == c.id && name
            == c.name && (if blank {
            input == JsonView::Obj(Seq::empty())
        } else {
            json::json_parse(c.input) == Ok::<JsonView, Seq<char>>(input)
        }),
        AssembledView::ToolParseFailed { id, name, error } => id == c.id && name == c.name && !blank
            && (json::json_parse(c.input) matches Err(e) && error
            == "tool input is not valid JSON: "@ + e),
        _ => false,
    }
}

proof fn lemma_pieces_sum(a: Seq<AssembledView>, b: Seq<AssembledView>)
    ensures
        texts_of(a + b) == texts_of(a) + texts_of(b),
        thoughts_of(a + b) == thoughts_of(a) + thoughts_of(b),
        ends_of(a + b) == ends_of(a) + ends_of(b),
        calls_of(a + b) == calls_of(a) + calls_of(b),
    decreases b.len(),
{
    if b.len() == 0 {
        assert(a + b == a);
        assert(texts_of(a + b) =~= texts_of(a) + texts_of(b));
        assert(thoughts_of(a + b) =~= thoughts_of(a) + thoughts_of(b));
        assert(ends_of(a + b) =~= ends_of(a) + ends_of(b));
        assert(calls_of(a + b) =~= calls_of(a) + calls_of(b));
    } else {
        lemma_pieces_sum(a, b.drop_last());
        assert((a + b).drop_last() == a + b.drop_last());
        assert(texts_of(a + b) =~= texts_of(a) + texts_of(b));
        assert(thoughts_of(a + b) =~= thoughts_of(a) + thoughts_of(b));
        assert(ends_of(a + b) =~= ends_of(a) + ends_of(b));
        assert(calls_of(a + b) =~= calls_of(a) + calls_of(b));
    }
}

proof fn lemma_one_piece(x: AssembledView)
    ensures
        texts_of(seq![x]) == match x {
            AssembledView::Text(t) => t,
            _ => Seq::empty(),
        },
        thoughts_of(seq![x]) == match x {
            AssembledView::Thinking(t) => t,
            _ => Seq::empty(),
        },
        ends_of(seq![x]) == match x {
            AssembledView::Done { stop_reason, usage } => seq![(stop_reason, usage)],
            _ => Seq::empty(),
        },
        calls_of(seq![x]) == if x is ToolUse || x is ToolParseFailed {
            seq![x]
        } else {
            Seq::empty()
        },
{
    assert(seq![x].drop_last() =~= Seq::empty());
    assert(texts_of(seq![x].drop_last()) =~= Seq::empty());
    assert(thoughts_of(seq![x].drop_last()) =~= Seq::empty());
    assert(ends_of(seq![x].drop_last()) =~= Seq::empty());
    assert(calls_of(seq![x].drop_last()) =~= Seq::empty());
    assert(texts_of(seq![x]) =~= match x {
        AssembledView::Text(t) => t,
        _ => Seq::empty(),
    });
    assert(thoughts_of(seq![x]) =~= match x {
        AssembledView::Thinking(t) => t,
        _ => Seq::empty(),
    });
}

proof fn lemma_pending(open: Option<CallView>)
    ensures
        ({
            let p = assemble::pending(open);
            &&& texts_of(p) == Seq::<char>::empty()
            &&& thoughts_of(p) == Seq::<char>::empty()
            &&& ends_of(p) == Seq::<(Option<Seq<char>>, Option<Usage>)>::empty()
            &&& calls_of(p) == p
            &&& open matches Some(c) ==> p.len() == 1 && is_call(
                p[0],
                StreamedCall { id: c.id, name: c.name, input: c.input },
            )
            &&& open is None ==> p.len() == 0
        }),
{
    if let Some(c) = open {
        lemma_one_piece(assemble::closed_call(c));
    } else {
        assert(calls_of(assemble::pending(open)) =~= Seq::empty());
    }
}

/// The pieces that a turn takes are what the stream tells: the texts and the
/// reasoning join to those told, every tool call that is closed is one piece,
/// in order, with the id, the name and the whole input that were told, the call
/// that is open is the one that is still coming in, and every end is told on.
pub proof fn pieces_are_what_is_told(e: Seq<ProviderEventView>)
    ensures
        ({
            let (open, p) = put_together(None, e);
            let log = log_told(CallLog { done: Seq::empty(), open: None }, e);
            &&& texts_of(p) == texts_told(e)
            &&& thoughts_of(p) == thoughts_told(e)
            &&& ends_of(p) == ends_told(e)
            &&& calls_of(p).len() == log.done.len()
            &&& forall|k: int|
                0 <= k < log.done.len() ==> is_call(#[trigger] calls_of(p)[k], log.done[k])
            &&& log.open == match open {
                Some(c) => Some(StreamedCall { id: c.id, name: c.name, input: c.input }),
                None => None,
            }
        }),
    decreases e.len(),
{
    let l = CallLog { done: Seq::empty(), open: None };
    if e.len() > 0 {
        let d = e.drop_last();
        let x = e.last();
        let before = put_together(None, d);
        let now = assemble::assembled(before.0, x);
        let was = log_told(l, d);
        pieces_are_what_is_told(d);
        lemma_pieces_sum(before.1, now.1);
        lemma_pending(before.0);
        match x {
            ProviderEventView::TextDelta(t) => {
                lemma_one_piece(AssembledView::Text(t));
            },
            ProviderEventView::ThinkingDelta(t) => {
                lemma_one_piece(AssembledView::Thinking(t));
            },
            ProviderEventView::MessageStop { stop_reason, usage } => {
                let done = AssembledView::Done { stop_reason, usage };
                let pending = assemble::pending(before.0);
                lemma_one_piece(done);
                lemma_pieces_sum(pending, seq![done]);
                assert(now.1 =~= pending + seq![done]);
            },
            _ => {},
        }
        let p = put_together(None, e).1;
        assert(texts_of(p) =~= texts_told(e));
        assert(thoughts_of(p) =~= thoughts_told(e));
        assert(ends_of(p) =~= ends_told(e));
        let log = log_told(l, e);
        assert forall|k: int| 0 <= k < log.done.len() implies is_call(
            #[trigger] calls_of(p)[k],
            log.done[k],
        ) by {
            if k < was.done.len() {
                assert(calls_of(p)[k] == calls_of(before.1)[k]);
            }
        }
    } else {
        assert(calls_of(put_together(None, e).1).len() == 0);
    }
}

// ---------------------------------------------------------------------------
// Formats and responses
// ---------------------------------------------------------------------------

/// Which models speak which format, by their names in lower case, and where
/// each format's requests go.
pub proof fn models_speak_their_format(lower: Seq<char>)
    ensures
        opencode_go::format_of(lower) == WireFormat::Anthropic <==> seq![
            "minimax-m2.5"@,
            "minimax-m2.7"@,
        ].contains(lower),
        opencode_go::format_of(lower) == WireFormat::Alibaba <==> seq![
            "qwen3.5-plus"@,
            "qwen3.6-plus"@,
        ].contains(lower),
        opencode_go::endpoint_of(opencode_go::format_of(lower)) == if seq![
            "minimax-m2.5"@,
            "minimax-m2.7"@,
        ].contains(lower) {
            "/messages"@
        } else {
            "/chat/completions"@
        },
{
    reveal_strlit("minimax-m2.5");
    reveal_strlit("minimax-m2.7");
    reveal_strlit("qwen3.5-plus");
    reveal_strlit("qwen3.6-plus");
    let a = seq!["minimax-m2.5"@, "minimax-m2.7"@];
    let b = seq!["qwen3.5-plus"@, "qwen3.6-plus"@];
    assert(a[0] == "minimax-m2.5"@ && a[1] == "minimax-m2.7"@);
    assert(b[0] == "qwen3.5-plus"@ && b[1] == "qwen3.6-plus"@);
    assert("minimax-m2.5"@[0] != "qwen3.5-plus"@[0]);
    assert("minimax-m2.5"@[0] != "qwen3.6-plus"@[0]);
    assert("minimax-m2.7"@[0] != "qwen3.5-plus"@[0]);
    assert("minimax-m2.7"@[0] != "qwen3.6-plus"@[0]);
}

/// An answer is read where its status says success, and only there. A request
/// is made again only where the gateway complains of the cache markers, in a
/// format that has them, and was not made again before. Every other answer is
/// an error that tells the status and what came with it, without the key.
pub proof fn responses_are_dealt_with(
    format: WireFormat,
    retried: bool,
    status: u16,
    line: Seq<char>,
    body: Seq<char>,
    redacted: Seq<char>,
)
    ensures
        ({
            let r = opencode_stream::response_step(format, retried, status, line, body, redacted);
            let complains = status == 400 && text::contains_text(body, "cache_control"@);
            &&& r is Stream <==> 200 <= status <= 299
            &&& r is RetryWithoutCache <==> complains && !retried && (format
                == WireFormat::Anthropic || format == WireFormat::Alibaba)
            &&& r matches opencode_stream::ResponseStepView::Fail(e) ==> (
            e matches ErrorView::Provider(m) && text::has_prefix(m, "http "@ + line)
                && text::has_suffix(m, ": "@ + redacted))
        }),
{
    let r = opencode_stream::response_step(format, retried, status, line, body, redacted);
    if let opencode_stream::ResponseStepView::Fail(e) = r {
        let m = e->Provider_0;
        let head = "http "@ + line;
        let tail = ": "@ + redacted;
        assert(m.take(head.len() as int) =~= head);
        if retried {
            reveal_strlit(" (retry without cache also failed): ");
            reveal_strlit(" (retry without cache also failed)");
            reveal_strlit(": ");
            assert(" (retry without cache also failed): "@
                =~= " (retry without cache also failed)"@ + ": "@);
            assert(m =~= head + " (retry without cache also failed)"@ + tail);
        } else {
            assert(m =~= head + tail);
        }
        assert(m.skip(m.len() - tail.len()) =~= tail);
    }
}

/// The models that a list document names are all listed, each with the
/// gateway's prefix once.
pub proof fn listed_models_are_prefixed(items: Seq<JsonView>, i: int, id: Seq<char>)
    requires
        0 <= i < items.len(),
        items[i].get("id"@) == Some(JsonView::Str(id)),
    ensures
        opencode_stream::listed_ids(items).contains(
            if text::has_prefix(id, opencode_go::MODEL_PREFIX@) {
                id
            } else {
                opencode_go::MODEL_PREFIX@ + id
            },
        ),
        opencode_stream::listed_ids(items).len() <= items.len(),
    decreases items.len(),
{
    let t = items.drop_last();
    let before = opencode_stream::listed_ids(t);
    let after = opencode_stream::listed_ids(items);
    let x = opencode_stream::prefixed(id);
    lemma_listed_len(t);
    if i < t.len() {
        listed_models_are_prefixed(t, i, id);
        let k = choose|k: int| 0 <= k < before.len() && before[k] == x;
        assert(after[k] == x);
    } else {
        assert(after[after.len() - 1] == x);
    }
}

proof fn lemma_listed_len(items: Seq<JsonView>)
    ensures
        opencode_stream::listed_ids(items).len() <= items.len(),
    decreases items.len(),
{
    if items.len() > 0 {
        lemma_listed_len(items.drop_last());
    }
}

/// Every model that a list document names is in the list, with the gateway's
/// prefix once, and the list is in ascending order.
pub proof fn list_documents_are_listed(
    doc: JsonView,
    items: Seq<JsonView>,
    i: int,
    id: Seq<char>,
)
    requires
        doc.get("data"@) == Some(JsonView::Arr(items)),
        0 <= i < items.len(),
        items[i].get("id"@) == Some(JsonView::Str(id)),
    ensures
        opencode_stream::model_ids(doc).contains(
            if text::has_prefix(id, opencode_go::MODEL_PREFIX@) {
                id
            } else {
                opencode_go::MODEL_PREFIX@ + id
            },
        ),
        text::sorted(opencode_stream::model_ids(doc)),
{
    broadcast use vstd::seq_lib::group_to_multiset_ensures;

    listed_models_are_prefixed(items, i, id);
    let v = opencode_stream::listed_ids(items);
    text::sorting_orders(v);
    let x = opencode_stream::prefixed(id);
    assert(v.contains(x));
    assert(v.to_multiset().count(x) > 0);
    assert(text::sort_of(v).to_multiset().count(x) > 0);
}

/// A model goes to the gateway under its name without the prefix.
pub proof fn prefixes_come_and_go(id: Seq<char>)
    ensures
        opencode_go::bare_model(opencode_go::MODEL_PREFIX@ + id) == id,
        !text::has_prefix(id, opencode_go::MODEL_PREFIX@) ==> opencode_go::bare_model(id) == id
            && opencode_go::bare_model(opencode_stream::prefixed(id)) == id,
{
    let p = opencode_go::MODEL_PREFIX@;
    assert((p + id).take(p.len() as int) =~= p);
    assert((p + id).skip(p.len() as int) =~= id);
}

} // verus!
