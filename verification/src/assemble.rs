//! Whole pieces of an answer, put together from the stream of its parts.

use vstd::prelude::*;

use crate::json::{self, Json, JsonView};
use crate::opencode_stream::{ProviderEvent, ProviderEventView};
use crate::text;
use crate::turn::AssembledEvent;
use crate::types::{BlockView, ContentBlock, Usage};

verus! {

#[verifier::ext_equal]
pub enum AssembledView {
    Text(Seq<char>),
    Thinking(Seq<char>),
    ToolUse(BlockView),
    ToolParseFailed { id: Seq<char>, name: Seq<char>, error: Seq<char> },
    Done { stop_reason: Option<Seq<char>>, usage: Option<Usage> },
}

impl View for AssembledEvent {
    type V = AssembledView;

    open spec fn view(&self) -> AssembledView {
        match self {
            AssembledEvent::Text(s) => AssembledView::Text(s@),
            AssembledEvent::Thinking(s) => AssembledView::Thinking(s@),
            AssembledEvent::ToolUse(b) => AssembledView::ToolUse(b@),
            AssembledEvent::ToolParseFailed { id, name, error } => AssembledView::ToolParseFailed {
                id: id@,
                name: name@,
                error: error@,
            },
            AssembledEvent::Done { stop_reason, usage } => AssembledView::Done {
                stop_reason: text::view_opt(*stop_reason),
                usage: *usage,
            },
        }
    }
}

/// A tool call whose input is still coming in.
#[derive(Debug, PartialEq, Eq)]
pub struct OpenCall {
    pub id: String,
    pub name: String,
    pub thought_signature: Option<String>,
    pub input: String,
}

#[verifier::ext_equal]
pub struct CallView {
    pub id: Seq<char>,
    pub name: Seq<char>,
    pub thought_signature: Option<Seq<char>>,
    pub input: Seq<char>,
}

impl View for OpenCall {
    type V = CallView;

    open spec fn view(&self) -> CallView {
        CallView {
            id: self.id@,
            name: self.name@,
            thought_signature: text::view_opt(self.thought_signature),
            input: self.input@,
        }
    }
}

/// A tool call whose input is complete. No input at all stands for an empty
/// object.
pub open spec fn closed_call(c: CallView) -> AssembledView {
    let input = if text::trim_of(c.input).len() == 0 {
        Ok(JsonView::obj())
    } else {
        json::json_parse(c.input)
    };
    match input {
        Ok(input) => AssembledView::ToolUse(
            BlockView::ToolUse {
                id: c.id,
                name: c.name,
                input,
                thought_signature: c.thought_signature,
            },
        ),
        Err(e) => AssembledView::ToolParseFailed {
            id: c.id,
            name: c.name,
            error: "tool input is not valid JSON: "@ + e,
        },
    }
}

/// The call that is open, as a piece.
pub open spec fn pending(open: Option<CallView>) -> Seq<AssembledView> {
    match open {
        Some(c) => seq![closed_call(c)],
        None => Seq::empty(),
    }
}

/// What a part of an answer adds to what is open, and which pieces it
/// completes.
pub open spec fn assembled(open: Option<CallView>, e: ProviderEventView) -> (
    Option<CallView>,
    Seq<AssembledView>,
) {
    match e {
        ProviderEventView::MessageStart { .. } => (open, Seq::empty()),
        ProviderEventView::TextDelta(s) => (open, seq![AssembledView::Text(s)]),
        ProviderEventView::ThinkingDelta(s) => (open, seq![AssembledView::Thinking(s)]),
        ProviderEventView::ToolUseStart { id, name, thought_signature } => (
            Some(CallView { id, name, thought_signature, input: Seq::empty() }),
            pending(open),
        ),
        ProviderEventView::ToolUseDelta { partial_json } => (
            match open {
                Some(c) => Some(CallView { input: c.input + partial_json, ..c }),
                None => None,
            },
            Seq::empty(),
        ),
        ProviderEventView::ContentBlockStop => (None, pending(open)),
        ProviderEventView::MessageStop { stop_reason, usage } => (
            None,
            pending(open).push(AssembledView::Done { stop_reason, usage }),
        ),
    }
}

/// Puts the parts of one answer together.
#[derive(Debug, PartialEq, Eq)]
pub struct Assembler {
    pub open: Option<OpenCall>,
}

impl Assembler {
    pub fn new() -> (r: Assembler)
        ensures
            text::view_opt(r.open) == None::<CallView>,
    {
        Assembler { open: None }
    }

    fn close(&mut self, out: &mut Vec<AssembledEvent>)
        ensures
            text::view_opt(final(self).open) == None::<CallView>,
            text::views(final(out)@) == text::views(old(out)@) + pending(
                text::view_opt(old(self).open),
            ),
    {
        broadcast use text::views_push;

        let mut open: Option<OpenCall> = None;
        std::mem::swap(&mut open, &mut self.open);
        let ghost before = text::views(out@);
        if let Some(c) = open {
            let input = if text::trim(c.input.as_str()).unicode_len() == 0 {
                Ok(Json::object())
            } else {
                json::parse_json(c.input.as_str())
            };
            match input {
                Ok(input) => {
                    out.push(
                        AssembledEvent::ToolUse(
                            ContentBlock::ToolUse {
                                id: c.id,
                                name: c.name,
                                input,
                                thought_signature: c.thought_signature,
                            },
                        ),
                    );
                },
                Err(e) => {
                    let mut error = "tool input is not valid JSON: ".to_string();
                    error.append(e.as_str());
                    out.push(
                        AssembledEvent::ToolParseFailed { id: c.id, name: c.name, error },
                    );
                },
            }
        }
        proof {
            assert(text::views(out@) =~= before + pending(text::view_opt(old(self).open)));
        }
    }

    /// Takes one part in; gives the pieces that it completes.
    pub fn push(&mut self, event: ProviderEvent) -> (r: Vec<AssembledEvent>)
        ensures
            (text::view_opt(final(self).open), text::views(r@)) == assembled(
                text::view_opt(old(self).open),
                event@,
            ),
    {
        broadcast use text::views_push;

        let mut out: Vec<AssembledEvent> = Vec::new();
        proof {
            assert(text::views(out@) =~= Seq::<AssembledView>::empty());
        }
        match event {
            ProviderEvent::MessageStart { .. } => {},
            ProviderEvent::TextDelta(s) => {
                out.push(AssembledEvent::Text(s));
            },
            ProviderEvent::ThinkingDelta(s) => {
                out.push(AssembledEvent::Thinking(s));
            },
            ProviderEvent::ToolUseStart { id, name, thought_signature } => {
                self.close(&mut out);
                self.open = Some(OpenCall { id, name, thought_signature, input: String::new() });
            },
            ProviderEvent::ToolUseDelta { partial_json } => {
                let mut open: Option<OpenCall> = None;
                std::mem::swap(&mut open, &mut self.open);
                if let Some(mut c) = open {
                    c.input.append(partial_json.as_str());
                    self.open = Some(c);
                }
            },
            ProviderEvent::ContentBlockStop => {
                self.close(&mut out);
            },
            ProviderEvent::MessageStop { stop_reason, usage } => {
                self.close(&mut out);
                out.push(AssembledEvent::Done { stop_reason, usage });
            },
        }
        proof {
            assert(text::views(out@) =~= assembled(text::view_opt(old(self).open), event@).1);
        }
        out
    }
}

} // verus!
