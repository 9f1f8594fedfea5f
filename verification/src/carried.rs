//! What a request carries of a conversation, read back from its body.

use vstd::prelude::*;

use crate::content;
use crate::json::{self, JsonView};
use crate::opencode_go::{self, WireFormat};
use crate::text;
use crate::types::{
    self, BlockView, ImageView, MessageView, ResultBlockView, ResultView, Role, StreamRequest, ToolDef,
};

verus! {

// ---------------------------------------------------------------------------
// Reading a message of a body
// ---------------------------------------------------------------------------

/// A part of a content list of this type.
pub open spec fn is_part(p: JsonView, kind: Seq<char>) -> bool {
    p.get("type"@) == Some(JsonView::Str(kind))
}

/// The text under a name; none where there is no text.
pub open spec fn text_under(j: Option<JsonView>, key: Seq<char>) -> Seq<char> {
    match j {
        Some(v) => match v.get(key) {
            Some(JsonView::Str(t)) => t,
            _ => Seq::empty(),
        },
        None => Seq::empty(),
    }
}

/// The text parts of a content list, one after the other.
pub open spec fn texts_of_parts(p: Seq<JsonView>) -> Seq<char>
    decreases p.len(),
{
    if p.len() == 0 {
        Seq::empty()
    } else {
        texts_of_parts(p.drop_last()) + if is_part(p.last(), "text"@) {
            text_under(Some(p.last()), "text"@)
        } else {
            Seq::empty()
        }
    }
}

/// Where the image parts of a content list point.
pub open spec fn urls_of_parts(p: Seq<JsonView>) -> Seq<Seq<char>>
    decreases p.len(),
{
    if p.len() == 0 {
        Seq::empty()
    } else {
        urls_of_parts(p.drop_last()) + if is_part(p.last(), "image_url"@) {
            seq![text_under(p.last().get("image_url"@), "url"@)]
        } else {
            Seq::empty()
        }
    }
}

/// What a message says in words, whether its content is a text or a list of
/// parts.
pub open spec fn words_carried(m: JsonView) -> Seq<char> {
    match m.get("content"@) {
        Some(JsonView::Str(t)) => t,
        Some(JsonView::Arr(p)) => texts_of_parts(p),
        _ => Seq::empty(),
    }
}

/// The images that a message shows.
pub open spec fn urls_carried(m: JsonView) -> Seq<Seq<char>> {
    match m.get("content"@) {
        Some(JsonView::Arr(p)) => urls_of_parts(p),
        _ => Seq::empty(),
    }
}

/// A tool call: its id, the name of the tool, and its input as a text.
pub struct CarriedCall {
    pub id: Seq<char>,
    pub name: Seq<char>,
    pub arguments: Seq<char>,
}

/// The tool calls that a message makes.
pub open spec fn calls_carried(m: JsonView) -> Seq<CarriedCall> {
    match m.get("tool_calls"@) {
        Some(JsonView::Arr(c)) => Seq::new(
            c.len(),
            |i: int|
                CarriedCall {
                    id: text_under(Some(c[i]), "id"@),
                    name: text_under(c[i].get("function"@), "name"@),
                    arguments: text_under(c[i].get("function"@), "arguments"@),
                },
        ),
        _ => Seq::empty(),
    }
}

// ---------------------------------------------------------------------------
// What there is to carry
// ---------------------------------------------------------------------------

/// The texts of a message, one after the other.
pub open spec fn words_among(b: Seq<BlockView>) -> Seq<char>
    decreases b.len(),
{
    if b.len() == 0 {
        Seq::empty()
    } else {
        words_among(b.drop_last()) + match b.last() {
            BlockView::Text(t) => t,
            _ => Seq::empty(),
        }
    }
}

/// The reasoning of a message, one piece after the other.
pub open spec fn thoughts_among(b: Seq<BlockView>) -> Seq<char>
    decreases b.len(),
{
    if b.len() == 0 {
        Seq::empty()
    } else {
        thoughts_among(b.drop_last()) + match b.last() {
            BlockView::Thinking { content, .. } => content,
            _ => Seq::empty(),
        }
    }
}

/// An image as a link that holds it.
pub open spec fn data_url(i: ImageView) -> Seq<char> {
    "data:"@ + i.media_type + ";base64,"@ + i.data
}

/// The images of a message.
pub open spec fn urls_among(b: Seq<BlockView>) -> Seq<Seq<char>>
    decreases b.len(),
{
    if b.len() == 0 {
        Seq::empty()
    } else {
        urls_among(b.drop_last()) + match b.last() {
            BlockView::Image(i) => seq![data_url(i)],
            _ => Seq::empty(),
        }
    }
}

/// The tool calls of a message.
pub open spec fn calls_among(b: Seq<BlockView>) -> Seq<CarriedCall>
    decreases b.len(),
{
    if b.len() == 0 {
        Seq::empty()
    } else {
        calls_among(b.drop_last()) + match b.last() {
            BlockView::ToolUse { id, name, input, .. } => seq![
                CarriedCall { id, name, arguments: json::json_text(input) },
            ],
            _ => Seq::empty(),
        }
    }
}

/// The tool results of a message: whose each is, and what it is.
pub open spec fn results_among(b: Seq<BlockView>) -> Seq<(Seq<char>, ResultView)>
    decreases b.len(),
{
    if b.len() == 0 {
        Seq::empty()
    } else {
        results_among(b.drop_last()) + match b.last() {
            BlockView::ToolResult { tool_use_id, content, .. } => seq![(tool_use_id, content)],
            _ => Seq::empty(),
        }
    }
}

/// The texts among the parts of a tool result.
pub open spec fn texts_of_result(b: Seq<ResultBlockView>) -> Seq<Seq<char>>
    decreases b.len(),
{
    if b.len() == 0 {
        Seq::empty()
    } else {
        texts_of_result(b.drop_last()) + match b.last() {
            ResultBlockView::Text(t) => seq![t],
            ResultBlockView::Image(_) => Seq::empty(),
        }
    }
}

/// What a tool result says in words: its text, or its texts, one per line.
pub open spec fn words_of_result(c: ResultView) -> Seq<char> {
    match c {
        ResultView::Text(s) => s,
        ResultView::Blocks(b) => text::join_of(texts_of_result(b), "\n"@),
    }
}

/// The images of a tool result.
pub open spec fn urls_of_blocks(b: Seq<ResultBlockView>) -> Seq<Seq<char>>
    decreases b.len(),
{
    if b.len() == 0 {
        Seq::empty()
    } else {
        urls_of_blocks(b.drop_last()) + match b.last() {
            ResultBlockView::Text(_) => Seq::empty(),
            ResultBlockView::Image(i) => seq![data_url(i)],
        }
    }
}

pub open spec fn urls_of_result(c: ResultView) -> Seq<Seq<char>> {
    match c {
        ResultView::Text(_) => Seq::empty(),
        ResultView::Blocks(b) => urls_of_blocks(b),
    }
}

/// The images of all tool results, in order.
pub open spec fn urls_of_results(r: Seq<(Seq<char>, ResultView)>) -> Seq<Seq<char>>
    decreases r.len(),
{
    if r.len() == 0 {
        Seq::empty()
    } else {
        urls_of_results(r.drop_last()) + urls_of_result(r.last().1)
    }
}

/// The name of a role on the wire.
pub open spec fn role_on_the_wire(role: Role) -> Seq<char> {
    if role == Role::User {
        "user"@
    } else if role == Role::Assistant {
        "assistant"@
    } else {
        "system"@
    }
}

// ---------------------------------------------------------------------------
// Names
// ---------------------------------------------------------------------------

proof fn lemma_names()
    ensures
        "role"@.len() == 4,
        "type"@.len() == 4,
        "text"@.len() == 4,
        "name"@.len() == 4,
        "role"@[0] == 'r',
        "type"@[0] == 't',
        "type"@[1] == 'y',
        "text"@[0] == 't',
        "text"@[1] == 'e',
        "name"@[0] == 'n',
        "content"@.len() == 7,
        "tool_calls"@.len() == 10,
        "reasoning_content"@.len() == 17,
        "image_url"@.len() == 9,
        "arguments"@.len() == 9,
        "image_url"@[0] == 'i',
        "arguments"@[0] == 'a',
        "url"@.len() == 3,
        "id"@.len() == 2,
        "function"@.len() == 8,
        "tool_call_id"@.len() == 12,
        "cache_control"@.len() == 13,
{
    reveal_strlit("role");
    reveal_strlit("type");
    reveal_strlit("text");
    reveal_strlit("name");
    reveal_strlit("content");
    reveal_strlit("tool_calls");
    reveal_strlit("reasoning_content");
    reveal_strlit("image_url");
    reveal_strlit("arguments");
    reveal_strlit("url");
    reveal_strlit("id");
    reveal_strlit("function");
    reveal_strlit("tool_call_id");
    reveal_strlit("cache_control");
}

// ---------------------------------------------------------------------------
// Parts
// ---------------------------------------------------------------------------

proof fn lemma_parts_of_sum(a: Seq<JsonView>, b: Seq<JsonView>)
    ensures
        texts_of_parts(a + b) == texts_of_parts(a) + texts_of_parts(b),
        urls_of_parts(a + b) == urls_of_parts(a) + urls_of_parts(b),
    decreases b.len(),
{
    if b.len() == 0 {
        assert(a + b == a);
    } else {
        lemma_parts_of_sum(a, b.drop_last());
        assert((a + b).drop_last() == a + b.drop_last());
        assert(texts_of_parts(a + b) =~= texts_of_parts(a) + texts_of_parts(b));
        assert(urls_of_parts(a + b) =~= urls_of_parts(a) + urls_of_parts(b));
    }
}

proof fn lemma_one_part(p: JsonView)
    ensures
        texts_of_parts(seq![p]) == if is_part(p, "text"@) {
            text_under(Some(p), "text"@)
        } else {
            Seq::empty()
        },
        urls_of_parts(seq![p]) == if is_part(p, "image_url"@) {
            seq![text_under(p.get("image_url"@), "url"@)]
        } else {
            Seq::empty()
        },
{
    assert(seq![p].drop_last() =~= Seq::empty());
    assert(texts_of_parts(seq![p].drop_last()) =~= Seq::empty());
    assert(urls_of_parts(seq![p].drop_last()) =~= Seq::empty());
}

proof fn lemma_text_part(t: Seq<char>)
    ensures
        texts_of_parts(seq![opencode_go::text_part(t)]) == t,
        urls_of_parts(seq![opencode_go::text_part(t)]) == Seq::<Seq<char>>::empty(),
{
    broadcast use json::member_put_is_read;

    lemma_names();
    lemma_one_part(opencode_go::text_part(t));
}

proof fn lemma_image_part(i: ImageView)
    ensures
        texts_of_parts(seq![opencode_go::image_part(i)]) == Seq::<char>::empty(),
        urls_of_parts(seq![opencode_go::image_part(i)]) == seq![data_url(i)],
{
    broadcast use json::member_put_is_read;

    lemma_names();
    lemma_one_part(opencode_go::image_part(i));
}

/// The links of images.
pub open spec fn urls_of_images(i: Seq<ImageView>) -> Seq<Seq<char>> {
    i.map_values(|x: ImageView| data_url(x))
}

proof fn lemma_image_parts(i: Seq<ImageView>)
    ensures
        texts_of_parts(opencode_go::image_parts(i)) == Seq::<char>::empty(),
        urls_of_parts(opencode_go::image_parts(i)) == urls_of_images(i),
    decreases i.len(),
{
    let p = opencode_go::image_parts(i);
    if i.len() > 0 {
        lemma_image_parts(i.drop_last());
        assert(p =~= opencode_go::image_parts(i.drop_last()) + seq![
            opencode_go::image_part(i.last()),
        ]);
        lemma_parts_of_sum(
            opencode_go::image_parts(i.drop_last()),
            seq![opencode_go::image_part(i.last())],
        );
        lemma_image_part(i.last());
        assert(urls_of_images(i) =~= urls_of_images(i.drop_last()) + seq![data_url(i.last())]);
    } else {
        assert(urls_of_images(i) =~= Seq::empty());
    }
}

// ---------------------------------------------------------------------------
// Messages in the OpenAI format
// ---------------------------------------------------------------------------

proof fn lemma_what_there_is(b: Seq<BlockView>)
    ensures
        opencode_go::words_of(b) == words_among(b),
        opencode_go::reasoning_of(b) == thoughts_among(b),
        urls_of_images(opencode_go::images_of(b)) == urls_among(b),
        opencode_go::results_of(b).len() == results_among(b).len(),
    decreases b.len(),
{
    if b.len() > 0 {
        lemma_what_there_is(b.drop_last());
        assert(opencode_go::words_of(b) =~= words_among(b));
        assert(opencode_go::reasoning_of(b) =~= thoughts_among(b));
        assert(urls_of_images(opencode_go::images_of(b)) =~= urls_among(b));
    } else {
        assert(urls_of_images(opencode_go::images_of(b)) =~= Seq::empty());
    }
}

proof fn lemma_calls(b: Seq<BlockView>, m: JsonView)
    requires
        m.get("tool_calls"@) == Some(JsonView::Arr(opencode_go::calls_of(b))),
    ensures
        calls_carried(m) == calls_among(b),
    decreases b.len(),
{
    broadcast use json::member_put_is_read;

    lemma_names();
    if b.len() > 0 {
        let n = JsonView::obj().with(
            "tool_calls"@,
            JsonView::Arr(opencode_go::calls_of(b.drop_last())),
        );
        lemma_calls(b.drop_last(), n);
        if let BlockView::ToolUse { id, name, input, .. } = b.last() {
            let c = opencode_go::call_json(id, name, input);
            assert(c.get("id"@) == Some(JsonView::Str(id)));
            assert(c.get("function"@)->0.get("name"@) == Some(JsonView::Str(name)));
            assert(c.get("function"@)->0.get("arguments"@) == Some(
                JsonView::Str(json::json_text(input)),
            ));
            assert(calls_carried(m) =~= calls_carried(n).push(
                CarriedCall { id, name, arguments: json::json_text(input) },
            ));
            assert(calls_among(b) =~= calls_among(b.drop_last()).push(
                CarriedCall { id, name, arguments: json::json_text(input) },
            ));
        } else {
            assert(calls_carried(m) =~= calls_carried(n));
            assert(calls_among(b) =~= calls_among(b.drop_last()));
        }
    } else {
        assert(calls_carried(m) =~= Seq::empty());
    }
}

/// A message that says something itself, beside the tool results in it.
pub open spec fn speaks(b: Seq<BlockView>) -> bool {
    ||| words_among(b).len() > 0
    ||| thoughts_among(b).len() > 0
    ||| urls_among(b).len() > 0
    ||| calls_among(b).len() > 0
}

/// A message on the wire that says all that a message says itself.
pub open spec fn carries(j: JsonView, m: MessageView) -> bool {
    let b = m.content;
    &&& j.get("role"@) == Some(JsonView::Str(role_on_the_wire(m.role)))
    &&& words_carried(j) == words_among(b)
    &&& urls_carried(j) == urls_among(b)
    &&& calls_carried(j) == calls_among(b)
    &&& j.get("reasoning_content"@) == if thoughts_among(b).len() > 0 {
        Some(JsonView::Str(thoughts_among(b)))
    } else {
        None
    }
    &&& j.get("content"@) is None ==> calls_among(b).len() == 0
    &&& j.get("tool_call_id"@) is None
}

/// What a message says itself goes out in one message: every text, whether or
/// not there are images, every image, every tool call and all reasoning, each
/// in order. A message that says nothing itself is left out.
pub proof fn own_words_are_carried(m: MessageView)
    ensures
        match opencode_go::main_message(m) {
            Some(j) => speaks(m.content) && carries(j, m),
            None => !speaks(m.content),
        },
{
    broadcast use json::member_put_is_read;

    let b = m.content;
    let words = opencode_go::words_of(b);
    let images = opencode_go::images_of(b);
    let calls = opencode_go::calls_of(b);
    lemma_names();
    lemma_what_there_is(b);
    assert(urls_of_images(images).len() == images.len());
    lemma_calls(b, JsonView::obj().with("tool_calls"@, JsonView::Arr(calls)));
    assert(calls.len() == calls_among(b).len());
    if let Some(j) = opencode_go::main_message(m) {
        if images.len() > 0 {
            lemma_image_parts(images);
            lemma_text_part(words);
            lemma_parts_of_sum(
                seq![opencode_go::text_part(words)],
                opencode_go::image_parts(images),
            );
            assert(Seq::<JsonView>::empty() + opencode_go::image_parts(images)
                =~= opencode_go::image_parts(images));
            assert(words + Seq::<char>::empty() =~= words);
            assert(Seq::<Seq<char>>::empty() + urls_of_images(images) =~= urls_of_images(images));
        }
        if calls.len() > 0 {
            lemma_calls(b, j);
        } else {
            assert(j.get("tool_calls"@) is None);
            assert(calls_among(b) =~= Seq::empty());
        }
        if words.len() == 0 {
            assert(words =~= Seq::empty());
        }
        assert(words_carried(j) =~= words);
        if images.len() == 0 {
            assert(urls_among(b) =~= Seq::empty());
        }
    }
}

// ---------------------------------------------------------------------------
// Tool results in the OpenAI format
// ---------------------------------------------------------------------------

proof fn lemma_blocks_of_result(b: Seq<ResultBlockView>)
    ensures
        types::block_texts(b) == texts_of_result(b),
        urls_of_images(types::block_images(b)) == urls_of_blocks(b),
    decreases b.len(),
{
    if b.len() > 0 {
        lemma_blocks_of_result(b.drop_last());
        assert(types::block_texts(b) =~= texts_of_result(b));
        assert(urls_of_images(types::block_images(b)) =~= urls_of_blocks(b));
    } else {
        assert(urls_of_images(types::block_images(b)) =~= Seq::empty());
    }
}

proof fn lemma_results(b: Seq<BlockView>, k: int)
    requires
        0 <= k < results_among(b).len(),
    ensures
        opencode_go::results_of(b).len() == results_among(b).len(),
        opencode_go::results_of(b)[k].id == results_among(b)[k].0,
        opencode_go::results_of(b)[k].text == words_of_result(results_among(b)[k].1),
        urls_of_images(opencode_go::results_of(b)[k].images) == urls_of_result(
            results_among(b)[k].1,
        ),
    decreases b.len(),
{
    lemma_what_there_is(b);
    if b.len() > 0 {
        let c = b.drop_last();
        lemma_what_there_is(c);
        if k < results_among(c).len() {
            lemma_results(c, k);
        } else if let BlockView::ToolResult { content, .. } = b.last() {
            match content {
                ResultView::Blocks(v) => {
                    lemma_blocks_of_result(v);
                },
                ResultView::Text(_) => {
                    assert(urls_of_images(content.images()) =~= Seq::empty());
                },
            }
        }
    }
}

proof fn lemma_labelled(id: Seq<char>, i: Seq<ImageView>)
    ensures
        urls_of_parts(opencode_go::labelled_images(id, i)) == urls_of_images(i),
    decreases i.len(),
{
    if i.len() == 0 {
        assert(urls_of_images(i) =~= Seq::empty());
    } else {
        let d = opencode_go::labelled_images(id, i.drop_last());
        let label = opencode_go::text_part("from "@ + id + ":"@);
        let image = opencode_go::image_part(i.last());
        lemma_labelled(id, i.drop_last());
        lemma_text_part("from "@ + id + ":"@);
        lemma_image_part(i.last());
        lemma_parts_of_sum(d, seq![label]);
        lemma_parts_of_sum(d + seq![label], seq![image]);
        assert(opencode_go::labelled_images(id, i) =~= d + seq![label] + seq![image]);
        assert(urls_of_images(i) =~= urls_of_images(i.drop_last()) + seq![data_url(i.last())]);
    }
}

proof fn lemma_all_labelled(r: Seq<opencode_go::ResultPart>, a: Seq<(Seq<char>, ResultView)>)
    requires
        r.len() == a.len(),
        forall|k: int|
            0 <= k < r.len() ==> urls_of_images((#[trigger] r[k]).images) == urls_of_result(a[k].1),
    ensures
        urls_of_parts(opencode_go::all_labelled_images(r)) == urls_of_results(a),
        opencode_go::image_count(r) == urls_of_results(a).len(),
    decreases r.len(),
{
    if r.len() > 0 {
        let d = r.drop_last();
        assert forall|k: int| 0 <= k < d.len() implies urls_of_images((#[trigger] d[k]).images)
            == urls_of_result(a.drop_last()[k].1) by {
            assert(r[k].images == d[k].images);
        }
        lemma_all_labelled(d, a.drop_last());
        assert(urls_of_images(r[r.len() - 1].images) == urls_of_result(a[r.len() - 1].1));
        assert(urls_of_images(r.last().images).len() == r.last().images.len());
        lemma_labelled(r.last().id, r.last().images);
        lemma_parts_of_sum(
            opencode_go::all_labelled_images(d),
            opencode_go::labelled_images(r.last().id, r.last().images),
        );
    }
}

/// A message on the wire that hands a tool's result back.
pub open spec fn hands_back(j: JsonView, id: Seq<char>, content: ResultView) -> bool {
    &&& j.get("role"@) == Some(JsonView::Str("tool"@))
    &&& j.get("tool_call_id"@) == Some(JsonView::Str(id))
    &&& j.get("content"@) == Some(JsonView::Str(words_of_result(content)))
}

/// What one message becomes: first what it says itself, then one message for
/// each of its tool results, under the id of the call and in order, then, where
/// the results hold images, one message of the user with all of them in order.
pub proof fn messages_are_carried_whole(m: MessageView)
    ensures
        ({
            let out = opencode_go::openai_message(m);
            let r = results_among(m.content);
            let n: int = if speaks(m.content) {
                1
            } else {
                0
            };
            let shown = urls_of_results(r);
            &&& out.len() == n + r.len() + (if shown.len() > 0 {
                1int
            } else {
                0
            })
            &&& n == 1 ==> carries(out[0], m)
            &&& forall|k: int|
                #![trigger r[k]]
                0 <= k < r.len() ==> hands_back(out[n + k], r[k].0, r[k].1)
            &&& shown.len() > 0 ==> {
                &&& out.last().get("role"@) == Some(JsonView::Str("user"@))
                &&& urls_carried(out.last()) == shown
            }
        }),
{
    broadcast use json::member_put_is_read;

    let out = opencode_go::openai_message(m);
    let a = results_among(m.content);
    let r = opencode_go::results_of(m.content);
    let n: int = if speaks(m.content) {
        1
    } else {
        0
    };
    lemma_names();
    own_words_are_carried(m);
    lemma_what_there_is(m.content);
    assert forall|k: int| 0 <= k < r.len() implies urls_of_images((#[trigger] r[k]).images)
        == urls_of_result(a[k].1) by {
        lemma_results(m.content, k);
    }
    lemma_all_labelled(r, a);
    assert forall|k: int|
        #![trigger a[k]]
        0 <= k < a.len() implies hands_back(out[n + k], a[k].0, a[k].1) by {
        lemma_results(m.content, k);
        assert(out[n + k] == opencode_go::tool_message(r[k]));
    }
    if urls_of_results(a).len() > 0 {
        let ids = opencode_go::ids_with_images(r);
        let head = "(image"@ + opencode_go::plural(opencode_go::image_count(r))
            + " attached from preceding tool_result"@ + opencode_go::plural(ids.len()) + ": "@
            + text::join_of(ids, ", "@) + ")"@;
        assert(out.last() == opencode_go::images_message(r));
        lemma_text_part(head);
        lemma_parts_of_sum(
            seq![opencode_go::text_part(head)],
            opencode_go::all_labelled_images(r),
        );
        assert(urls_carried(out.last()) =~= urls_of_results(a));
    }
}

/// A request begins with the system prompt, where there is one, and then has
/// what each message of the conversation becomes, one after the other: one
/// message more in the conversation adds its own at the end and changes
/// nothing before.
pub proof fn requests_follow_the_conversation(
    system: Option<Seq<char>>,
    m: Seq<MessageView>,
    next: MessageView,
)
    ensures
        opencode_go::openai_messages(system, m.push(next)) == opencode_go::openai_messages(
            system,
            m,
        ) + opencode_go::openai_message(next),
        ({
            let first = opencode_go::openai_messages(system, Seq::empty());
            if system is Some && system->0.len() > 0 {
                &&& first.len() == 1
                &&& first[0].get("role"@) == Some(JsonView::Str("system"@))
                &&& first[0].get("content"@) == Some(JsonView::Str(system->0))
            } else {
                first.len() == 0
            }
        }),
{
    broadcast use json::member_put_is_read;

    lemma_names();
    assert(m.push(next).drop_last() == m);
    assert(opencode_go::openai_messages(system, m.push(next)) =~= opencode_go::openai_messages(
        system,
        m,
    ) + opencode_go::openai_message(next));
}

// ---------------------------------------------------------------------------
// Cache markers
// ---------------------------------------------------------------------------

/// Two messages that say the same; they may differ in cache markers.
pub open spec fn says_the_same(a: JsonView, b: JsonView) -> bool {
    &&& b.get("role"@) == a.get("role"@)
    &&& words_carried(b) == words_carried(a)
    &&& urls_carried(b) == urls_carried(a)
    &&& b.get("tool_calls"@) == a.get("tool_calls"@)
    &&& b.get("tool_call_id"@) == a.get("tool_call_id"@)
    &&& b.get("reasoning_content"@) == a.get("reasoning_content"@)
}

proof fn lemma_marked_part(p: JsonView)
    ensures
        ({
            let q = p.with("cache_control"@, opencode_go::ephemeral());
            &&& texts_of_parts(seq![q]) == texts_of_parts(seq![p])
            &&& urls_of_parts(seq![q]) == urls_of_parts(seq![p])
        }),
{
    broadcast use json::member_put_is_read;

    lemma_names();
    lemma_one_part(p);
    lemma_one_part(p.with("cache_control"@, opencode_go::ephemeral()));
}

proof fn lemma_marked_first_text(b: Seq<JsonView>)
    ensures
        opencode_go::mark_first_text(b) matches Some(q) ==> texts_of_parts(q) == texts_of_parts(b)
            && urls_of_parts(q) == urls_of_parts(b),
    decreases b.len(),
{
    if let Some(q) = opencode_go::mark_first_text(b) {
        let rest = b.skip(1);
        assert(b =~= seq![b[0]] + rest);
        lemma_parts_of_sum(seq![b[0]], rest);
        if opencode_go::is_text_block(b[0]) {
            let x = b[0].with("cache_control"@, opencode_go::ephemeral());
            lemma_marked_part(b[0]);
            lemma_parts_of_sum(seq![x], rest);
        } else {
            lemma_marked_first_text(rest);
            lemma_parts_of_sum(seq![b[0]], opencode_go::mark_first_text(rest)->0);
        }
    }
}

proof fn lemma_cached_text(t: Seq<char>)
    ensures
        opencode_go::cached_text(t).items() == seq![
            opencode_go::text_part(t).with("cache_control"@, opencode_go::ephemeral()),
        ],
        texts_of_parts(opencode_go::cached_text(t).items()) == t,
        urls_of_parts(opencode_go::cached_text(t).items()) == Seq::<Seq<char>>::empty(),
{
    lemma_text_part(t);
    lemma_marked_part(opencode_go::text_part(t));
}

proof fn lemma_marked_user(m: JsonView)
    ensures
        opencode_go::mark_user(m) matches Some(q) ==> says_the_same(m, q),
{
    broadcast use json::member_put_is_read;

    lemma_names();
    match m.get("content"@) {
        Some(JsonView::Str(t)) => {
            lemma_cached_text(t);
        },
        Some(JsonView::Arr(b)) => {
            lemma_marked_first_text(b);
        },
        _ => {},
    }
}

proof fn lemma_marked_system(m: JsonView)
    ensures
        says_the_same(m, opencode_go::mark_system(m)),
{
    broadcast use json::member_put_is_read;

    lemma_names();
    if let Some(t) = m.text_at("content"@) {
        lemma_cached_text(t);
    }
}

proof fn lemma_marked_systems(m: Seq<JsonView>, k: int)
    requires
        0 <= k < m.len(),
    ensures
        opencode_go::mark_first_system(m).len() == m.len(),
        says_the_same(m[k], opencode_go::mark_first_system(m)[k]),
    decreases m.len(),
{
    if opencode_go::has_role(m[0], "system"@) {
        lemma_marked_system(m[0]);
    } else if m.len() > 1 {
        lemma_marked_systems(
            m.skip(1),
            if k > 0 {
                k - 1
            } else {
                0
            },
        );
    } else {
        assert(opencode_go::mark_first_system(m.skip(1)).len() == 0);
    }
}

proof fn lemma_marked_users(m: Seq<JsonView>, k: int)
    requires
        0 <= k < m.len(),
    ensures
        opencode_go::mark_last_user(m).len() == m.len(),
        says_the_same(m[k], opencode_go::mark_last_user(m)[k]),
    decreases m.len(),
{
    lemma_marked_user(m.last());
    if opencode_go::mark_user(m.last()) is None {
        if m.len() > 1 {
            lemma_marked_users(
                m.drop_last(),
                if k < m.len() - 1 {
                    k
                } else {
                    0
                },
            );
        } else {
            assert(opencode_go::mark_last_user(m.drop_last()).len() == 0);
        }
    }
}

/// Cache markers change nothing of what a request says: every message keeps
/// its role, its words, its images and its tool calls.
pub proof fn markers_change_no_words(system: Option<Seq<char>>, m: Seq<MessageView>, k: int)
    requires
        0 <= k < opencode_go::alibaba_messages(system, m, false).len(),
    ensures
        opencode_go::alibaba_messages(system, m, false) == opencode_go::openai_messages(system, m),
        opencode_go::alibaba_messages(system, m, true).len() == opencode_go::alibaba_messages(
            system,
            m,
            false,
        ).len(),
        says_the_same(
            opencode_go::alibaba_messages(system, m, false)[k],
            opencode_go::alibaba_messages(system, m, true)[k],
        ),
{
    let plain = opencode_go::openai_messages(system, m);
    lemma_marked_systems(plain, k);
    lemma_marked_users(opencode_go::mark_first_system(plain), k);
}

/// A part that asks for what comes before it to be cached.
pub open spec fn is_marked(p: JsonView) -> bool {
    p.get("cache_control"@) == Some(
        JsonView::Obj(seq![("type"@, JsonView::Str("ephemeral"@))]),
    )
}

/// Where caching is wanted, the system prompt goes out marked.
pub proof fn system_prompts_are_marked(system: Seq<char>, m: Seq<MessageView>)
    requires
        system.len() > 0,
    ensures
        ({
            let out = opencode_go::alibaba_messages(Some(system), m, true);
            &&& out.len() > 0
            &&& out[0].get("content"@) matches Some(JsonView::Arr(p))
            &&& p.len() == 1
            &&& is_marked(p[0])
        }),
{
    broadcast use {json::member_put_is_read, json::new_member_goes_last};

    lemma_names();
    reveal_strlit("system");
    reveal_strlit("user");
    let plain = opencode_go::openai_messages(Some(system), m);
    let a = opencode_go::mark_first_system(plain);
    assert(plain[0].get("role"@) == Some(JsonView::Str("system"@)));
    assert(plain[0].get("content"@) == Some(JsonView::Str(system)));
    assert(a[0] == opencode_go::mark_system(plain[0]));
    assert(a[0].get("role"@) == Some(JsonView::Str("system"@)));
    assert("system"@.len() != "user"@.len());
    lemma_first_stays(a);
    let p = opencode_go::cached_text(system).items();
    assert(a[0].get("content"@) == Some(opencode_go::cached_text(system)));
    assert(opencode_go::ephemeral().members() =~= seq![
        ("type"@, JsonView::Str("ephemeral"@)),
    ]);
}

proof fn lemma_first_stays(m: Seq<JsonView>)
    requires
        m.len() > 0,
        opencode_go::mark_user(m[0]) is None,
    ensures
        opencode_go::mark_last_user(m).len() == m.len(),
        opencode_go::mark_last_user(m)[0] == m[0],
    decreases m.len(),
{
    if m.len() > 1 {
        lemma_first_stays(m.drop_last());
    } else {
        assert(opencode_go::mark_last_user(m.drop_last()).len() == 0);
    }
}

/// A message in which the user says something.
pub open spec fn user_says(m: JsonView) -> bool {
    &&& m.get("role"@) == Some(JsonView::Str("user"@))
    &&& m.get("tool_call_id"@) is None
    &&& words_carried(m).len() > 0
}

proof fn lemma_first_text_is_found(b: Seq<JsonView>)
    ensures
        opencode_go::mark_first_text(b) is Some <==> texts_of_parts(b).len() > 0,
        opencode_go::mark_first_text(b) matches Some(q) ==> exists|i: int|
            0 <= i < q.len() && is_marked(#[trigger] q[i]),
    decreases b.len(),
{
    broadcast use {json::member_put_is_read, json::new_member_goes_last};

    lemma_names();
    if b.len() > 0 {
        let rest = b.skip(1);
        assert(b =~= seq![b[0]] + rest);
        lemma_parts_of_sum(seq![b[0]], rest);
        lemma_one_part(b[0]);
        lemma_first_text_is_found(rest);
        if opencode_go::is_text_block(b[0]) {
            let q = opencode_go::mark_first_text(b)->0;
            assert(opencode_go::ephemeral().members() =~= seq![
                ("type"@, JsonView::Str("ephemeral"@)),
            ]);
            assert(is_marked(q[0]));
        } else if let Some(r) = opencode_go::mark_first_text(rest) {
            let q = opencode_go::mark_first_text(b)->0;
            let i = choose|i: int| 0 <= i < r.len() && is_marked(#[trigger] r[i]);
            assert(q[i + 1] == r[i]);
        }
    }
}

proof fn lemma_user_is_marked(m: JsonView)
    ensures
        opencode_go::mark_user(m) is Some <==> user_says(m),
        opencode_go::mark_user(m) matches Some(q) ==> holds_a_marker(q),
{
    broadcast use {json::member_put_is_read, json::new_member_goes_last};

    lemma_names();
    match m.get("content"@) {
        Some(JsonView::Str(t)) => {
            if opencode_go::mark_user(m) is Some {
                let p = opencode_go::cached_text(t).items();
                lemma_cached_text(t);
                assert(opencode_go::ephemeral().members() =~= seq![
                    ("type"@, JsonView::Str("ephemeral"@)),
                ]);
                assert(is_marked(p[0]));
                assert(opencode_go::mark_user(m)->0.get("content"@) == Some(JsonView::Arr(p)));
                assert(0 <= 0 < p.len() && is_marked(p[0]));
                assert(holds_a_marker(opencode_go::mark_user(m)->0));
            }
        },
        Some(JsonView::Arr(b)) => {
            lemma_first_text_is_found(b);
            if let Some(q) = opencode_go::mark_user(m) {
                let p = opencode_go::mark_first_text(b)->0;
                assert(q.get("content"@) == Some(JsonView::Arr(p)));
                let i = choose|i: int| 0 <= i < p.len() && is_marked(#[trigger] p[i]);
                assert(0 <= i < p.len() && is_marked(p[i]));
                assert(q.get("content"@)->0.items() == p);
                assert(holds_a_marker(q));
            }
        },
        _ => {},
    }
}

/// A message with a marked part.
pub open spec fn holds_a_marker(m: JsonView) -> bool {
    m.get("content"@) matches Some(JsonView::Arr(p)) && exists|i: int|
        0 <= i < p.len() && is_marked(#[trigger] p[i])
}

proof fn lemma_newest_is_marked(m: Seq<JsonView>, k: int)
    requires
        0 <= k < m.len(),
        user_says(m[k]),
        forall|j: int| k < j < m.len() ==> !user_says(#[trigger] m[j]),
    ensures
        opencode_go::mark_last_user(m).len() == m.len(),
        holds_a_marker(opencode_go::mark_last_user(m)[k]),
    decreases m.len(),
{
    lemma_user_is_marked(m.last());
    if k < m.len() - 1 {
        assert(!user_says(m[m.len() - 1]));
        lemma_newest_is_marked(m.drop_last(), k);
    }
}

/// Where caching is wanted, the newest words of the user go out marked.
pub proof fn newest_words_of_the_user_are_marked(
    system: Option<Seq<char>>,
    m: Seq<MessageView>,
    k: int,
)
    requires
        0 <= k < opencode_go::openai_messages(system, m).len(),
        user_says(opencode_go::openai_messages(system, m)[k]),
        forall|j: int|
            k < j < opencode_go::openai_messages(system, m).len() ==> !user_says(
                #[trigger] opencode_go::openai_messages(system, m)[j],
            ),
    ensures
        opencode_go::alibaba_messages(system, m, true).len() == opencode_go::openai_messages(
            system,
            m,
        ).len(),
        holds_a_marker(opencode_go::alibaba_messages(system, m, true)[k]),
{
    let plain = opencode_go::openai_messages(system, m);
    let a = opencode_go::mark_first_system(plain);
    lemma_marked_systems(plain, k);
    assert forall|j: int| k < j < a.len() implies !user_says(#[trigger] a[j]) by {
        lemma_marked_systems(plain, j);
        assert(!user_says(plain[j]));
    }
    lemma_newest_is_marked(a, k);
}

// ---------------------------------------------------------------------------
// Bodies
// ---------------------------------------------------------------------------

/// A tool as a body in the OpenAI or the Alibaba format names it.
pub open spec fn function_named(t: ToolDef) -> JsonView {
    JsonView::Obj(
        seq![
            ("type"@, JsonView::Str("function"@)),
            (
                "function"@,
                JsonView::Obj(
                    seq![
                        ("name"@, JsonView::Str(t.name@)),
                        ("description"@, JsonView::Str(t.description@)),
                        ("parameters"@, t.input_schema@),
                    ],
                ),
            ),
        ],
    )
}

/// A tool as a body in the Anthropic format names it.
pub open spec fn tool_named(t: ToolDef, marked: bool) -> JsonView {
    let m = seq![
        ("name"@, JsonView::Str(t.name@)),
        ("description"@, JsonView::Str(t.description@)),
        ("input_schema"@, t.input_schema@),
    ];
    JsonView::Obj(
        if marked {
            m.push(("cache_control"@, marker()))
        } else {
            m
        },
    )
}

/// The cache marker.
pub open spec fn marker() -> JsonView {
    JsonView::Obj(seq![("type"@, JsonView::Str("ephemeral"@))])
}

/// A text as the one part of a content list.
pub open spec fn text_alone(t: Seq<char>, marked: bool) -> JsonView {
    let m = seq![("type"@, JsonView::Str("text"@)), ("text"@, JsonView::Str(t))];
    JsonView::Arr(
        seq![
            JsonView::Obj(
                if marked {
                    m.push(("cache_control"@, marker()))
                } else {
                    m
                },
            ),
        ],
    )
}

proof fn lemma_body_names()
    ensures
        "model"@.len() == 5,
        "model"@[0] == 'm',
        "tools"@.len() == 5,
        "tools"@[0] == 't',
        "max_tokens"@.len() == 10,
        "max_completion_tokens"@.len() == 21,
        "messages"@.len() == 8,
        "messages"@[0] == 'm',
        "thinking"@.len() == 8,
        "thinking"@[0] == 't',
        "stream"@.len() == 6,
        "stream"@[1] == 't',
        "system"@.len() == 6,
        "system"@[1] == 'y',
        "stream_options"@.len() == 14,
        "description"@.len() == 11,
        "parameters"@.len() == 10,
        "input_schema"@.len() == 12,
        "budget_tokens"@.len() == 13,
{
    reveal_strlit("model");
    reveal_strlit("tools");
    reveal_strlit("max_tokens");
    reveal_strlit("max_completion_tokens");
    reveal_strlit("messages");
    reveal_strlit("thinking");
    reveal_strlit("stream");
    reveal_strlit("system");
    reveal_strlit("stream_options");
    reveal_strlit("description");
    reveal_strlit("parameters");
    reveal_strlit("input_schema");
    reveal_strlit("budget_tokens");
}

proof fn lemma_function_named(t: ToolDef)
    ensures
        opencode_go::function_json(t) == function_named(t),
{
    broadcast use json::new_member_goes_last;

    lemma_names();
    lemma_body_names();
    let inner = JsonView::obj().with("name"@, JsonView::Str(t.name@)).with(
        "description"@,
        JsonView::Str(t.description@),
    ).with("parameters"@, t.input_schema@);
    assert(inner.members() =~= function_named(t).members()[1].1.members());
    assert(opencode_go::function_json(t).members() =~= function_named(t).members());
}

proof fn lemma_tool_named(t: ToolDef)
    ensures
        opencode_go::tool_json(t) == tool_named(t, false),
        opencode_go::tool_json(t).with("cache_control"@, opencode_go::ephemeral()) == tool_named(
            t,
            true,
        ),
{
    broadcast use json::new_member_goes_last;

    lemma_names();
    lemma_body_names();
    lemma_marker();
    assert(opencode_go::tool_json(t).members() =~= tool_named(t, false).members());
    assert(opencode_go::tool_json(t).with(
        "cache_control"@,
        opencode_go::ephemeral(),
    ).members() =~= tool_named(t, true).members());
}

proof fn lemma_marker()
    ensures
        opencode_go::ephemeral() == marker(),
{
    broadcast use json::new_member_goes_last;

    assert(opencode_go::ephemeral().members() =~= marker().members());
}

proof fn lemma_text_alone(t: Seq<char>)
    ensures
        JsonView::Arr(seq![opencode_go::text_part(t)]) == text_alone(t, false),
        opencode_go::cached_text(t) == text_alone(t, true),
{
    broadcast use json::new_member_goes_last;

    lemma_names();
    lemma_marker();
    let p = opencode_go::text_part(t);
    assert(p.members() =~= text_alone(t, false).items()[0].members());
    assert(p.with("cache_control"@, opencode_go::ephemeral()).members() =~= text_alone(
        t,
        true,
    ).items()[0].members());
    assert(seq![p] =~= text_alone(t, false).items());
    assert(opencode_go::cached_text(t).items() =~= text_alone(t, true).items());
}

/// A body in the OpenAI or the Alibaba format: the model as asked for, the
/// output cap under the name that the format has for it, the messages, and
/// every tool in order; it asks for a stream, with the usage at its end.
pub proof fn chat_bodies_say_the_request(
    req: StreamRequest,
    contents: Seq<JsonView>,
    format: WireFormat,
    with_cache: bool,
)
    requires
        format != WireFormat::Anthropic,
    ensures
        ({
            let system = text::view_opt(req.system);
            let m = text::views(req.messages@);
            let openai = format == WireFormat::OpenAI;
            let head = seq![
                ("model"@, JsonView::Str(req.model@)),
                (
                    if openai {
                        "max_completion_tokens"@
                    } else {
                        "max_tokens"@
                    },
                    JsonView::num(req.max_tokens as u64),
                ),
                (
                    "messages"@,
                    JsonView::Arr(
                        if openai {
                            opencode_go::openai_messages(system, m)
                        } else {
                            opencode_go::alibaba_messages(system, m, with_cache)
                        },
                    ),
                ),
                ("stream"@, JsonView::Bool(true)),
                (
                    "stream_options"@,
                    JsonView::Obj(seq![("include_usage"@, JsonView::Bool(true))]),
                ),
            ];
            opencode_go::request_body(req, contents, format, with_cache) == JsonView::Obj(
                if req.tools@.len() == 0 {
                    head
                } else {
                    head.push(
                        (
                            "tools"@,
                            JsonView::Arr(
                                Seq::new(
                                    req.tools@.len(),
                                    |k: int| function_named(req.tools@[k]),
                                ),
                            ),
                        ),
                    )
                },
            )
        }),
{
    broadcast use json::new_member_goes_last;

    lemma_names();
    lemma_body_names();
    let body = opencode_go::request_body(req, contents, format, with_cache);
    let options = JsonView::obj().with("include_usage"@, JsonView::Bool(true));
    assert(options.members() =~= seq![("include_usage"@, JsonView::Bool(true))]);
    assert forall|k: int| 0 <= k < req.tools@.len() implies opencode_go::function_json(
        #[trigger] req.tools@[k],
    ) == function_named(req.tools@[k]) by {
        lemma_function_named(req.tools@[k]);
    }
    assert(opencode_go::function_list(req.tools@) =~= Seq::new(
        req.tools@.len(),
        |k: int| function_named(req.tools@[k]),
    ));
    let system = text::view_opt(req.system);
    let m = text::views(req.messages@);
    let openai = format == WireFormat::OpenAI;
    let head = seq![
        ("model"@, JsonView::Str(req.model@)),
        (
            if openai {
                "max_completion_tokens"@
            } else {
                "max_tokens"@
            },
            JsonView::num(req.max_tokens as u64),
        ),
        (
            "messages"@,
            JsonView::Arr(
                if openai {
                    opencode_go::openai_messages(system, m)
                } else {
                    opencode_go::alibaba_messages(system, m, with_cache)
                },
            ),
        ),
        ("stream"@, JsonView::Bool(true)),
        ("stream_options"@, options),
    ];
    if req.tools@.len() == 0 {
        assert(body.members() =~= head);
    } else {
        assert(body.members() =~= head.push(
            ("tools"@, JsonView::Arr(opencode_go::function_list(req.tools@))),
        ));
    }
}

// ---------------------------------------------------------------------------
// Bodies in the Anthropic format
// ---------------------------------------------------------------------------

/// An image as a block.
pub open spec fn image_block(i: ImageView) -> JsonView {
    JsonView::Obj(
        seq![
            ("type"@, JsonView::Str("image"@)),
            (
                "source"@,
                JsonView::Obj(
                    seq![
                        ("type"@, JsonView::Str("base64"@)),
                        ("media_type"@, JsonView::Str(i.media_type)),
                        ("data"@, JsonView::Str(i.data)),
                    ],
                ),
            ),
        ],
    )
}

/// A text as a block.
pub open spec fn text_block(t: Seq<char>) -> JsonView {
    JsonView::Obj(seq![("type"@, JsonView::Str("text"@)), ("text"@, JsonView::Str(t))])
}

/// A tool result as a value: a text, or a list of blocks.
pub open spec fn result_value(c: ResultView) -> JsonView {
    match c {
        ResultView::Text(s) => JsonView::Str(s),
        ResultView::Blocks(b) => JsonView::Arr(
            Seq::new(
                b.len(),
                |k: int|
                    match b[k] {
                        ResultBlockView::Text(t) => text_block(t),
                        ResultBlockView::Image(i) => image_block(i),
                    },
            ),
        ),
    }
}

/// A block of a message on the wire.
pub open spec fn block_value(b: BlockView) -> JsonView {
    match b {
        BlockView::Text(t) => text_block(t),
        BlockView::Thinking { content, signature: None } => JsonView::Obj(
            seq![("type"@, JsonView::Str("thinking"@)), ("content"@, JsonView::Str(content))],
        ),
        BlockView::Thinking { content, signature: Some(x) } => JsonView::Obj(
            seq![
                ("type"@, JsonView::Str("thinking"@)),
                ("content"@, JsonView::Str(content)),
                ("signature"@, JsonView::Str(x)),
            ],
        ),
        BlockView::Image(i) => image_block(i),
        BlockView::ToolUse { id, name, input, .. } => JsonView::Obj(
            seq![
                ("type"@, JsonView::Str("tool_use"@)),
                ("id"@, JsonView::Str(id)),
                ("name"@, JsonView::Str(name)),
                ("input"@, input),
            ],
        ),
        BlockView::ToolResult { tool_use_id, content, is_error } => JsonView::Obj(
            seq![
                ("type"@, JsonView::Str("tool_result"@)),
                ("tool_use_id"@, JsonView::Str(tool_use_id)),
                ("content"@, result_value(content)),
                ("is_error"@, JsonView::Bool(is_error)),
            ],
        ),
    }
}

proof fn lemma_block_names()
    ensures
        "source"@.len() == 6,
        "media_type"@.len() == 10,
        "data"@.len() == 4,
        "data"@[0] == 'd',
        "signature"@.len() == 9,
        "input"@.len() == 5,
        "tool_use_id"@.len() == 11,
        "is_error"@.len() == 8,
{
    reveal_strlit("source");
    reveal_strlit("media_type");
    reveal_strlit("data");
    reveal_strlit("signature");
    reveal_strlit("input");
    reveal_strlit("tool_use_id");
    reveal_strlit("is_error");
}

proof fn lemma_image_block(i: ImageView)
    ensures
        content::image_of(i) == image_block(i),
{
    broadcast use json::new_member_goes_last;

    lemma_names();
    lemma_block_names();
    let source = content::typed("base64"@).with("media_type"@, JsonView::Str(i.media_type)).with(
        "data"@,
        JsonView::Str(i.data),
    );
    assert(source.members() =~= image_block(i).members()[1].1.members());
    assert(content::image_of(i).members() =~= image_block(i).members());
}

proof fn lemma_text_block(t: Seq<char>)
    ensures
        content::typed("text"@).with("text"@, JsonView::Str(t)) == text_block(t),
{
    broadcast use json::new_member_goes_last;

    lemma_names();
    assert(content::typed("text"@).with("text"@, JsonView::Str(t)).members() =~= text_block(
        t,
    ).members());
}

proof fn lemma_result_value(c: ResultView)
    ensures
        content::result_of(c) == result_value(c),
{
    if let ResultView::Blocks(b) = c {
        assert forall|k: int| 0 <= k < b.len() implies content::result_block_of(#[trigger] b[k])
            == match b[k] {
            ResultBlockView::Text(t) => text_block(t),
            ResultBlockView::Image(i) => image_block(i),
        } by {
            match b[k] {
                ResultBlockView::Text(t) => {
                    lemma_text_block(t);
                },
                ResultBlockView::Image(i) => {
                    lemma_image_block(i);
                },
            }
        }
        assert(content::result_of(c).items() =~= result_value(c).items());
    }
}

proof fn lemma_block_value(b: BlockView)
    ensures
        content::block_of(b) == block_value(b),
{
    broadcast use json::new_member_goes_last;

    lemma_names();
    lemma_block_names();
    match b {
        BlockView::Text(t) => {
            lemma_text_block(t);
        },
        BlockView::Image(i) => {
            lemma_image_block(i);
        },
        BlockView::ToolResult { content, .. } => {
            lemma_result_value(content);
            assert(content::block_of(b).members() =~= block_value(b).members());
        },
        _ => {
            assert(content::block_of(b).members() =~= block_value(b).members());
        },
    }
}

/// A message in the Anthropic format: its role, and its blocks in order.
pub open spec fn message_value(m: MessageView) -> JsonView {
    JsonView::Obj(
        seq![
            ("role"@, JsonView::Str(role_on_the_wire(m.role))),
            (
                "content"@,
                JsonView::Arr(Seq::new(m.content.len(), |k: int| block_value(m.content[k]))),
            ),
        ],
    )
}

/// The messages of a conversation in the Anthropic format: one for each that
/// is not of the system, in order.
pub open spec fn message_values(m: Seq<MessageView>) -> Seq<JsonView>
    decreases m.len(),
{
    if m.len() == 0 {
        Seq::empty()
    } else {
        message_values(m.drop_last()) + if m.last().role == Role::System {
            Seq::empty()
        } else {
            seq![message_value(m.last())]
        }
    }
}

proof fn lemma_message_values(m: Seq<MessageView>)
    ensures
        opencode_go::anthropic_messages(m, content::contents_of(m)) == message_values(m),
    decreases m.len(),
{
    broadcast use json::new_member_goes_last;

    let c = content::contents_of(m);
    lemma_names();
    if m.len() > 0 {
        let x = m.last();
        lemma_message_values(m.drop_last());
        assert(c.drop_last() =~= content::contents_of(m.drop_last()));
        assert(c.last() == content::content_of(x.content));
        assert forall|k: int| 0 <= k < x.content.len() implies content::block_of(
            #[trigger] x.content[k],
        ) == block_value(x.content[k]) by {
            lemma_block_value(x.content[k]);
        }
        assert(c.last().items() =~= Seq::new(
            x.content.len(),
            |k: int| block_value(x.content[k]),
        ));
        assert(opencode_go::anthropic_message(x.role, c.last()).members() =~= message_value(
            x,
        ).members());
        assert(opencode_go::anthropic_messages(m, c) =~= message_values(m));
    }
}

/// Two messages that are the same, but that the last block of the second may
/// have a cache marker.
pub open spec fn same_but_marker(a: JsonView, b: JsonView) -> bool {
    a == b || {
        &&& b.get("role"@) == a.get("role"@)
        &&& a.get("content"@) matches Some(JsonView::Arr(p)) && (b.get("content"@) matches Some(
            JsonView::Arr(q),
        ) && q.len() == p.len() && forall|k: int|
            0 <= k < p.len() ==> #[trigger] q[k] == p[k] || (k == p.len() - 1 && q[k] == p[k].with(
                "cache_control"@,
                marker(),
            )))
    }
}

/// The model that a body in the Anthropic format asks for: without the prefix
/// of another provider.
pub open spec fn is_model_asked_for(model: Seq<char>, asked: Seq<char>) -> bool {
    if exists|x: Seq<char>| model == #[trigger] ("oa/"@ + x) {
        model == "oa/"@ + asked
    } else if exists|x: Seq<char>| model == #[trigger] ("azure/"@ + x) {
        model == "azure/"@ + asked
    } else {
        asked == model
    }
}

proof fn lemma_model(model: Seq<char>)
    ensures
        is_model_asked_for(model, opencode_go::backend_model(model)),
{
    let a = "oa/"@;
    let b = "azure/"@;
    if text::has_prefix(model, a) {
        assert(model =~= a + model.skip(a.len() as int));
    } else if exists|x: Seq<char>| model == #[trigger] (a + x) {
        let x = choose|x: Seq<char>| model == #[trigger] (a + x);
        assert(model.take(a.len() as int) =~= a);
    } else if text::has_prefix(model, b) {
        assert(model =~= b + model.skip(b.len() as int));
    } else if exists|x: Seq<char>| model == #[trigger] (b + x) {
        let x = choose|x: Seq<char>| model == #[trigger] (b + x);
        assert(model.take(b.len() as int) =~= b);
    }
}

/// A body in the Anthropic format: the model without the prefix of another
/// provider, the output cap, every message that is not of the system with all
/// its blocks, the system prompt apart from them, the budget for reasoning
/// where there is one, and every tool in order; it asks for a stream. Cache
/// markers, where they are wanted, stand on the system prompt, on the last tool
/// and on at most one block.
pub proof fn anthropic_bodies_say_the_request(req: StreamRequest, with_cache: bool)
    ensures
        ({
            let m = text::views(req.messages@);
            let body = opencode_go::request_body(
                req,
                content::contents_of(m),
                WireFormat::Anthropic,
                with_cache,
            );
            let sent = body.get("messages"@);
            let plain = message_values(m);
            &&& body.get("model"@) matches Some(JsonView::Str(x)) && is_model_asked_for(
                req.model@,
                x,
            )
            &&& body.get("max_tokens"@) == Some(JsonView::num(req.max_tokens as u64))
            &&& body.get("stream"@) == Some(JsonView::Bool(true))
            &&& sent matches Some(JsonView::Arr(s)) && s.len() == plain.len() && forall|k: int|
                0 <= k < plain.len() ==> same_but_marker(plain[k], #[trigger] s[k]) && (!with_cache
                    || k != plain.len() - 2 ==> s[k] == plain[k])
            &&& body.get("system"@) == if req.system is Some && req.system->0@.len() > 0 {
                Some(text_alone(req.system->0@, with_cache))
            } else {
                None
            }
            &&& body.get("thinking"@) == if req.thinking_budget is Some && req.thinking_budget->0
                > 0 {
                Some(
                    JsonView::Obj(
                        seq![
                            ("type"@, JsonView::Str("enabled"@)),
                            ("budget_tokens"@, JsonView::num(req.thinking_budget->0 as u64)),
                        ],
                    ),
                )
            } else {
                None
            }
            &&& body.get("tools"@) == if req.tools@.len() > 0 {
                Some(
                    JsonView::Arr(
                        Seq::new(
                            req.tools@.len(),
                            |k: int|
                                tool_named(
                                    req.tools@[k],
                                    with_cache && k == req.tools@.len() - 1,
                                ),
                        ),
                    ),
                )
            } else {
                None
            }
        }),
{
    broadcast use json::member_put_is_read;

    let m = text::views(req.messages@);
    let contents = content::contents_of(m);
    let plain = message_values(m);
    let body = opencode_go::anthropic_body(req, contents, with_cache);
    lemma_names();
    lemma_body_names();
    lemma_marker();
    lemma_model(req.model@);
    lemma_message_values(m);
    if let Some(x) = req.system {
        lemma_text_alone(x@);
    }
    if let Some(budget) = req.thinking_budget {
        lemma_thinking(budget);
    }
    let list = opencode_go::anthropic_tools(req.tools@, with_cache);
    assert forall|k: int| 0 <= k < req.tools@.len() implies #[trigger] list[k] == tool_named(
        req.tools@[k],
        with_cache && k == req.tools@.len() - 1,
    ) by {
        lemma_tool_named(req.tools@[k]);
    }
    assert(list =~= Seq::new(
        req.tools@.len(),
        |k: int| tool_named(req.tools@[k], with_cache && k == req.tools@.len() - 1),
    ));
    let sent = if with_cache {
        opencode_go::mark_rolling(plain)
    } else {
        plain
    };
    assert(body.get("messages"@) == Some(JsonView::Arr(sent)));
    if with_cache && plain.len() >= 3 {
        lemma_rolling(plain[plain.len() - 2]);
    }
}

proof fn lemma_thinking(budget: u32)
    ensures
        JsonView::obj().with("type"@, JsonView::Str("enabled"@)).with(
            "budget_tokens"@,
            JsonView::num(budget as u64),
        ) == JsonView::Obj(
            seq![
                ("type"@, JsonView::Str("enabled"@)),
                ("budget_tokens"@, JsonView::num(budget as u64)),
            ],
        ),
{
    broadcast use json::new_member_goes_last;

    lemma_names();
    lemma_body_names();
    assert(JsonView::obj().with("type"@, JsonView::Str("enabled"@)).with(
        "budget_tokens"@,
        JsonView::num(budget as u64),
    ).members() =~= seq![
        ("type"@, JsonView::Str("enabled"@)),
        ("budget_tokens"@, JsonView::num(budget as u64)),
    ]);
}

proof fn lemma_rolling(m: JsonView)
    ensures
        same_but_marker(m, opencode_go::mark_last_block(m)),
{
    broadcast use json::member_put_is_read;

    lemma_names();
    lemma_marker();
}

} // verus!
