//! JSON values: the tree that the library reads and builds, and the crossing
//! to and from `serde_json`.

use vstd::prelude::*;

use crate::keyed;
use crate::text;

verus! {

/// `serde_json::Number`, carried through as it is.
#[verifier::external_type_specification]
#[verifier::external_body]
pub struct ExNumber(serde_json::Number);

/// `serde_json::Value`, the document tree of `serde_json`.
#[verifier::external_type_specification]
#[verifier::external_body]
pub struct ExValue(serde_json::Value);

/// `serde_json::Number::clone` gives the same number.
pub assume_specification[ <serde_json::Number as Clone>::clone ](
    n: &serde_json::Number,
) -> (r: serde_json::Number)
    ensures
        r == *n,
;

/// A number of a JSON document, told apart the way `serde_json::Number` does.
#[derive(Debug, PartialEq)]
pub enum JsonNumber {
    /// A non-negative integer.
    Pos(u64),
    /// A negative integer.
    Neg(i64),
    /// Anything else; carried through unread.
    Float(serde_json::Number),
}

/// A JSON value.
#[derive(Debug, PartialEq)]
pub enum Json {
    Null,
    Bool(bool),
    Num(JsonNumber),
    Str(String),
    Arr(Vec<Json>),
    Obj(Vec<(String, Json)>),
}

/// What a [`Json`] value stands for.
#[verifier::ext_equal]
pub enum JsonView {
    Null,
    Bool(bool),
    Num(JsonNumber),
    Str(Seq<char>),
    Arr(Seq<JsonView>),
    Obj(Seq<(Seq<char>, JsonView)>),
}

impl Json {
    /// The tree that this value stands for.
    pub open spec fn tree(&self) -> JsonView
        decreases self,
    {
        match self {
            Json::Null => JsonView::Null,
            Json::Bool(b) => JsonView::Bool(*b),
            Json::Num(n) => JsonView::Num(*n),
            Json::Str(s) => JsonView::Str(s@),
            Json::Arr(v) => JsonView::Arr(
                Seq::new(
                    v@.len(),
                    |i: int|
                        if 0 <= i < v@.len() {
                            v@[i].tree()
                        } else {
                            JsonView::Null
                        },
                ),
            ),
            Json::Obj(v) => JsonView::Obj(
                Seq::new(
                    v@.len(),
                    |i: int|
                        if 0 <= i < v@.len() {
                            (v@[i].0@, v@[i].1.tree())
                        } else {
                            (Seq::empty(), JsonView::Null)
                        },
                ),
            ),
        }
    }
}

impl View for Json {
    type V = JsonView;

    open spec fn view(&self) -> JsonView {
        self.tree()
    }
}

impl JsonView {
    /// The object without members.
    pub open spec fn obj() -> JsonView {
        JsonView::Obj(Seq::empty())
    }

    /// A text value.
    pub open spec fn text(s: Seq<char>) -> JsonView {
        JsonView::Str(s)
    }

    /// A number value.
    pub open spec fn num(n: u64) -> JsonView {
        JsonView::Num(JsonNumber::Pos(n))
    }

    /// The text that this value is, or `null` without one.
    pub open spec fn opt_text(s: Option<Seq<char>>) -> JsonView {
        match s {
            Some(t) => JsonView::Str(t),
            None => JsonView::Null,
        }
    }

    /// The members of an object; of another value, none.
    pub open spec fn members(self) -> Seq<(Seq<char>, JsonView)> {
        match self {
            JsonView::Obj(m) => m,
            _ => Seq::empty(),
        }
    }

    /// The items of an array; of another value, none.
    pub open spec fn items(self) -> Seq<JsonView> {
        match self {
            JsonView::Arr(v) => v,
            _ => Seq::empty(),
        }
    }

    /// This object with the member `key` set to `value`: in its old place
    /// where the object has that member, at the end where it has not.
    pub open spec fn with(self, key: Seq<char>, value: JsonView) -> JsonView {
        JsonView::Obj(set_member(self.members(), key, value))
    }

    /// The member `key` of an object.
    pub open spec fn get(self, key: Seq<char>) -> Option<JsonView> {
        find_member(self.members(), key)
    }

    /// The text that this value is.
    pub open spec fn as_text(self) -> Option<Seq<char>> {
        match self {
            JsonView::Str(s) => Some(s),
            _ => None,
        }
    }

    /// The unsigned integer that this value is.
    pub open spec fn as_u64(self) -> Option<u64> {
        match self {
            JsonView::Num(JsonNumber::Pos(n)) => Some(n),
            _ => None,
        }
    }

    /// The text of member `key`.
    pub open spec fn text_at(self, key: Seq<char>) -> Option<Seq<char>> {
        match self.get(key) {
            Some(v) => v.as_text(),
            None => None,
        }
    }

    /// The unsigned integer of member `key`.
    pub open spec fn u64_at(self, key: Seq<char>) -> Option<u64> {
        match self.get(key) {
            Some(v) => v.as_u64(),
            None => None,
        }
    }
}

/// The value of the first member named `key`.
pub open spec fn find_member(m: Seq<(Seq<char>, JsonView)>, key: Seq<char>) -> Option<JsonView>
    decreases m.len(),
{
    if m.len() == 0 {
        None
    } else if m[0].0 == key {
        Some(m[0].1)
    } else {
        find_member(m.skip(1), key)
    }
}

/// `m` with the first member named `key` set to `value`, or with the member
/// added at the end.
pub open spec fn set_member(
    m: Seq<(Seq<char>, JsonView)>,
    key: Seq<char>,
    value: JsonView,
) -> Seq<(Seq<char>, JsonView)>
    decreases m.len(),
{
    if m.len() == 0 {
        seq![(key, value)]
    } else if m[0].0 == key {
        seq![(key, value)] + m.skip(1)
    } else {
        seq![m[0]] + set_member(m.skip(1), key, value)
    }
}

/// What is set is what is found; every other member keeps its value.
pub proof fn member_set_is_found(
    m: Seq<(Seq<char>, JsonView)>,
    key: Seq<char>,
    value: JsonView,
    other: Seq<char>,
)
    ensures
        find_member(set_member(m, key, value), key) == Some(value),
        other != key ==> find_member(set_member(m, key, value), other) == find_member(m, other),
    decreases m.len(),
{
    let s = set_member(m, key, value);
    if m.len() == 0 {
        reveal_with_fuel(find_member, 2);
    } else if m[0].0 == key {
        assert(s.skip(1) == m.skip(1));
    } else {
        member_set_is_found(m.skip(1), key, value, other);
        assert(s.skip(1) == set_member(m.skip(1), key, value));
    }
}

/// Members are found and set as entries of a list are.
pub proof fn members_are_entries(m: Seq<(Seq<char>, JsonView)>, key: Seq<char>, value: JsonView)
    ensures
        find_member(m, key) == keyed::lookup(m, key),
        set_member(m, key, value) == keyed::with_entry(m, key, value),
    decreases m.len(),
{
    if m.len() > 0 {
        members_are_entries(m.skip(1), key, value);
    }
}

proof fn lemma_find_member(m: Seq<(Seq<char>, JsonView)>, key: Seq<char>, i: int)
    requires
        0 <= i <= m.len(),
        forall|k: int| 0 <= k < i ==> (#[trigger] m[k]).0 != key,
    ensures
        find_member(m, key) == find_member(m.skip(i), key),
    decreases i,
{
    if i == 0 {
        assert(m.skip(0) == m);
    } else {
        lemma_find_member(m.skip(1), key, i - 1);
        assert(m.skip(1).skip(i - 1) == m.skip(i));
    }
}

proof fn lemma_set_member(m: Seq<(Seq<char>, JsonView)>, key: Seq<char>, value: JsonView, i: int)
    requires
        0 <= i <= m.len(),
        forall|k: int| 0 <= k < i ==> (#[trigger] m[k]).0 != key,
        i < m.len() ==> m[i].0 == key,
    ensures
        i == m.len() ==> set_member(m, key, value) == m.push((key, value)),
        i < m.len() ==> set_member(m, key, value) == m.update(i, (key, value)),
    decreases i,
{
    if i > 0 {
        lemma_set_member(m.skip(1), key, value, i - 1);
        if i < m.len() {
            assert(set_member(m, key, value) =~= m.update(i, (key, value)));
        } else {
            assert(set_member(m, key, value) =~= m.push((key, value)));
        }
    } else if m.len() > 0 {
        assert(set_member(m, key, value) =~= m.update(0, (key, value)));
    } else {
        assert(set_member(m, key, value) =~= m.push((key, value)));
    }
}

/// A member that is put is read back, and every other member is read as before.
pub broadcast proof fn member_put_is_read(
    j: JsonView,
    key: Seq<char>,
    value: JsonView,
    other: Seq<char>,
)
    ensures
        #[trigger] j.with(key, value).get(other) == if other == key {
            Some(value)
        } else {
            j.get(other)
        },
{
    member_set_is_found(j.members(), key, value, other);
}

/// A member that an object does not have yet is added at the end.
pub broadcast proof fn new_member_goes_last(
    m: Seq<(Seq<char>, JsonView)>,
    key: Seq<char>,
    value: JsonView,
)
    requires
        forall|i: int| 0 <= i < m.len() ==> (#[trigger] m[i]).0 != key,
    ensures
        #[trigger] JsonView::Obj(m).with(key, value) == JsonView::Obj(m.push((key, value))),
{
    lemma_set_member(m, key, value, m.len() as int);
}

impl Json {
    /// The object without members.
    pub fn object() -> (r: Json)
        ensures
            r@ == JsonView::obj(),
    {
        let r = Json::Obj(Vec::new());
        proof {
            assert(r@.members() =~= Seq::empty());
        }
        r
    }

    /// The array without items.
    pub fn array() -> (r: Json)
        ensures
            r@ == JsonView::Arr(Seq::empty()),
    {
        let r = Json::Arr(Vec::new());
        proof {
            assert(r@.items() =~= Seq::empty());
        }
        r
    }

    /// A text value.
    pub fn text(s: &str) -> (r: Json)
        ensures
            r@ == JsonView::text(s@),
    {
        Json::Str(s.to_string())
    }

    /// A text value or `null`.
    pub fn opt_text(s: &Option<String>) -> (r: Json)
        ensures
            r@ == JsonView::opt_text(text::view_opt(*s)),
    {
        match s {
            Some(t) => Json::Str(t.clone()),
            None => Json::Null,
        }
    }

    /// A number value.
    pub fn num(n: u64) -> (r: Json)
        ensures
            r@ == JsonView::num(n),
    {
        Json::Num(JsonNumber::Pos(n))
    }

    /// Sets member `key` of an object; another value becomes an object with
    /// that one member.
    pub fn put(&mut self, key: &str, value: Json)
        ensures
            final(self)@ == old(self)@.with(key@, value@),
    {
        let ghost m0 = self@.members();
        let mut members: Vec<(String, Json)> = Vec::new();
        match self {
            Json::Obj(v) => {
                std::mem::swap(&mut members, v);
            },
            _ => {},
        }
        let ghost vs = members@;
        proof {
            assert(m0.len() == vs.len());
            assert forall|k: int| 0 <= k < vs.len() implies #[trigger] m0[k] == (
                vs[k].0@,
                vs[k].1@,
            ) by {}
        }
        let mut i: usize = 0;
        while i < members.len()
            invariant_except_break
                i <= members@.len(),
                members@ == vs,
                m0.len() == vs.len(),
                forall|k: int| 0 <= k < vs.len() ==> #[trigger] m0[k] == (vs[k].0@, vs[k].1@),
                forall|k: int| 0 <= k < i ==> (#[trigger] m0[k]).0 != key@,
            ensures
                members@ == vs,
                i <= vs.len(),
                forall|k: int| 0 <= k < i ==> (#[trigger] m0[k]).0 != key@,
                i < vs.len() ==> m0[i as int].0 == key@,
            decreases members@.len() - i,
        {
            if text::same(members[i].0.as_str(), key) {
                break;
            }
            i = i + 1;
        }
        proof {
            lemma_set_member(m0, key@, value@, i as int);
        }
        let ghost val = value@;
        if i < members.len() {
            members[i] = (key.to_string(), value);
        } else {
            members.push((key.to_string(), value));
        }
        *self = Json::Obj(members);
        proof {
            assert(self@.members() =~= set_member(m0, key@, val));
        }
    }

    /// Adds an item at the end of an array; another value becomes an array of
    /// that one item.
    pub fn append(&mut self, value: Json)
        ensures
            final(self)@ == JsonView::Arr(old(self)@.items().push(value@)),
    {
        let ghost m0 = self@.items();
        let ghost val = value@;
        let mut items: Vec<Json> = Vec::new();
        match self {
            Json::Arr(v) => {
                std::mem::swap(&mut items, v);
            },
            _ => {},
        }
        items.push(value);
        *self = Json::Arr(items);
        proof {
            assert(self@.items() =~= m0.push(val));
        }
    }

    /// The member `key` of an object.
    pub fn get(&self, key: &str) -> (r: Option<&Json>)
        ensures
            match r {
                Some(v) => self@.get(key@) == Some(v@),
                None => self@.get(key@) is None,
            },
    {
        match self {
            Json::Obj(v) => {
                let ghost m = self@.members();
                let mut i: usize = 0;
                while i < v.len()
                    invariant
                        i <= v@.len() == m.len(),
                        m == self@.members(),
                        forall|k: int|
                            0 <= k < v@.len() ==> #[trigger] m[k] == (v@[k].0@, v@[k].1@),
                        forall|k: int| 0 <= k < i ==> (#[trigger] m[k]).0 != key@,
                    decreases v@.len() - i,
                {
                    if text::same(v[i].0.as_str(), key) {
                        proof {
                            lemma_find_member(m, key@, i as int);
                            assert(m[i as int].0 == key@);
                            assert(m.skip(i as int)[0] == m[i as int]);
                        }
                        return Some(&v[i].1);
                    }
                    i = i + 1;
                }
                proof {
                    lemma_find_member(m, key@, i as int);
                }
                None
            },
            _ => None,
        }
    }

    /// The text that this value is.
    pub fn as_str(&self) -> (r: Option<&str>)
        ensures
            match r {
                Some(s) => self@.as_text() == Some(s@),
                None => self@.as_text() is None,
            },
    {
        match self {
            Json::Str(s) => Some(s.as_str()),
            _ => None,
        }
    }

    /// The unsigned integer that this value is.
    pub fn as_u64(&self) -> (r: Option<u64>)
        ensures
            r == self@.as_u64(),
    {
        match self {
            Json::Num(JsonNumber::Pos(n)) => Some(*n),
            _ => None,
        }
    }

    /// The text of member `key`.
    pub fn str_at(&self, key: &str) -> (r: Option<&str>)
        ensures
            match r {
                Some(s) => self@.text_at(key@) == Some(s@),
                None => self@.text_at(key@) is None,
            },
    {
        match self.get(key) {
            Some(v) => v.as_str(),
            None => None,
        }
    }

    /// The unsigned integer of member `key`.
    pub fn u64_at(&self, key: &str) -> (r: Option<u64>)
        ensures
            r == self@.u64_at(key@),
    {
        match self.get(key) {
            Some(v) => v.as_u64(),
            None => None,
        }
    }

    /// A deep copy.
    pub fn copy(&self) -> (r: Json)
        ensures
            r@ == self@,
        decreases self,
    {
        match self {
            Json::Null => Json::Null,
            Json::Bool(b) => Json::Bool(*b),
            Json::Num(n) => Json::Num(n.clone()),
            Json::Str(s) => Json::Str(s.clone()),
            Json::Arr(v) => {
                let mut items: Vec<Json> = Vec::new();
                let mut i: usize = 0;
                while i < v.len()
                    invariant
                        i <= v@.len(),
                        items@.len() == i,
                        *self == Json::Arr(*v),
                        forall|k: int| 0 <= k < i ==> (#[trigger] items@[k])@ == v@[k]@,
                    decreases v@.len() - i,
                {
                    proof {
                        assert(decreases_to!(*self => self->Arr_0));
                        assert(decreases_to!(*v => v@));
                        assert(decreases_to!(v@ => v@[i as int]));
                    }
                    items.push(v[i].copy());
                    i = i + 1;
                }
                let r = Json::Arr(items);
                proof {
                    assert(r@.items() =~= self@.items());
                }
                r
            },
            Json::Obj(v) => {
                let mut members: Vec<(String, Json)> = Vec::new();
                let mut i: usize = 0;
                while i < v.len()
                    invariant
                        i <= v@.len(),
                        members@.len() == i,
                        *self == Json::Obj(*v),
                        forall|k: int|
                            0 <= k < i ==> (#[trigger] members@[k]).0@ == v@[k].0@
                                && members@[k].1@ == v@[k].1@,
                    decreases v@.len() - i,
                {
                    proof {
                        assert(decreases_to!(*self => self->Obj_0));
                        assert(decreases_to!(*v => v@));
                        assert(decreases_to!(v@ => v@[i as int]));
                        assert(decreases_to!(v@[i as int] => v@[i as int].1));
                    }
                    members.push((v[i].0.clone(), v[i].1.copy()));
                    i = i + 1;
                }
                let r = Json::Obj(members);
                proof {
                    assert(r@.members() =~= self@.members());
                }
                r
            },
        }
    }
}

impl Clone for Json {
    fn clone(&self) -> (r: Json)
        ensures
            r@ == self@,
    {
        self.copy()
    }
}

impl Clone for JsonNumber {
    fn clone(&self) -> (r: JsonNumber)
        ensures
            r == *self,
    {
        match self {
            JsonNumber::Pos(x) => JsonNumber::Pos(*x),
            JsonNumber::Neg(x) => JsonNumber::Neg(*x),
            JsonNumber::Float(x) => JsonNumber::Float(x.clone()),
        }
    }
}

// ---------------------------------------------------------------------------
// The crossing to serde_json
// ---------------------------------------------------------------------------

/// What `serde_json::from_str` makes of a text: the document, or the message
/// of its error.
pub uninterp spec fn parsed_value(text: Seq<char>) -> Result<serde_json::Value, Seq<char>>;

/// The tree that a `serde_json::Value` holds.
pub uninterp spec fn value_tree(v: serde_json::Value) -> JsonView;

/// The `serde_json::Value` that holds a tree.
pub uninterp spec fn value_holding(t: JsonView) -> serde_json::Value;

/// The text that `serde_json::Value` displays as.
pub uninterp spec fn value_display(v: serde_json::Value) -> Seq<char>;

/// An object of texts, no name of which stands twice.
pub open spec fn is_text_object(t: JsonView) -> bool {
    &&& t is Obj
    &&& keyed::unique_names(t.members())
    &&& forall|i: int| 0 <= i < t.members().len() ==> (#[trigger] t.members()[i]).1 is Str
}

/// Two objects of texts that say the same under every name, in whatever order.
pub open spec fn same_texts(a: JsonView, b: JsonView) -> bool {
    &&& is_text_object(a)
    &&& is_text_object(b)
    &&& forall|k: Seq<char>| #[trigger] a.get(k) == b.get(k)
}

/// A text that reads as an object of texts.
pub open spec fn reads_as_texts(text: Seq<char>, t: JsonView) -> bool {
    match json_parse(text) {
        Ok(back) => same_texts(back, t),
        Err(_) => false,
    }
}

/// `serde_json::from_str`, reading a `serde_json::Value`. Whether the text is
/// a document, which one, and the message where it is not, follow from the
/// text alone.
#[verifier::external_body]
fn value_from_text(text: &str) -> (r: Result<serde_json::Value, String>)
    ensures
        match r {
            Ok(v) => parsed_value(text@) == Ok::<serde_json::Value, Seq<char>>(v),
            Err(e) => parsed_value(text@) == Err::<serde_json::Value, Seq<char>>(e@),
        },
{
    serde_json::from_str::<serde_json::Value>(text).map_err(|e| e.to_string())
}

/// `serde_json::Value`, taken apart variant by variant. The result is the
/// tree that the value holds; the members of an object come in the order in
/// which `serde_json::Map` hands them out.
#[verifier::external_body]
fn tree_from_value(v: serde_json::Value) -> (r: Json)
    ensures
        r@ == value_tree(v),
{
    match v {
        serde_json::Value::Null => Json::Null,
        serde_json::Value::Bool(b) => Json::Bool(b),
        serde_json::Value::Number(n) => Json::Num(match (n.as_u64(), n.as_i64()) {
            (Some(u), _) => JsonNumber::Pos(u),
            (None, Some(i)) => JsonNumber::Neg(i),
            (None, None) => JsonNumber::Float(n),
        }),
        serde_json::Value::String(s) => Json::Str(s),
        serde_json::Value::Array(a) => Json::Arr(a.into_iter().map(tree_from_value).collect()),
        serde_json::Value::Object(m) => Json::Obj(m.into_iter().map(|(k, x)| (k, tree_from_value(x))).collect()),
    }
}

/// `serde_json::Value`, put together variant by variant. Which value comes
/// out follows from the tree alone. An object of texts comes out as one that
/// says the same, though `serde_json::Map` may hold it in another order.
#[verifier::external_body]
fn value_from_tree(j: &Json) -> (r: serde_json::Value)
    ensures
        r == value_holding(j@),
        is_text_object(j@) ==> same_texts(value_tree(r), j@),
{
    match j {
        Json::Null => serde_json::Value::Null,
        Json::Bool(b) => serde_json::Value::Bool(*b),
        Json::Num(JsonNumber::Pos(u)) => serde_json::Value::from(*u),
        Json::Num(JsonNumber::Neg(i)) => serde_json::Value::from(*i),
        Json::Num(JsonNumber::Float(n)) => serde_json::Value::Number(n.clone()),
        Json::Str(s) => serde_json::Value::String(s.clone()),
        Json::Arr(a) => serde_json::Value::Array(a.iter().map(value_from_tree).collect()),
        Json::Obj(m) => serde_json::Value::Object(m.iter().map(|(k, x)| (k.clone(), value_from_tree(x))).collect()),
    }
}

/// `<serde_json::Value as Display>::fmt`, through `to_string`: the compact
/// text of the value, which follows from the value alone. The text of an
/// object of texts reads back as that object.
#[verifier::external_body]
fn value_to_text(v: &serde_json::Value) -> (r: String)
    ensures
        r@ == value_display(*v),
        is_text_object(value_tree(*v)) ==> reads_as_texts(r@, value_tree(*v)),
{
    v.to_string()
}

/// The indented text that `serde_json` writes for a value, as bytes.
pub uninterp spec fn value_pretty(v: serde_json::Value) -> Seq<u8>;

/// `serde_json::to_vec_pretty` of a `serde_json::Value`: the bytes follow from
/// the value alone. It has no member whose name is not a text, and a vector
/// takes every byte, so writing it does not fail.
#[verifier::external_body]
fn value_to_pretty(v: &serde_json::Value) -> (r: Result<Vec<u8>, String>)
    ensures
        match r {
            Ok(b) => b@ == value_pretty(*v),
            Err(_) => false,
        },
{
    serde_json::to_vec_pretty(v).map_err(|e| e.to_string())
}

/// What a text means as a JSON document: its tree, or the parser's message.
pub open spec fn json_parse(text: Seq<char>) -> Result<JsonView, Seq<char>> {
    match parsed_value(text) {
        Ok(v) => Ok(value_tree(v)),
        Err(e) => Err(e),
    }
}

/// The compact text of a JSON tree.
pub open spec fn json_text(t: JsonView) -> Seq<char> {
    value_display(value_holding(t))
}

/// The indented text of a JSON tree, as bytes.
pub open spec fn json_pretty(t: JsonView) -> Seq<u8> {
    value_pretty(value_holding(t))
}

/// Reads a JSON document.
pub fn parse_json(text: &str) -> (r: Result<Json, String>)
    ensures
        match r {
            Ok(j) => json_parse(text@) == Ok::<JsonView, Seq<char>>(j@),
            Err(e) => json_parse(text@) == Err::<JsonView, Seq<char>>(e@),
        },
{
    match value_from_text(text) {
        Ok(v) => Ok(tree_from_value(v)),
        Err(e) => Err(e),
    }
}

/// Writes a JSON document, compactly. An object of texts reads back as one
/// that says the same.
pub fn render_json(j: &Json) -> (r: String)
    ensures
        r@ == json_text(j@),
        is_text_object(j@) ==> reads_as_texts(r@, j@),
{
    let v = value_from_tree(j);
    value_to_text(&v)
}

/// Writes a JSON document with indentation.
pub fn render_pretty(j: &Json) -> (r: Result<Vec<u8>, String>)
    ensures
        r matches Ok(b) && b@ == json_pretty(j@),
{
    let v = value_from_tree(j);
    value_to_pretty(&v)
}

} // verus!
