//! Lists of values under names, and lists of names.

use vstd::prelude::*;

use crate::text;

verus! {

/// Values under names, in the order in which the names came.
pub struct Keyed<V> {
    pub entries: Vec<(String, V)>,
}

/// What stands under a name: the first entry of that name.
pub open spec fn lookup<T>(s: Seq<(Seq<char>, T)>, id: Seq<char>) -> Option<T>
    decreases s.len(),
{
    if s.len() == 0 {
        None
    } else if s[0].0 == id {
        Some(s[0].1)
    } else {
        lookup(s.skip(1), id)
    }
}

/// The list with a value under a name: in place of the entry of that name, or
/// at the end.
pub open spec fn with_entry<T>(s: Seq<(Seq<char>, T)>, id: Seq<char>, v: T) -> Seq<
    (Seq<char>, T),
>
    decreases s.len(),
{
    if s.len() == 0 {
        seq![(id, v)]
    } else if s[0].0 == id {
        seq![(id, v)] + s.skip(1)
    } else {
        seq![s[0]] + with_entry(s.skip(1), id, v)
    }
}

/// No name stands twice.
pub open spec fn unique_names<T>(s: Seq<(Seq<char>, T)>) -> bool {
    forall|i: int, j: int| 0 <= i < j < s.len() ==> (#[trigger] s[i]).0 != (#[trigger] s[j]).0
}

proof fn lemma_at<T>(s: Seq<(Seq<char>, T)>, id: Seq<char>, i: int, v: T)
    requires
        0 <= i <= s.len(),
        forall|k: int| 0 <= k < i ==> (#[trigger] s[k]).0 != id,
        i < s.len() ==> s[i].0 == id,
    ensures
        i < s.len() ==> lookup(s, id) == Some(s[i].1) && with_entry(s, id, v) == s.update(
            i,
            (id, v),
        ),
        i == s.len() ==> lookup(s, id) is None && with_entry(s, id, v) == s.push((id, v)),
    decreases i,
{
    if i > 0 {
        let t = s.skip(1);
        assert forall|k: int| 0 <= k < i - 1 implies (#[trigger] t[k]).0 != id by {
            assert(t[k] == s[k + 1]);
        }
        lemma_at(t, id, i - 1, v);
        if i < s.len() {
            assert(seq![s[0]] + t.update(i - 1, (id, v)) =~= s.update(i, (id, v)));
        } else {
            assert(seq![s[0]] + t.push((id, v)) =~= s.push((id, v)));
        }
    } else if s.len() > 0 {
        assert(seq![(id, v)] + s.skip(1) =~= s.update(0, (id, v)));
    } else {
        assert(seq![(id, v)] =~= s.push((id, v)));
    }
}

/// A name is found where it is listed, and only there.
pub proof fn found_is_listed<T>(s: Seq<(Seq<char>, T)>, id: Seq<char>)
    ensures
        lookup(s, id) is Some <==> exists|i: int| 0 <= i < s.len() && (#[trigger] s[i]).0 == id,
{
    lemma_place(s, id);
    let i = place(s, id);
    if i < s.len() {
        lemma_at(s, id, i, s[i].1);
        assert(s[i].0 == id);
    } else {
        lemma_absent(s, id);
    }
}

/// Setting an entry leaves no others in the list than were there.
pub proof fn entries_come_from<T>(s: Seq<(Seq<char>, T)>, id: Seq<char>, v: T)
    ensures
        forall|i: int|
            0 <= i < with_entry(s, id, v).len() ==> (#[trigger] with_entry(s, id, v)[i]) == (id, v)
                || s.contains(with_entry(s, id, v)[i]),
{
    lemma_place(s, id);
    let p = place(s, id);
    lemma_at(s, id, p, v);
    let w = with_entry(s, id, v);
    assert forall|i: int| 0 <= i < w.len() implies (#[trigger] w[i]) == (id, v) || s.contains(
        w[i],
    ) by {
        if i != p {
            assert(w[i] == s[i]);
        }
    }
}

/// Where a name first stands; the length where it does not.
pub open spec fn place<T>(s: Seq<(Seq<char>, T)>, id: Seq<char>) -> int
    decreases s.len(),
{
    if s.len() == 0 || s[0].0 == id {
        0
    } else {
        1 + place(s.skip(1), id)
    }
}

proof fn lemma_place<T>(s: Seq<(Seq<char>, T)>, id: Seq<char>)
    ensures
        0 <= place(s, id) <= s.len(),
        forall|k: int| 0 <= k < place(s, id) ==> (#[trigger] s[k]).0 != id,
        place(s, id) < s.len() ==> s[place(s, id)].0 == id,
    decreases s.len(),
{
    if s.len() > 0 && s[0].0 != id {
        let t = s.skip(1);
        lemma_place(t, id);
        assert forall|k: int| 0 <= k < place(s, id) implies (#[trigger] s[k]).0 != id by {
            if k > 0 {
                assert(t[k - 1] == s[k]);
            }
        }
    }
}

/// What was set is what is found; what stands under other names stays.
pub proof fn entry_set_is_found<T>(
    s: Seq<(Seq<char>, T)>,
    id: Seq<char>,
    v: T,
    other: Seq<char>,
)
    ensures
        lookup(with_entry(s, id, v), id) == Some(v),
        other != id ==> lookup(with_entry(s, id, v), other) == lookup(s, other),
    decreases s.len(),
{
    let w = with_entry(s, id, v);
    if s.len() == 0 {
        assert(w.skip(1) =~= Seq::empty());
        reveal_with_fuel(lookup, 2);
    } else if s[0].0 == id {
        assert(w.skip(1) =~= s.skip(1));
    } else {
        entry_set_is_found(s.skip(1), id, v, other);
        assert(w.skip(1) =~= with_entry(s.skip(1), id, v));
    }
}

/// Setting an entry keeps names from standing twice. The list grows by one
/// where the name is new, and not otherwise.
pub proof fn setting_keeps_names_unique<T>(s: Seq<(Seq<char>, T)>, id: Seq<char>, v: T)
    ensures
        unique_names(s) ==> unique_names(with_entry(s, id, v)),
        with_entry(s, id, v).len() == if lookup(s, id) is Some {
            s.len()
        } else {
            s.len() + 1
        },
{
    lemma_place(s, id);
    lemma_at(s, id, place(s, id), v);
}

/// Of two values set under one name, the later stays.
pub proof fn setting_twice<T>(s: Seq<(Seq<char>, T)>, id: Seq<char>, v: T, w: T)
    ensures
        with_entry(with_entry(s, id, v), id, w) == with_entry(s, id, w),
    decreases s.len(),
{
    let once = with_entry(s, id, v);
    if s.len() == 0 {
        assert(once.skip(1) =~= Seq::empty());
        assert(seq![(id, w)] + once.skip(1) =~= seq![(id, w)]);
    } else if s[0].0 == id {
        assert(once.skip(1) =~= s.skip(1));
    } else {
        setting_twice(s.skip(1), id, v, w);
        assert(once.skip(1) =~= with_entry(s.skip(1), id, v));
    }
}

impl<V: View> View for Keyed<V> {
    type V = Seq<(Seq<char>, V::V)>;

    open spec fn view(&self) -> Seq<(Seq<char>, V::V)> {
        Seq::new(self.entries@.len(), |i: int| (self.entries@[i].0@, self.entries@[i].1@))
    }
}

impl<V: View> Keyed<V> {
    pub fn new() -> (r: Self)
        ensures
            r@ == Seq::<(Seq<char>, V::V)>::empty(),
    {
        Keyed { entries: Vec::new() }
    }

    fn position(&self, id: &str) -> (r: usize)
        ensures
            r <= self@.len(),
            forall|k: int| 0 <= k < r ==> (#[trigger] self@[k]).0 != id@,
            r < self@.len() ==> self@[r as int].0 == id@,
    {
        let mut i: usize = 0;
        while i < self.entries.len() && !text::same(self.entries[i].0.as_str(), id)
            invariant
                i <= self.entries@.len(),
                forall|k: int| 0 <= k < i ==> (#[trigger] self@[k]).0 != id@,
            decreases self.entries@.len() - i,
        {
            assert(self@[i as int].0 == self.entries@[i as int].0@);
            i = i + 1;
        }
        i
    }

    /// What stands under a name.
    pub fn get(&self, id: &str) -> (r: Option<&V>)
        ensures
            match r {
                Some(v) => lookup(self@, id@) == Some(v@),
                None => lookup(self@, id@) is None,
            },
    {
        let i = self.position(id);
        if i < self.entries.len() {
            proof {
                lemma_at(self@, id@, i as int, self@[i as int].1);
            }
            Some(&self.entries[i].1)
        } else {
            proof {
                lemma_absent(self@, id@);
            }
            None
        }
    }

    /// What stands under a name, to be changed.
    pub fn get_mut(&mut self, id: &str) -> (r: Option<&mut V>)
        ensures
            match r {
                Some(v) => lookup(old(self)@, id@) == Some(v@) && final(self)@ == with_entry(
                    old(self)@,
                    id@,
                    final(v)@,
                ),
                None => lookup(old(self)@, id@) is None && *final(self) == *old(self),
            },
    {
        let i = self.position(id);
        let ghost before = self@;
        if i < self.entries.len() {
            proof {
                assert forall|v: V::V| #[trigger]
                    with_entry(before, id@, v) == before.update(i as int, (id@, v)) by {
                    lemma_at(before, id@, i as int, v);
                }
                lemma_at(before, id@, i as int, before[i as int].1);
            }
            Some(&mut self.entries[i].1)
        } else {
            proof {
                lemma_absent(before, id@);
            }
            None
        }
    }

    /// What stands under a name, to be changed; `default` is set where nothing
    /// does.
    pub fn entry_or(&mut self, id: &str, default: V) -> (r: &mut V)
        ensures
            r@ == (match lookup(old(self)@, id@) {
                Some(v) => v,
                None => default@,
            }),
            final(self)@ == with_entry(old(self)@, id@, final(r)@),
    {
        let ghost before = self@;
        let mut i = self.position(id);
        if i < self.entries.len() {
            proof {
                lemma_at(before, id@, i as int, before[i as int].1);
            }
        } else {
            proof {
                lemma_absent(before, id@);
            }
            i = self.entries.len();
            self.entries.push((id.to_string(), default));
        }
        proof {
            assert forall|v: V::V| #[trigger]
                with_entry(before, id@, v) == self@.update(i as int, (id@, v)) by {
                lemma_at(before, id@, i as int, v);
            }
        }
        &mut self.entries[i].1
    }

    /// Takes out what stands under a name.
    pub fn remove(&mut self, id: &str)
        ensures
            final(self)@ == without_entry(old(self)@, id@),
    {
        let ghost all = self@;
        let mut list: Vec<(String, V)> = Vec::new();
        std::mem::swap(&mut list, &mut self.entries);
        let ghost raw = list@;
        let mut kept: Keyed<V> = Keyed { entries: Vec::new() };
        assert(kept@ =~= without_entry(all.take(0), id@));
        for e in it: list
            invariant
                it.seq() == raw,
                all.len() == raw.len(),
                forall|k: int| 0 <= k < raw.len() ==> #[trigger] all[k] == (raw[k].0@, raw[k].1@),
                kept@ == without_entry(all.take(it.index()), id@),
        {
            let ghost before = kept@;
            proof {
                assert(all.take(it.index() + 1).drop_last() == all.take(it.index()));
                assert(all[it.index()] == (e.0@, e.1@));
                assert(all.take(it.index() + 1).last() == (e.0@, e.1@));
            }
            if !text::same(e.0.as_str(), id) {
                let ghost pair = (e.0@, e.1@);
                kept.entries.push(e);
                assert(kept@ =~= before.push(pair));
            }
        }
        proof {
            assert(all.take(all.len() as int) == all);
        }
        self.entries = kept.entries;
        assert(self@ =~= kept@);
    }

    /// Sets what stands under a name.
    pub fn set(&mut self, id: &str, v: V)
        ensures
            final(self)@ == with_entry(old(self)@, id@, v@),
    {
        let i = self.position(id);
        let ghost before = self@;
        proof {
            lemma_at(before, id@, i as int, v@);
        }
        if i < self.entries.len() {
            self.entries[i] = (id.to_string(), v);
            assert(self@ =~= before.update(i as int, (id@, v@)));
        } else {
            self.entries.push((id.to_string(), v));
            assert(self@ =~= before.push((id@, v@)));
        }
    }
}

/// The list without the entry of a name.
pub open spec fn without_entry<T>(s: Seq<(Seq<char>, T)>, id: Seq<char>) -> Seq<(Seq<char>, T)>
    decreases s.len(),
{
    if s.len() == 0 {
        s
    } else if s.last().0 == id {
        without_entry(s.drop_last(), id)
    } else {
        without_entry(s.drop_last(), id).push(s.last())
    }
}

/// An entry that was taken out is gone; the others stay.
pub proof fn entry_taken_out_is_gone<T>(
    s: Seq<(Seq<char>, T)>,
    id: Seq<char>,
    other: Seq<char>,
)
    ensures
        lookup(without_entry(s, id), id) is None,
        other != id ==> lookup(without_entry(s, id), other) == lookup(s, other),
    decreases s.len(),
{
    if s.len() > 0 {
        let t = s.drop_last();
        entry_taken_out_is_gone(t, id, other);
        let w = without_entry(t, id);
        assert(t.push(s.last()) =~= s);
        pushed_entry_is_last(t, s.last(), other);
        pushed_entry_is_last(w, s.last(), other);
        pushed_entry_is_last(w, s.last(), id);
    }
}

/// Taking out a name that is not there changes nothing; so does taking it out
/// twice.
pub proof fn absent_entry_changes_nothing<T>(s: Seq<(Seq<char>, T)>, id: Seq<char>)
    ensures
        lookup(s, id) is None ==> without_entry(s, id) == s,
        without_entry(without_entry(s, id), id) == without_entry(s, id),
    decreases s.len(),
{
    if s.len() > 0 {
        let t = s.drop_last();
        absent_entry_changes_nothing(t, id);
        assert(t.push(s.last()) =~= s);
        pushed_entry_is_last(t, s.last(), id);
        let w = without_entry(t, id);
        assert(w.push(s.last()).drop_last() =~= w);
    }
}

/// An entry at the end is found unless one of its name comes before it.
pub proof fn pushed_entry_is_last<T>(s: Seq<(Seq<char>, T)>, x: (Seq<char>, T), id: Seq<char>)
    ensures
        lookup(s.push(x), id) == match lookup(s, id) {
            Some(v) => Some(v),
            None => if x.0 == id {
                Some(x.1)
            } else {
                None
            },
        },
    decreases s.len(),
{
    let p = s.push(x);
    if s.len() == 0 {
        assert(p.skip(1) =~= Seq::empty());
        reveal_with_fuel(lookup, 2);
    } else {
        pushed_entry_is_last(s.skip(1), x, id);
        assert(p.skip(1) =~= s.skip(1).push(x));
    }
}

proof fn lemma_absent<T>(s: Seq<(Seq<char>, T)>, id: Seq<char>)
    requires
        forall|k: int| 0 <= k < s.len() ==> (#[trigger] s[k]).0 != id,
    ensures
        lookup(s, id) is None,
    decreases s.len(),
{
    if s.len() > 0 {
        let t = s.skip(1);
        assert forall|k: int| 0 <= k < t.len() implies (#[trigger] t[k]).0 != id by {
            assert(t[k] == s[k + 1]);
        }
        lemma_absent(t, id);
    }
}

// ---------------------------------------------------------------------------
// Lists of names
// ---------------------------------------------------------------------------

/// The names without one of them.
pub open spec fn without_name(s: Seq<Seq<char>>, id: Seq<char>) -> Seq<Seq<char>>
    decreases s.len(),
{
    if s.len() == 0 {
        s
    } else if s.last() == id {
        without_name(s.drop_last(), id)
    } else {
        without_name(s.drop_last(), id).push(s.last())
    }
}

/// A name that was taken out is gone; the others stay.
pub proof fn name_taken_out_is_gone(s: Seq<Seq<char>>, id: Seq<char>, other: Seq<char>)
    ensures
        !without_name(s, id).contains(id),
        other != id ==> (without_name(s, id).contains(other) == s.contains(other)),
    decreases s.len(),
{
    if s.len() > 0 {
        let t = s.drop_last();
        name_taken_out_is_gone(t, id, other);
        let w = without_name(t, id);
        assert(t.push(s.last()) =~= s);
        lemma_push_contains(t, s.last(), other);
        lemma_push_contains(w, s.last(), other);
        lemma_push_contains(w, s.last(), id);
    }
}

pub(crate) proof fn lemma_push_contains<T>(s: Seq<T>, x: T, y: T)
    ensures
        s.push(x).contains(y) == (s.contains(y) || x == y),
{
    let p = s.push(x);
    if s.contains(y) {
        let i = choose|i: int| 0 <= i < s.len() && s[i] == y;
        assert(p[i] == y);
    }
    if x == y {
        assert(p[s.len() as int] == y);
    }
    if p.contains(y) {
        let i = choose|i: int| 0 <= i < p.len() && p[i] == y;
        if i < s.len() {
            assert(s[i] == y);
        }
    }
}

/// Whether a name is in the list.
pub fn has_name(names: &Vec<String>, id: &str) -> (r: bool)
    ensures
        r == text::views(names@).contains(id@),
{
    let ghost all = text::views(names@);
    let mut i: usize = 0;
    while i < names.len()
        invariant
            i <= names@.len(),
            all == text::views(names@),
            forall|k: int| 0 <= k < i ==> all[k] != id@,
        decreases names@.len() - i,
    {
        assert(all[i as int] == names@[i as int]@);
        if text::same(names[i].as_str(), id) {
            return true;
        }
        i = i + 1;
    }
    false
}

/// Takes a name out of the list.
pub fn take_out(names: &mut Vec<String>, id: &str)
    ensures
        text::views(final(names)@) == without_name(text::views(old(names)@), id@),
{
    let ghost all = text::views(names@);
    let mut list: Vec<String> = Vec::new();
    std::mem::swap(&mut list, names);
    let mut kept: Vec<String> = Vec::new();
    for s in it: list
        invariant
            text::views(it.seq()) == all,
            text::views(kept@) == without_name(all.take(it.index()), id@),
    {
        broadcast use text::views_push;

        proof {
            assert(all.take(it.index() + 1).drop_last() == all.take(it.index()));
            assert(all[it.index()] == s@);
            assert(all.take(it.index() + 1).last() == s@);
        }
        if !text::same(s.as_str(), id) {
            kept.push(s);
        }
    }
    proof {
        assert(all.take(all.len() as int) == all);
    }
    *names = kept;
}

} // verus!
