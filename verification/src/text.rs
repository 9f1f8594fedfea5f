//! Text as sequences of characters: what the usual string operations mean,
//! and executable versions of them.

use vstd::prelude::*;

verus! {

// ---------------------------------------------------------------------------
// Building and comparing
// ---------------------------------------------------------------------------

/// `String::push` appends one character.
pub assume_specification[ String::push ](s: &mut String, c: char)
    ensures
        final(s)@ == old(s)@.push(c),
;

/// `==` on `str` holds exactly when both sides have the same characters.
pub assume_specification[ <str as PartialEq<str>>::eq ](a: &str, b: &str) -> (r: bool)
    ensures
        r == (a@ == b@),
;

/// Whether two strings have the same characters.
pub fn same(a: &str, b: &str) -> (r: bool)
    ensures
        r == (a@ == b@),
{
    *a == *b
}

/// The characters of `s`, in order.
pub fn chars_of(s: &str) -> (v: Vec<char>)
    ensures
        v@ == s@,
{
    let mut v: Vec<char> = Vec::new();
    for c in it: s.chars()
        invariant
            v@ == it.seq().take(it.index()),
            it.seq() == s@,
    {
        v.push(c);
    }
    v
}

/// The characters `v[from..to]` as a string.
pub fn string_from(v: &Vec<char>, from: usize, to: usize) -> (r: String)
    requires
        from <= to <= v@.len(),
    ensures
        r@ == v@.subrange(from as int, to as int),
{
    let mut r = String::new();
    let mut i: usize = from;
    while i < to
        invariant
            from <= i <= to <= v@.len(),
            r@ == v@.subrange(from as int, i as int),
        decreases to - i,
    {
        r.push(v[i]);
        i = i + 1;
    }
    r
}

/// A copy of an optional string.
pub fn copy_opt(s: &Option<String>) -> (r: Option<String>)
    ensures
        r == *s,
{
    match s {
        Some(x) => Some(x.clone()),
        None => None,
    }
}

/// The view of each item of a list.
pub open spec fn views<T: View>(v: Seq<T>) -> Seq<T::V> {
    Seq::new(v.len(), |i: int| v[i]@)
}

/// The view of an optional value.
pub open spec fn view_opt<T: View>(x: Option<T>) -> Option<T::V> {
    match x {
        Some(y) => Some(y@),
        None => None,
    }
}

/// Adding an item adds its view.
pub broadcast proof fn views_push<T: View>(v: Seq<T>, x: T)
    ensures
        #[trigger] views(v.push(x)) == views(v).push(x@),
{
    assert(views(v.push(x)) =~= views(v).push(x@));
}

// ---------------------------------------------------------------------------
// White space
// ---------------------------------------------------------------------------

/// The characters with the Unicode `White_Space` property.
pub open spec fn is_space(c: char) -> bool {
    ||| '\u{9}' <= c <= '\u{d}'
    ||| c == ' '
    ||| c == '\u{85}'
    ||| c == '\u{a0}'
    ||| c == '\u{1680}'
    ||| '\u{2000}' <= c <= '\u{200a}'
    ||| c == '\u{2028}'
    ||| c == '\u{2029}'
    ||| c == '\u{202f}'
    ||| c == '\u{205f}'
    ||| c == '\u{3000}'
}

pub fn space(c: char) -> (r: bool)
    ensures
        r == is_space(c),
{
    ('\u{9}' <= c && c <= '\u{d}') || c == ' ' || c == '\u{85}' || c == '\u{a0}' || c == '\u{1680}'
        || ('\u{2000}' <= c && c <= '\u{200a}') || c == '\u{2028}' || c == '\u{2029}' || c
        == '\u{202f}' || c == '\u{205f}' || c == '\u{3000}'
}

/// `s` without its leading white space.
pub open spec fn trim_start_of(s: Seq<char>) -> Seq<char>
    decreases s.len(),
{
    if s.len() > 0 && is_space(s[0]) {
        trim_start_of(s.skip(1))
    } else {
        s
    }
}

/// `s` without its trailing white space.
pub open spec fn trim_end_of(s: Seq<char>) -> Seq<char>
    decreases s.len(),
{
    if s.len() > 0 && is_space(s.last()) {
        trim_end_of(s.drop_last())
    } else {
        s
    }
}

/// `s` without white space at either end.
pub open spec fn trim_of(s: Seq<char>) -> Seq<char> {
    trim_end_of(trim_start_of(s))
}

pub fn trim_start(s: &str) -> (r: &str)
    ensures
        r@ == trim_start_of(s@),
{
    let v = chars_of(s);
    let n = v.len();
    let mut i: usize = 0;
    proof {
        assert(s@.skip(0) == s@);
    }
    while i < n && space(v[i])
        invariant
            i <= n == v@.len(),
            v@ == s@,
            trim_start_of(s@) == trim_start_of(s@.skip(i as int)),
        decreases n - i,
    {
        proof {
            assert(s@.skip(i as int).skip(1) == s@.skip(i + 1));
        }
        i = i + 1;
    }
    proof {
        assert(s@.skip(i as int) == s@.subrange(i as int, n as int));
    }
    s.substring_char(i, n)
}

pub fn trim_end(s: &str) -> (r: &str)
    ensures
        r@ == trim_end_of(s@),
{
    let v = chars_of(s);
    let mut n = v.len();
    proof {
        assert(s@.take(n as int) == s@);
    }
    while n > 0 && space(v[n - 1])
        invariant
            n <= v@.len(),
            v@ == s@,
            trim_end_of(s@) == trim_end_of(s@.take(n as int)),
        decreases n,
    {
        proof {
            assert(s@.take(n as int).drop_last() == s@.take(n - 1));
        }
        n = n - 1;
    }
    s.substring_char(0, n)
}

pub fn trim(s: &str) -> (r: &str)
    ensures
        r@ == trim_of(s@),
{
    trim_end(trim_start(s))
}

/// `s` without the characters `c` at its end.
pub open spec fn trim_end_char_of(s: Seq<char>, c: char) -> Seq<char>
    decreases s.len(),
{
    if s.len() > 0 && s.last() == c {
        trim_end_char_of(s.drop_last(), c)
    } else {
        s
    }
}

pub fn trim_end_char(s: &str, c: char) -> (r: &str)
    ensures
        r@ == trim_end_char_of(s@, c),
{
    let v = chars_of(s);
    let mut n = v.len();
    proof {
        assert(s@.take(n as int) == s@);
    }
    while n > 0 && v[n - 1] == c
        invariant
            n <= v@.len(),
            v@ == s@,
            trim_end_char_of(s@, c) == trim_end_char_of(s@.take(n as int), c),
        decreases n,
    {
        proof {
            assert(s@.take(n as int).drop_last() == s@.take(n - 1));
        }
        n = n - 1;
    }
    s.substring_char(0, n)
}

/// The maximal runs of non-blank characters, in order.
pub open spec fn words_of(s: Seq<char>) -> Seq<Seq<char>>
    decreases s.len(),
{
    if s.len() == 0 {
        Seq::empty()
    } else {
        let before = words_of(s.drop_last());
        let c = s.last();
        if is_space(c) {
            before
        } else if s.len() == 1 || is_space(s[s.len() - 2]) {
            before.push(seq![c])
        } else {
            before.update(before.len() - 1, before.last().push(c))
        }
    }
}

proof fn lemma_words_nonempty(s: Seq<char>)
    requires
        s.len() > 0,
        !is_space(s.last()),
    ensures
        words_of(s).len() > 0,
    decreases s.len(),
{
    if s.len() > 1 && !is_space(s[s.len() - 2]) {
        lemma_words_nonempty(s.drop_last());
    }
}

/// How many runs of non-blank characters `s` has.
pub fn count_words(s: &str) -> (r: usize)
    ensures
        r == words_of(s@).len(),
{
    let v = chars_of(s);
    let mut n: usize = 0;
    let mut i: usize = 0;
    while i < v.len()
        invariant
            i <= v@.len(),
            v@ == s@,
            n == words_of(s@.take(i as int)).len(),
            n <= i,
        decreases v@.len() - i,
    {
        proof {
            let t = s@.take(i + 1);
            assert(t.drop_last() == s@.take(i as int));
            assert(t.last() == v@[i as int]);
            if i > 0 {
                assert(t[t.len() - 2] == v@[i - 1]);
                if !is_space(v@[i - 1]) {
                    lemma_words_nonempty(s@.take(i as int));
                }
            }
        }
        if !space(v[i]) && (i == 0 || space(v[i - 1])) {
            n = n + 1;
        }
        i = i + 1;
    }
    proof {
        assert(s@.take(i as int) == s@);
    }
    n
}

// ---------------------------------------------------------------------------
// Prefixes, suffixes, searching, replacing
// ---------------------------------------------------------------------------

pub open spec fn has_prefix(s: Seq<char>, p: Seq<char>) -> bool {
    p.len() <= s.len() && s.take(p.len() as int) == p
}

pub open spec fn has_suffix(s: Seq<char>, p: Seq<char>) -> bool {
    p.len() <= s.len() && s.skip(s.len() - p.len()) == p
}

/// `p` occurs in `s` at position `i`.
pub open spec fn occurs_at(s: Seq<char>, p: Seq<char>, i: int) -> bool {
    0 <= i && i + p.len() <= s.len() && s.subrange(i, i + p.len()) == p
}

pub open spec fn contains_text(s: Seq<char>, p: Seq<char>) -> bool {
    exists|i: int| occurs_at(s, p, i)
}

pub fn starts_with(s: &str, p: &str) -> (r: bool)
    ensures
        r == has_prefix(s@, p@),
{
    let n = p.unicode_len();
    if s.unicode_len() < n {
        return false;
    }
    proof {
        assert(s@.take(n as int) == s@.subrange(0, n as int));
    }
    same(s.substring_char(0, n), p)
}

pub fn ends_with(s: &str, p: &str) -> (r: bool)
    ensures
        r == has_suffix(s@, p@),
{
    let n = p.unicode_len();
    let m = s.unicode_len();
    if m < n {
        return false;
    }
    proof {
        assert(s@.skip(m - n) == s@.subrange(m - n, m as int));
    }
    same(s.substring_char(m - n, m), p)
}

/// What follows the prefix `p` in `s`, where `s` starts with `p`.
pub fn strip_prefix<'a>(s: &'a str, p: &str) -> (r: Option<&'a str>)
    ensures
        match r {
            Some(rest) => has_prefix(s@, p@) && rest@ == s@.skip(p@.len() as int),
            None => !has_prefix(s@, p@),
        },
{
    if starts_with(s, p) {
        let n = p.unicode_len();
        let m = s.unicode_len();
        proof {
            assert(s@.skip(n as int) == s@.subrange(n as int, m as int));
        }
        Some(s.substring_char(n, m))
    } else {
        None
    }
}

fn occurs_here(v: &Vec<char>, p: &Vec<char>, i: usize) -> (r: bool)
    requires
        i + p@.len() <= v@.len(),
    ensures
        r == occurs_at(v@, p@, i as int),
{
    let n = v.len();
    let mut k: usize = 0;
    while k < p.len()
        invariant
            k <= p@.len(),
            i + p@.len() <= v@.len() == n,
            forall|j: int| 0 <= j < k ==> v@[i + j] == p@[j],
        decreases p@.len() - k,
    {
        if v[i + k] != p[k] {
            proof {
                assert(v@.subrange(i as int, i + p@.len())[k as int] != p@[k as int]);
            }
            return false;
        }
        k = k + 1;
    }
    proof {
        assert(v@.subrange(i as int, i + p@.len()) == p@);
    }
    true
}

pub fn contains(s: &str, p: &str) -> (r: bool)
    ensures
        r == contains_text(s@, p@),
{
    find(s, p).is_some()
}

/// The first position at which `p` occurs in `s`.
pub fn find(s: &str, p: &str) -> (r: Option<usize>)
    ensures
        match r {
            Some(i) => occurs_at(s@, p@, i as int) && forall|k: int|
                0 <= k < i ==> !occurs_at(s@, p@, k),
            None => !contains_text(s@, p@),
        },
{
    let v = chars_of(s);
    let q = chars_of(p);
    if v.len() < q.len() {
        return None;
    }
    let last = v.len() - q.len();
    let mut i: usize = 0;
    while i < last
        invariant
            i <= last,
            last == v@.len() - q@.len(),
            v@ == s@,
            q@ == p@,
            forall|k: int| 0 <= k < i ==> !occurs_at(s@, p@, k),
        decreases last - i,
    {
        if occurs_here(&v, &q, i) {
            return Some(i);
        }
        i = i + 1;
    }
    if occurs_here(&v, &q, last) {
        Some(last)
    } else {
        None
    }
}

/// What comes before the first occurrence of `p` in `s`; all of `s` where there
/// is none.
pub open spec fn before_first(s: Seq<char>, p: Seq<char>) -> Seq<char>
    decreases s.len(),
{
    if s.len() == 0 || has_prefix(s, p) {
        Seq::empty()
    } else {
        seq![s[0]] + before_first(s.skip(1), p)
    }
}

/// What comes after the first occurrence of `p` in `s`.
pub open spec fn after_first(s: Seq<char>, p: Seq<char>) -> Option<Seq<char>>
    decreases s.len(),
{
    if has_prefix(s, p) {
        Some(s.skip(p.len() as int))
    } else if s.len() == 0 {
        None
    } else {
        after_first(s.skip(1), p)
    }
}

proof fn lemma_first(s: Seq<char>, p: Seq<char>, i: int)
    requires
        occurs_at(s, p, i),
        forall|k: int| 0 <= k < i ==> !occurs_at(s, p, k),
    ensures
        before_first(s, p) == s.take(i),
        after_first(s, p) == Some(s.skip(i + p.len())),
    decreases i,
{
    if i == 0 {
        assert(s.take(p.len() as int) == s.subrange(0, p.len() as int));
    } else {
        assert(!occurs_at(s, p, 0));
        assert(s.take(p.len() as int) == s.subrange(0, p.len() as int));
        let t = s.skip(1);
        assert(t.subrange(i - 1, i - 1 + p.len()) == s.subrange(i, i + p.len()));
        assert forall|k: int| 0 <= k < i - 1 implies !occurs_at(t, p, k) by {
            assert(!occurs_at(s, p, k + 1));
            if k + p.len() <= t.len() {
                assert(t.subrange(k, k + p.len()) == s.subrange(k + 1, k + 1 + p.len()));
            }
        }
        lemma_first(t, p, i - 1);
        assert(seq![s[0]] + t.take(i - 1) =~= s.take(i));
        assert(t.skip(i - 1 + p.len()) =~= s.skip(i + p.len()));
    }
}

/// A text in which a mark does not occur has nothing after it and all of itself
/// before it.
pub proof fn text_without_mark_is_whole(s: Seq<char>, p: Seq<char>)
    requires
        !contains_text(s, p),
    ensures
        before_first(s, p) == s,
        after_first(s, p) is None,
    decreases s.len(),
{
    assert(!occurs_at(s, p, 0));
    if p.len() <= s.len() {
        assert(s.take(p.len() as int) == s.subrange(0, p.len() as int));
    }
    if s.len() > 0 {
        let t = s.skip(1);
        assert forall|k: int| !occurs_at(t, p, k) by {
            assert(!occurs_at(s, p, k + 1));
            if 0 <= k && k + p.len() <= t.len() {
                assert(t.subrange(k, k + p.len()) == s.subrange(k + 1, k + 1 + p.len()));
            }
        }
        text_without_mark_is_whole(t, p);
        assert(seq![s[0]] + t =~= s);
    }
}

/// What comes before the first occurrence of `p` in `s`, and what after it.
pub fn split_once<'a>(s: &'a str, p: &str) -> (r: (&'a str, Option<&'a str>))
    ensures
        r.0@ == before_first(s@, p@),
        view_opt(r.1) == after_first(s@, p@),
{
    let n = s.unicode_len();
    match find(s, p) {
        Some(i) => {
            let m = p.unicode_len();
            proof {
                lemma_first(s@, p@, i as int);
                assert(s@.take(i as int) == s@.subrange(0, i as int));
                assert(s@.skip(i + m) == s@.subrange(i + m, n as int));
            }
            (s.substring_char(0, i), Some(s.substring_char(i + m, n)))
        },
        None => {
            proof {
                text_without_mark_is_whole(s@, p@);
            }
            (s, None)
        },
    }
}

/// A letter between `A` and `Z` in lower case; every other character as it is.
pub open spec fn ascii_lower_char(c: char) -> char {
    if 'A' <= c && c <= 'Z' {
        (c as u32 + 32) as char
    } else {
        c
    }
}

/// `s` with the letters `A` to `Z` in lower case.
pub open spec fn ascii_lower_of(s: Seq<char>) -> Seq<char> {
    Seq::new(s.len(), |i: int| ascii_lower_char(s[i]))
}

/// `s` with the letters `A` to `Z` in lower case.
pub fn ascii_lower(s: &str) -> (r: String)
    ensures
        r@ == ascii_lower_of(s@),
{
    let v = chars_of(s);
    let mut r = String::new();
    let mut i: usize = 0;
    while i < v.len()
        invariant
            i <= v@.len(),
            v@ == s@,
            r@ == Seq::new(i as nat, |k: int| ascii_lower_char(s@[k])),
        decreases v@.len() - i,
    {
        let c = v[i];
        let d = if 'A' <= c && c <= 'Z' {
            ((c as u8) + 32) as char
        } else {
            c
        };
        proof {
            assert(Seq::new((i + 1) as nat, |k: int| ascii_lower_char(s@[k])) =~= Seq::new(
                i as nat,
                |k: int| ascii_lower_char(s@[k]),
            ).push(d));
        }
        r.push(d);
        i = i + 1;
    }
    r
}

/// `s` with every occurrence of `p` replaced by `w`, found left to right
/// without overlap.
pub open spec fn replace_of(s: Seq<char>, p: Seq<char>, w: Seq<char>) -> Seq<char>
    decreases s.len(),
{
    if p.len() == 0 || s.len() < p.len() {
        s
    } else if has_prefix(s, p) {
        w + replace_of(s.skip(p.len() as int), p, w)
    } else {
        seq![s[0]] + replace_of(s.skip(1), p, w)
    }
}

pub fn replace(s: &str, p: &str, w: &str) -> (r: String)
    requires
        p@.len() > 0,
    ensures
        r@ == replace_of(s@, p@, w@),
{
    let v = chars_of(s);
    let q = chars_of(p);
    let mut r = String::new();
    let mut i: usize = 0;
    proof {
        assert(s@.skip(0) == s@);
        assert(Seq::<char>::empty() + replace_of(s@, p@, w@) == replace_of(s@, p@, w@));
    }
    while i < v.len() && v.len() - i >= q.len()
        invariant
            i <= v@.len(),
            v@ == s@,
            q@ == p@,
            p@.len() > 0,
            r@ + replace_of(s@.skip(i as int), p@, w@) == replace_of(s@, p@, w@),
        decreases v@.len() - i,
    {
        let ghost rest = s@.skip(i as int);
        let ghost before = r@;
        proof {
            assert(rest.take(q@.len() as int) == v@.subrange(i as int, i + q@.len()));
        }
        if occurs_here(&v, &q, i) {
            r.append(w);
            proof {
                assert(rest.skip(p@.len() as int) == s@.skip(i + p@.len()));
                assert(before + (w@ + replace_of(rest.skip(p@.len() as int), p@, w@)) == (before
                    + w@) + replace_of(rest.skip(p@.len() as int), p@, w@));
            }
            i = i + q.len();
        } else {
            r.push(v[i]);
            proof {
                assert(rest.skip(1) == s@.skip(i + 1));
                assert(before + (seq![rest[0]] + replace_of(rest.skip(1), p@, w@)) == before.push(
                    rest[0],
                ) + replace_of(rest.skip(1), p@, w@));
            }
            i = i + 1;
        }
    }
    let tail = string_from(&v, i, v.len());
    proof {
        assert(s@.skip(i as int) == v@.subrange(i as int, v@.len() as int));
    }
    r.append(tail.as_str());
    r
}

// ---------------------------------------------------------------------------
// Splitting and joining
// ---------------------------------------------------------------------------

/// The pieces of `s` between the separators `sep`; always at least one piece.
pub open spec fn split_of(s: Seq<char>, sep: char) -> Seq<Seq<char>>
    decreases s.len(),
{
    if s.len() == 0 {
        seq![Seq::empty()]
    } else {
        let before = split_of(s.drop_last(), sep);
        if s.last() == sep {
            before.push(Seq::empty())
        } else {
            before.update(before.len() - 1, before.last().push(s.last()))
        }
    }
}

pub proof fn lemma_split_nonempty(s: Seq<char>, sep: char)
    ensures
        split_of(s, sep).len() >= 1,
    decreases s.len(),
{
    if s.len() > 0 {
        lemma_split_nonempty(s.drop_last(), sep);
    }
}

pub fn split(s: &str, sep: char) -> (r: Vec<String>)
    ensures
        views(r@) == split_of(s@, sep),
{
    let v = chars_of(s);
    let mut r: Vec<String> = Vec::new();
    let mut piece = String::new();
    let mut i: usize = 0;
    proof {
        assert(s@.take(0) == Seq::<char>::empty());
        assert(views(r@).push(piece@) =~= seq![Seq::<char>::empty()]);
    }
    while i < v.len()
        invariant
            i <= v@.len(),
            v@ == s@,
            views(r@).push(piece@) == split_of(s@.take(i as int), sep),
        decreases v@.len() - i,
    {
        let ghost before = split_of(s@.take(i as int), sep);
        proof {
            assert(s@.take(i + 1).drop_last() == s@.take(i as int));
            assert(s@.take(i + 1).last() == v@[i as int]);
        }
        if v[i] == sep {
            let ghost rv = views(r@);
            r.push(piece);
            piece = String::new();
            proof {
                assert(views(r@) =~= before);
            }
        } else {
            piece.push(v[i]);
            proof {
                assert(views(r@).push(piece@) =~= before.update(
                    before.len() - 1,
                    before.last().push(v@[i as int]),
                ));
            }
        }
        i = i + 1;
    }
    let ghost whole = views(r@).push(piece@);
    r.push(piece);
    proof {
        assert(s@.take(i as int) == s@);
        assert(views(r@) =~= whole);
    }
    r
}

/// A line without the carriage return that ends it.
pub open spec fn strip_cr(s: Seq<char>) -> Seq<char> {
    if s.len() > 0 && s.last() == '\r' {
        s.drop_last()
    } else {
        s
    }
}

/// The lines of `s`: what stands between line feeds, without a carriage
/// return before a line feed; a final line feed starts no further line.
pub open spec fn lines_of(s: Seq<char>) -> Seq<Seq<char>> {
    let parts = split_of(s, '\n');
    let ended = Seq::new((parts.len() - 1) as nat, |i: int| strip_cr(parts[i]));
    if parts.last().len() == 0 {
        ended
    } else {
        ended.push(parts.last())
    }
}

pub fn lines(s: &str) -> (r: Vec<String>)
    ensures
        views(r@) == lines_of(s@),
{
    let parts = split(s, '\n');
    proof {
        lemma_split_nonempty(s@, '\n');
        assert(parts@.len() == views(parts@).len());
    }
    let ghost p = split_of(s@, '\n');
    let last = parts.len() - 1;
    let mut r: Vec<String> = Vec::new();
    let mut i: usize = 0;
    while i < last
        invariant
            i <= last,
            last == parts@.len() - 1,
            p == views(parts@),
            r@.len() == i,
            forall|k: int| 0 <= k < i ==> (#[trigger] r@[k])@ == strip_cr(p[k]),
        decreases last - i,
    {
        let n = parts[i].as_str().unicode_len();
        proof {
            assert(p[i as int] == parts@[i as int]@);
        }
        if n > 0 && parts[i].as_str().get_char(n - 1) == '\r' {
            let t = parts[i].as_str().substring_char(0, n - 1).to_string();
            proof {
                assert(t@ == p[i as int].drop_last());
            }
            r.push(t);
        } else {
            r.push(parts[i].clone());
        }
        i = i + 1;
    }
    proof {
        assert(p.last() == parts@[last as int]@);
    }
    if !parts[last].as_str().is_empty() {
        r.push(parts[last].clone());
    }
    proof {
        assert(views(r@) =~= lines_of(s@));
    }
    r
}

/// `parts` in order with `sep` between neighbours.
pub open spec fn join_of(parts: Seq<Seq<char>>, sep: Seq<char>) -> Seq<char>
    decreases parts.len(),
{
    if parts.len() == 0 {
        Seq::empty()
    } else if parts.len() == 1 {
        parts[0]
    } else {
        join_of(parts.drop_last(), sep) + sep + parts.last()
    }
}

pub fn join(parts: &Vec<String>, sep: &str) -> (r: String)
    ensures
        r@ == join_of(views(parts@), sep@),
{
    let mut r = String::new();
    let mut i: usize = 0;
    while i < parts.len()
        invariant
            i <= parts@.len(),
            r@ == join_of(views(parts@).take(i as int), sep@),
        decreases parts@.len() - i,
    {
        let ghost t = views(parts@).take(i + 1);
        proof {
            assert(t.drop_last() == views(parts@).take(i as int));
            assert(t.last() == parts@[i as int]@);
        }
        if i > 0 {
            r.append(sep);
        }
        r.append(parts[i].as_str());
        proof {
            if i == 0 {
                assert(r@ == t[0]);
            }
        }
        i = i + 1;
    }
    proof {
        assert(views(parts@).take(i as int) == views(parts@));
    }
    r
}

/// No piece holds the separator.
pub proof fn pieces_hold_no_separator(s: Seq<char>, sep: char, i: int)
    requires
        0 <= i < split_of(s, sep).len(),
    ensures
        !split_of(s, sep)[i].contains(sep),
    decreases s.len(),
{
    if s.len() > 0 {
        let before = split_of(s.drop_last(), sep);
        lemma_split_nonempty(s.drop_last(), sep);
        if i < before.len() {
            pieces_hold_no_separator(s.drop_last(), sep, i);
            if s.last() != sep && i == before.len() - 1 {
                let x = before.last();
                assert forall|k: int| 0 <= k < x.len() + 1 implies x.push(s.last())[k] != sep by {
                    if k < x.len() {
                        assert(x.contains(x[k]));
                    }
                }
            }
        }
    }
}

/// No line holds a line feed.
pub proof fn lines_hold_no_line_feed(s: Seq<char>, i: int)
    requires
        0 <= i < lines_of(s).len(),
    ensures
        !lines_of(s)[i].contains('\n'),
{
    let parts = split_of(s, '\n');
    lemma_split_nonempty(s, '\n');
    pieces_hold_no_separator(s, '\n', i);
    let x = parts[i];
    if lines_of(s)[i].contains('\n') {
        let k = choose|k: int| 0 <= k < lines_of(s)[i].len() && lines_of(s)[i][k] == '\n';
        assert(x[k] == '\n');
        assert(x.contains('\n'));
    }
}

proof fn lemma_split_of_sum(s: Seq<char>, x: Seq<char>, sep: char)
    requires
        !x.contains(sep),
    ensures
        split_of(s + x, sep) == split_of(s, sep).update(
            split_of(s, sep).len() - 1,
            split_of(s, sep).last() + x,
        ),
    decreases x.len(),
{
    let p = split_of(s, sep);
    lemma_split_nonempty(s, sep);
    if x.len() == 0 {
        assert(s + x =~= s);
        assert(p.last() + x =~= p.last());
        assert(p.update(p.len() - 1, p.last()) =~= p);
    } else {
        let y = x.drop_last();
        assert forall|k: int| 0 <= k < y.len() implies y[k] != sep by {
            assert(x.contains(x[k]));
        }
        assert(x.contains(x.last()));
        lemma_split_of_sum(s, y, sep);
        assert((s + x).drop_last() =~= s + y);
        assert((s + x).last() == x.last());
        assert((p.last() + y).push(x.last()) =~= p.last() + x);
        assert(split_of(s + x, sep) =~= p.update(p.len() - 1, p.last() + x));
    }
}

proof fn lemma_split_of_lines(ls: Seq<Seq<char>>)
    requires
        ls.len() > 0,
        forall|i: int| 0 <= i < ls.len() ==> !(#[trigger] ls[i]).contains('\n'),
    ensures
        split_of(join_of(ls, "\n"@) + "\n"@, '\n') == ls.push(Seq::empty()),
    decreases ls.len(),
{
    reveal_strlit("\n");
    let front = ls.drop_last();
    let x = ls.last();
    let head = if ls.len() == 1 {
        Seq::empty()
    } else {
        join_of(front, "\n"@) + "\n"@
    };
    if ls.len() == 1 {
        assert(split_of(head, '\n') == seq![Seq::<char>::empty()]);
        assert(head + x =~= join_of(ls, "\n"@));
        assert(front.push(Seq::empty()) =~= seq![Seq::<char>::empty()]);
    } else {
        lemma_split_of_lines(front);
    }
    let p = split_of(head, '\n');
    assert(p == front.push(Seq::empty()));
    lemma_split_of_sum(head, x, '\n');
    assert(p.last() + x =~= x);
    assert(p.update(p.len() - 1, x) =~= ls);
    let body = head + x;
    assert(body =~= join_of(ls, "\n"@));
    assert((body + "\n"@).drop_last() =~= body);
    assert((body + "\n"@).last() == '\n');
}

/// Lines that are joined and ended by line feeds are read back, but for a
/// carriage return at the end of one.
pub proof fn joined_lines_are_read_back(ls: Seq<Seq<char>>)
    requires
        ls.len() > 0,
        forall|i: int| 0 <= i < ls.len() ==> !(#[trigger] ls[i]).contains('\n'),
    ensures
        lines_of(join_of(ls, "\n"@) + "\n"@) == ls.map_values(|x: Seq<char>| strip_cr(x)),
{
    lemma_split_of_lines(ls);
    assert(lines_of(join_of(ls, "\n"@) + "\n"@) =~= ls.map_values(|x: Seq<char>| strip_cr(x)));
}

// ---------------------------------------------------------------------------
// Numbers and columns
// ---------------------------------------------------------------------------

pub open spec fn digit_char(d: int) -> char {
    (48 + d) as char
}

/// `n` in decimal, without leading zeros.
pub open spec fn decimal_of(n: nat) -> Seq<char>
    decreases n,
{
    if n < 10 {
        seq![digit_char(n as int)]
    } else {
        decimal_of(n / 10).push(digit_char((n % 10) as int))
    }
}

pub fn decimal(n: u64) -> (r: String)
    ensures
        r@ == decimal_of(n as nat),
    decreases n,
{
    let mut r = if n < 10 {
        String::new()
    } else {
        decimal(n / 10)
    };
    let d = (n % 10) as u8;
    r.push((48u8 + d) as char);
    proof {
        if n < 10 {
            assert(r@ == seq![digit_char(n as int)]);
        }
    }
    r
}

/// A signed number in decimal.
pub open spec fn signed_decimal_of(n: int) -> Seq<char> {
    if n < 0 {
        "-"@ + decimal_of((-n) as nat)
    } else {
        decimal_of(n as nat)
    }
}

pub fn signed_decimal(n: i32) -> (r: String)
    ensures
        r@ == signed_decimal_of(n as int),
{
    if n < 0 {
        let mut r = "-".to_string();
        let m = decimal((-(n as i64)) as u64);
        r.append(m.as_str());
        r
    } else {
        decimal(n as u64)
    }
}

/// `n` copies of `c`.
pub open spec fn repeat_of(c: char, n: nat) -> Seq<char> {
    Seq::new(n, |i: int| c)
}

pub fn repeat(c: char, n: usize) -> (r: String)
    ensures
        r@ == repeat_of(c, n as nat),
{
    let mut r = String::new();
    let mut i: usize = 0;
    while i < n
        invariant
            i <= n,
            r@ == repeat_of(c, i as nat),
        decreases n - i,
    {
        r.push(c);
        i = i + 1;
        proof {
            assert(r@ =~= repeat_of(c, i as nat));
        }
    }
    proof {
        assert(r@ =~= repeat_of(c, n as nat));
    }
    r
}

/// `s` filled up with blanks on the right to `width` characters.
pub open spec fn pad_right_of(s: Seq<char>, width: nat) -> Seq<char> {
    if s.len() >= width {
        s
    } else {
        s + repeat_of(' ', (width - s.len()) as nat)
    }
}

pub fn pad_right(s: &str, width: usize) -> (r: String)
    ensures
        r@ == pad_right_of(s@, width as nat),
{
    let n = s.unicode_len();
    let mut r = s.to_string();
    if n < width {
        let fill = repeat(' ', width - n);
        r.append(fill.as_str());
    }
    r
}

/// `s` filled up with `c` on the left to `width` characters.
pub open spec fn pad_left_of(s: Seq<char>, c: char, width: nat) -> Seq<char> {
    if s.len() >= width {
        s
    } else {
        repeat_of(c, (width - s.len()) as nat) + s
    }
}

pub fn pad_left(s: &str, c: char, width: usize) -> (r: String)
    ensures
        r@ == pad_left_of(s@, c, width as nat),
{
    let n = s.unicode_len();
    if n < width {
        let mut r = repeat(c, width - n);
        r.append(s);
        r
    } else {
        s.to_string()
    }
}

/// The decimal digits.
pub open spec fn is_digit(c: char) -> bool {
    '0' <= c <= '9'
}

/// The number that a run of decimal digits stands for.
pub open spec fn digits_value(s: Seq<char>) -> nat
    decreases s.len(),
{
    if s.len() == 0 {
        0
    } else {
        digits_value(s.drop_last()) * 10 + (s.last() as int - 48) as nat
    }
}

pub open spec fn all_digits(s: Seq<char>) -> bool {
    s.len() > 0 && forall|i: int| 0 <= i < s.len() ==> is_digit(#[trigger] s[i])
}

/// The digits of a number text after its optional sign.
pub open spec fn unsigned_part(s: Seq<char>) -> Seq<char> {
    if s.len() > 0 && (s[0] == '+' || s[0] == '-') {
        s.skip(1)
    } else {
        s
    }
}

/// The integer that `s` denotes: an optional sign and at least one digit.
pub open spec fn integer_of(s: Seq<char>) -> Option<int> {
    let d = unsigned_part(s);
    if !all_digits(d) {
        None
    } else if s[0] == '-' {
        Some(-(digits_value(d) as int))
    } else {
        Some(digits_value(d) as int)
    }
}

proof fn lemma_digits_monotonic(s: Seq<char>, i: int)
    requires
        0 <= i <= s.len(),
        forall|k: int| 0 <= k < s.len() ==> is_digit(#[trigger] s[k]),
    ensures
        digits_value(s.take(i)) <= digits_value(s),
    decreases s.len(),
{
    if i == s.len() {
        assert(s.take(i) == s);
    } else {
        lemma_digits_monotonic(s.drop_last(), i);
        assert(s.drop_last().take(i) == s.take(i));
        assert(is_digit(s.last()));
    }
}

/// The number of a run of digits `v[from..]`, where it is at most `max`.
fn digits_upto(v: &Vec<char>, from: usize, max: u64) -> (r: Option<u64>)
    requires
        from <= v@.len(),
    ensures
        match r {
            Some(n) => all_digits(v@.skip(from as int)) && n == digits_value(v@.skip(from as int))
                && n <= max,
            None => !all_digits(v@.skip(from as int)) || digits_value(v@.skip(from as int)) > max,
        },
{
    if from == v.len() {
        return None;
    }
    let ghost d = v@.skip(from as int);
    let mut n: u64 = 0;
    let mut i: usize = from;
    while i < v.len()
        invariant
            from <= i <= v@.len(),
            d == v@.skip(from as int),
            forall|k: int| 0 <= k < i - from ==> is_digit(#[trigger] d[k]),
            n == digits_value(d.take(i - from)),
            n <= max,
        decreases v@.len() - i,
    {
        let c = v[i];
        proof {
            assert(d[i - from] == v@[i as int]);
        }
        if !('0' <= c && c <= '9') {
            proof {
                assert(!is_digit(d[i - from]));
            }
            return None;
        }
        proof {
            assert(d.take(i - from + 1).drop_last() == d.take(i - from));
            assert(d.take(i - from + 1).last() == c);
        }
        let x = (c as u32 - 48) as u64;
        if n > (u64::MAX - x) / 10 || n * 10 + x > max {
            proof {
                if all_digits(d) {
                    lemma_digits_monotonic(d, i - from + 1);
                }
            }
            return None;
        }
        n = n * 10 + x;
        i = i + 1;
    }
    proof {
        assert(d.take(i - from) == d);
    }
    Some(n)
}

/// The `i64` that `s` denotes, where it denotes one in range.
pub fn parse_i64(s: &str) -> (r: Option<i64>)
    ensures
        match r {
            Some(n) => integer_of(s@) == Some(n as int),
            None => match integer_of(s@) {
                Some(n) => n < i64::MIN || n > i64::MAX,
                None => true,
            },
        },
{
    let v = chars_of(s);
    if v.len() == 0 {
        return None;
    }
    let from: usize = if v[0] == '+' || v[0] == '-' {
        1
    } else {
        0
    };
    proof {
        assert(v@.skip(from as int) == unsigned_part(s@));
    }
    if v[0] == '-' {
        match digits_upto(&v, from, 0x8000_0000_0000_0000) {
            Some(n) => if n == 0x8000_0000_0000_0000 {
                Some(i64::MIN)
            } else {
                Some(-(n as i64))
            },
            None => None,
        }
    } else {
        match digits_upto(&v, from, 0x7fff_ffff_ffff_ffff) {
            Some(n) => Some(n as i64),
            None => None,
        }
    }
}

/// The `u32` that `s` denotes: an optional `+` and digits, in range.
pub fn parse_u32(s: &str) -> (r: Option<u32>)
    ensures
        r == u32_of(s@),
{
    let v = chars_of(s);
    if v.len() == 0 {
        return None;
    }
    let from: usize = if v[0] == '+' {
        1
    } else {
        0
    };
    proof {
        assert(s@.skip(0) == s@);
    }
    match digits_upto(&v, from, 0xffff_ffff) {
        Some(n) => Some(n as u32),
        None => None,
    }
}

/// The `u32` that a text denotes.
pub open spec fn u32_of(s: Seq<char>) -> Option<u32> {
    let d = if s.len() > 0 && s[0] == '+' {
        s.skip(1)
    } else {
        s
    };
    if all_digits(d) && digits_value(d) <= u32::MAX {
        Some(digits_value(d) as u32)
    } else {
        None
    }
}

// ---------------------------------------------------------------------------
// Order
// ---------------------------------------------------------------------------

/// `a` stands before `b` in the order of their characters, or is `b`.
pub open spec fn le(a: Seq<char>, b: Seq<char>) -> bool
    decreases a.len(),
{
    if a.len() == 0 {
        true
    } else if b.len() == 0 {
        false
    } else if a[0] != b[0] {
        a[0] < b[0]
    } else {
        le(a.skip(1), b.skip(1))
    }
}

pub proof fn le_is_total(a: Seq<char>, b: Seq<char>)
    ensures
        le(a, b) || le(b, a),
    decreases a.len(),
{
    if a.len() > 0 && b.len() > 0 && a[0] == b[0] {
        le_is_total(a.skip(1), b.skip(1));
    }
}

pub proof fn le_is_transitive(a: Seq<char>, b: Seq<char>, c: Seq<char>)
    requires
        le(a, b),
        le(b, c),
    ensures
        le(a, c),
    decreases a.len(),
{
    if a.len() > 0 && a[0] == b[0] && b[0] == c[0] {
        le_is_transitive(a.skip(1), b.skip(1), c.skip(1));
    }
}

pub proof fn le_is_antisymmetric(a: Seq<char>, b: Seq<char>)
    requires
        le(a, b),
        le(b, a),
    ensures
        a == b,
    decreases a.len(),
{
    if a.len() > 0 && b.len() > 0 {
        le_is_antisymmetric(a.skip(1), b.skip(1));
        assert(a =~= seq![a[0]] + a.skip(1));
        assert(b =~= seq![b[0]] + b.skip(1));
    }
}

/// Whether `a` stands before `b` in the order of their characters, or is `b`.
pub fn at_most(a: &str, b: &str) -> (r: bool)
    ensures
        r == le(a@, b@),
{
    let x = chars_of(a);
    let y = chars_of(b);
    let mut i: usize = 0;
    proof {
        assert(x@.skip(0) == x@);
        assert(y@.skip(0) == y@);
    }
    while i < x.len() && i < y.len()
        invariant
            i <= x@.len(),
            i <= y@.len(),
            x@ == a@,
            y@ == b@,
            le(a@, b@) == le(x@.skip(i as int), y@.skip(i as int)),
        decreases x@.len() - i,
    {
        if x[i] != y[i] {
            return x[i] < y[i];
        }
        proof {
            assert(x@.skip(i as int).skip(1) == x@.skip(i + 1));
            assert(y@.skip(i as int).skip(1) == y@.skip(i + 1));
        }
        i = i + 1;
    }
    i == x.len()
}

/// In ascending order.
pub open spec fn sorted(v: Seq<Seq<char>>) -> bool {
    forall|i: int, j: int| 0 <= i <= j < v.len() ==> le(#[trigger] v[i], #[trigger] v[j])
}

pub proof fn le_is_reflexive(a: Seq<char>)
    ensures
        le(a, a),
    decreases a.len(),
{
    if a.len() > 0 {
        le_is_reflexive(a.skip(1));
    }
}

/// `x` put into an ascending list, behind everything at most as large.
pub open spec fn insert_of(v: Seq<Seq<char>>, x: Seq<char>) -> Seq<Seq<char>>
    decreases v.len(),
{
    if v.len() == 0 || le(v.last(), x) {
        v.push(x)
    } else {
        insert_of(v.drop_last(), x).push(v.last())
    }
}

/// The list in ascending order; equal items keep their order.
pub open spec fn sort_of(v: Seq<Seq<char>>) -> Seq<Seq<char>>
    decreases v.len(),
{
    if v.len() == 0 {
        v
    } else {
        insert_of(sort_of(v.drop_last()), v.last())
    }
}

proof fn lemma_insert_sorted(v: Seq<Seq<char>>, x: Seq<char>)
    requires
        sorted(v),
    ensures
        sorted(insert_of(v, x)),
        insert_of(v, x).to_multiset() == v.to_multiset().insert(x),
        insert_of(v, x).len() == v.len() + 1,
        forall|i: int| 0 <= i < insert_of(v, x).len() ==> v.contains(#[trigger] insert_of(v, x)[i])
            || insert_of(v, x)[i] == x,
    decreases v.len(),
{
    broadcast use vstd::seq_lib::group_to_multiset_ensures;

    let r = insert_of(v, x);
    if v.len() == 0 || le(v.last(), x) {
        assert forall|i: int, j: int| 0 <= i <= j < r.len() implies le(
            #[trigger] r[i],
            #[trigger] r[j],
        ) by {
            if j == v.len() {
                if i == j {
                    le_is_reflexive(x);
                } else {
                    assert(le(v[i], v[v.len() - 1]));
                    le_is_transitive(v[i], v.last(), x);
                }
            }
        }
        assert forall|i: int| 0 <= i < r.len() implies v.contains(#[trigger] r[i]) || r[i]
            == x by {
            if i < v.len() {
                assert(v[i] == r[i]);
            }
        }
    } else {
        let w = v.drop_last();
        let q = insert_of(w, x);
        lemma_insert_sorted(w, x);
        le_is_total(v.last(), x);
        assert(w.push(v.last()) =~= v);
        assert forall|i: int, j: int| 0 <= i <= j < r.len() implies le(
            #[trigger] r[i],
            #[trigger] r[j],
        ) by {
            if j == q.len() {
                if i == j {
                    le_is_reflexive(v.last());
                } else {
                    assert(r[i] == q[i]);
                    if q[i] != x {
                        let k = choose|k: int| 0 <= k < w.len() && w[k] == q[i];
                        assert(w.contains(q[i]));
                        assert(le(v[k], v[v.len() - 1]));
                    }
                }
            } else {
                assert(r[i] == q[i] && r[j] == q[j]);
            }
        }
        assert forall|i: int| 0 <= i < r.len() implies v.contains(#[trigger] r[i]) || r[i]
            == x by {
            if i < q.len() {
                assert(r[i] == q[i]);
                if q[i] != x {
                    assert(w.contains(q[i]));
                    let k = choose|k: int| 0 <= k < w.len() && w[k] == q[i];
                    assert(v[k] == q[i]);
                }
            } else {
                assert(v[v.len() - 1] == r[i]);
            }
        }
        assert(r.to_multiset() == q.to_multiset().insert(v.last()));
        assert(v.to_multiset() == w.to_multiset().insert(v.last()));
        assert(r.to_multiset() =~= v.to_multiset().insert(x));
    }
}

/// Sorting gives the same items in ascending order.
pub proof fn sorting_orders(v: Seq<Seq<char>>)
    ensures
        sorted(sort_of(v)),
        sort_of(v).to_multiset() == v.to_multiset(),
        sort_of(v).len() == v.len(),
    decreases v.len(),
{
    broadcast use vstd::seq_lib::group_to_multiset_ensures;

    if v.len() > 0 {
        sorting_orders(v.drop_last());
        lemma_insert_sorted(sort_of(v.drop_last()), v.last());
        assert(v.drop_last().push(v.last()) =~= v);
    }
}

proof fn lemma_insert_of(v: Seq<Seq<char>>, x: Seq<char>, i: int)
    requires
        0 <= i <= v.len(),
        i > 0 ==> le(v[i - 1], x),
        forall|k: int| i <= k < v.len() ==> !le(#[trigger] v[k], x),
    ensures
        insert_of(v, x) == v.insert(i, x),
    decreases v.len(),
{
    if v.len() > 0 && i < v.len() {
        lemma_insert_of(v.drop_last(), x, i);
        assert(v.insert(i, x) =~= v.drop_last().insert(i, x).push(v.last()));
    } else {
        assert(v.insert(i, x) =~= v.push(x));
    }
}

/// The list in ascending order.
pub fn sort(v: Vec<String>) -> (r: Vec<String>)
    ensures
        views(r@) == sort_of(views(v@)),
{
    let ghost all = views(v@);
    let mut r: Vec<String> = Vec::new();
    proof {
        assert(views(r@) =~= sort_of(all.take(0)));
    }
    for s in it: v
        invariant
            it.seq() == v@,
            all == views(v@),
            views(r@) == sort_of(all.take(it.index())),
    {
        let ghost k = it.index();
        let ghost before = views(r@);
        proof {
            assert(all.take(k + 1).drop_last() == all.take(k));
            assert(all.take(k + 1).last() == s@);
        }
        let mut i = r.len();
        while i > 0 && !at_most(r[i - 1].as_str(), s.as_str())
            invariant
                i <= r@.len(),
                before == views(r@),
                forall|j: int| i <= j < before.len() ==> !le(#[trigger] before[j], s@),
            decreases i,
        {
            i = i - 1;
        }
        let ghost x = s@;
        proof {
            lemma_insert_of(before, x, i as int);
        }
        r.insert(i, s);
        proof {
            assert(views(r@) =~= before.insert(i as int, x));
        }
    }
    proof {
        assert(all.take(all.len() as int) == all);
    }
    r
}

// ---------------------------------------------------------------------------
// What holds of the pieces of a text
// ---------------------------------------------------------------------------

/// A text of nothing but white space.
pub open spec fn is_blank(s: Seq<char>) -> bool {
    forall|i: int| 0 <= i < s.len() ==> is_space(#[trigger] s[i])
}

/// A text lies in another between two blank ones.
pub open spec fn lies_between(s: Seq<char>, a: Seq<char>, t: Seq<char>, b: Seq<char>) -> bool {
    s == a + t + b && is_blank(a) && is_blank(b)
}

proof fn lemma_trim_start(s: Seq<char>) -> (a: Seq<char>)
    ensures
        s == a + trim_start_of(s),
        is_blank(a),
        trim_start_of(s).len() > 0 ==> !is_space(trim_start_of(s)[0]),
    decreases s.len(),
{
    if s.len() > 0 && is_space(s[0]) {
        let b = lemma_trim_start(s.skip(1));
        let a = seq![s[0]] + b;
        let t = trim_start_of(s);
        assert(s =~= seq![s[0]] + s.skip(1));
        assert(seq![s[0]] + (b + t) =~= a + t);
        assert forall|i: int| 0 <= i < a.len() implies is_space(#[trigger] a[i]) by {
            if i > 0 {
                assert(a[i] == b[i - 1]);
            }
        }
        a
    } else {
        assert(s =~= Seq::<char>::empty() + s);
        Seq::empty()
    }
}

proof fn lemma_trim_end(s: Seq<char>) -> (b: Seq<char>)
    ensures
        s == trim_end_of(s) + b,
        is_blank(b),
        trim_end_of(s).len() > 0 ==> !is_space(trim_end_of(s).last()) && trim_end_of(s)[0] == s[0],
    decreases s.len(),
{
    if s.len() > 0 && is_space(s.last()) {
        let a = lemma_trim_end(s.drop_last());
        let b = a.push(s.last());
        let t = trim_end_of(s);
        assert(s =~= s.drop_last().push(s.last()));
        assert((t + a).push(s.last()) =~= t + b);
        assert forall|i: int| 0 <= i < b.len() implies is_space(#[trigger] b[i]) by {
            if i < a.len() {
                assert(b[i] == a[i]);
            }
        }
        b
    } else {
        assert(s =~= s + Seq::<char>::empty());
        Seq::empty()
    }
}

/// Trimming takes white space off both ends, all of it, and nothing else.
pub proof fn trimming_takes_space_only(s: Seq<char>)
    ensures
        exists|a: Seq<char>, b: Seq<char>| lies_between(s, a, trim_of(s), b),
        trim_of(s).len() > 0 ==> !is_space(trim_of(s)[0]) && !is_space(trim_of(s).last()),
{
    let t = trim_start_of(s);
    let a = lemma_trim_start(s);
    let b = lemma_trim_end(t);
    assert(s =~= a + trim_of(s) + b);
    assert(lies_between(s, a, trim_of(s), b));
}

/// A text without white space at its ends is trimmed already.
pub proof fn trimmed_text_stays(s: Seq<char>)
    requires
        s.len() > 0 ==> !is_space(s[0]) && !is_space(s.last()),
    ensures
        trim_of(s) == s,
{
}

/// A number that is written out reads back as itself.
pub proof fn numbers_are_read_back(n: nat)
    ensures
        all_digits(decimal_of(n)),
        digits_value(decimal_of(n)) == n,
        integer_of(decimal_of(n)) == Some(n as int),
        trim_of(decimal_of(n)) == decimal_of(n),
    decreases n,
{
    let d = decimal_of(n);
    if n < 10 {
        reveal_with_fuel(digits_value, 2);
        assert(d.drop_last().len() == 0);
    } else {
        numbers_are_read_back(n / 10);
        assert(d.drop_last() =~= decimal_of(n / 10));
        assert forall|i: int| 0 <= i < d.len() implies is_digit(#[trigger] d[i]) by {
            if i < d.len() - 1 {
                assert(d[i] == decimal_of(n / 10)[i]);
            }
        }
    }
    assert(is_digit(d[0]));
    assert(is_digit(d[d.len() - 1]));
    trimmed_text_stays(d);
}

/// The pieces that a separator cuts a text into make the text again, with the
/// separator between them.
pub proof fn pieces_join_again(s: Seq<char>, sep: char)
    ensures
        join_of(split_of(s, sep), seq![sep]) == s,
    decreases s.len(),
{
    let parts = split_of(s, sep);
    let one = seq![sep];
    if s.len() == 0 {
        assert(join_of(parts, one) =~= s);
    } else {
        let d = s.drop_last();
        let before = split_of(d, sep);
        pieces_join_again(d, sep);
        lemma_split_nonempty(d, sep);
        if s.last() == sep {
            assert(parts.drop_last() =~= before);
            assert(join_of(parts, one) =~= join_of(before, one) + one);
        } else {
            assert(parts.drop_last() =~= before.drop_last());
            assert(join_of(parts, one) =~= join_of(before, one).push(s.last()));
        }
        assert(join_of(parts, one) =~= s);
    }
}

proof fn lemma_replace_keeps(a: Seq<char>, s: Seq<char>, p: Seq<char>, w: Seq<char>)
    requires
        p.len() > 0,
        !a.contains(p[0]),
        s.len() >= p.len(),
    ensures
        replace_of(a + s, p, w) == a + replace_of(s, p, w),
    decreases a.len(),
{
    if a.len() == 0 {
        assert(a + s =~= s);
        assert(a + replace_of(s, p, w) =~= replace_of(s, p, w));
    } else {
        assert(a.contains(a[0]));
        assert((a + s)[0] == a[0]);
        assert(!has_prefix(a + s, p)) by {
            if has_prefix(a + s, p) {
                assert((a + s).take(p.len() as int)[0] == a[0]);
            }
        }
        assert forall|x: char| #[trigger] a.skip(1).contains(x) implies a.contains(x) by {
            let i = choose|i: int| 0 <= i < a.skip(1).len() && a.skip(1)[i] == x;
            assert(a[i + 1] == x);
        }
        assert((a + s).skip(1) =~= a.skip(1) + s);
        lemma_replace_keeps(a.skip(1), s, p, w);
        assert(replace_of(a + s, p, w) =~= a + replace_of(s, p, w));
    }
}

/// What stands before an occurrence and does not begin one stays, the
/// occurrence becomes the new text, and the rest is dealt with in the same
/// way.
pub proof fn occurrences_are_replaced(
    a: Seq<char>,
    rest: Seq<char>,
    p: Seq<char>,
    w: Seq<char>,
)
    requires
        p.len() > 0,
        !a.contains(p[0]),
    ensures
        replace_of(a + p + rest, p, w) == a + w + replace_of(rest, p, w),
        replace_of(a, p, w) == a,
{
    let s = p + rest;
    assert(a + p + rest =~= a + s);
    lemma_replace_keeps(a, s, p, w);
    assert(s.take(p.len() as int) =~= p);
    assert(s.skip(p.len() as int) =~= rest);
    assert(a + (w + replace_of(rest, p, w)) =~= a + w + replace_of(rest, p, w));
    lemma_nothing_to_replace(a, p, w);
}

proof fn lemma_nothing_to_replace(a: Seq<char>, p: Seq<char>, w: Seq<char>)
    requires
        p.len() > 0,
        !a.contains(p[0]),
    ensures
        replace_of(a, p, w) == a,
    decreases a.len(),
{
    if a.len() >= p.len() {
        assert(a.contains(a[0]));
        assert(!has_prefix(a, p)) by {
            if has_prefix(a, p) {
                assert(a.take(p.len() as int)[0] == a[0]);
            }
        }
        assert forall|x: char| #[trigger] a.skip(1).contains(x) implies a.contains(x) by {
            let i = choose|i: int| 0 <= i < a.skip(1).len() && a.skip(1)[i] == x;
            assert(a[i + 1] == x);
        }
        lemma_nothing_to_replace(a.skip(1), p, w);
        assert(replace_of(a, p, w) =~= a);
    }
}

/// A padded text begins with the text, has spaces behind it, and is as wide as
/// asked for or as the text.
pub proof fn padding_adds_space_only(s: Seq<char>, width: nat)
    ensures
        pad_right_of(s, width).len() == if s.len() < width {
            width
        } else {
            s.len()
        },
        pad_right_of(s, width).take(s.len() as int) == s,
        forall|i: int|
            s.len() <= i < pad_right_of(s, width).len() ==> #[trigger] pad_right_of(s, width)[i]
                == ' ',
{
    lemma_repeated(' ', if s.len() < width { (width - s.len()) as nat } else { 0 });
    assert(pad_right_of(s, width).take(s.len() as int) =~= s);
}

proof fn lemma_repeated(c: char, n: nat)
    ensures
        repeat_of(c, n).len() == n,
        forall|i: int| 0 <= i < n ==> #[trigger] repeat_of(c, n)[i] == c,
    decreases n,
{
    if n > 0 {
        lemma_repeated(c, (n - 1) as nat);
    }
}

/// A number that fits reads back as itself, with or without a plus before it;
/// one that does not fit is not read.
pub proof fn small_numbers_are_read_back(n: nat)
    ensures
        n <= u32::MAX ==> u32_of(decimal_of(n)) == Some(n as u32),
        n <= u32::MAX ==> u32_of(seq!['+'] + decimal_of(n)) == Some(n as u32),
        n > u32::MAX ==> u32_of(decimal_of(n)) is None,
{
    let d = decimal_of(n);
    numbers_are_read_back(n);
    assert(is_digit(d[0]));
    assert((seq!['+'] + d).skip(1) =~= d);
}

/// A signed number reads back as itself.
pub proof fn signed_numbers_are_read_back(n: int)
    ensures
        integer_of(signed_decimal_of(n)) == Some(n),
{
    reveal_strlit("-");
    if n < 0 {
        let d = decimal_of((-n) as nat);
        numbers_are_read_back((-n) as nat);
        assert(("-"@ + d).skip(1) =~= d);
    } else {
        numbers_are_read_back(n as nat);
    }
}

/// The words of two texts with white space between them are those of the one
/// and then those of the other.
pub proof fn words_stand_one_after_the_other(a: Seq<char>, b: Seq<char>)
    requires
        a.len() > 0 ==> is_space(a.last()),
    ensures
        words_of(a + b) == words_of(a) + words_of(b),
    decreases b.len(),
{
    let s = a + b;
    if b.len() == 0 {
        assert(s =~= a);
        assert(words_of(a) + words_of(b) =~= words_of(a));
    } else {
        let d = b.drop_last();
        words_stand_one_after_the_other(a, d);
        assert(s.drop_last() =~= a + d);
        assert(s.last() == b.last());
        if b.len() > 1 {
            assert(s[s.len() - 2] == b[b.len() - 2]);
            if !is_space(b[b.len() - 2]) {
                lemma_words_nonempty(d);
            }
        } else if a.len() > 0 {
            assert(s[s.len() - 2] == a.last());
        }
        assert(words_of(s) =~= words_of(a) + words_of(b));
    }
}

/// A text of one or more characters, none of them white space, is one word.
pub proof fn a_word_is_itself(w: Seq<char>)
    requires
        w.len() > 0,
        forall|i: int| 0 <= i < w.len() ==> !is_space(#[trigger] w[i]),
    ensures
        words_of(w) == seq![w],
    decreases w.len(),
{
    let d = w.drop_last();
    if d.len() > 0 {
        assert forall|i: int| 0 <= i < d.len() implies !is_space(#[trigger] d[i]) by {
            assert(d[i] == w[i]);
        }
        assert(!is_space(w[w.len() - 2]));
        a_word_is_itself(d);
    }
    assert(!is_space(w[w.len() - 1]));
    assert(d.push(w.last()) =~= w);
    if d.len() == 0 {
        assert(words_of(d) =~= Seq::empty());
        assert(seq![w.last()] =~= w);
    } else {
        assert(seq![d].last() == d);
    }
    assert(words_of(w) =~= seq![w]);
}

proof fn lemma_beginning_was_there(s: Seq<char>, p: Seq<char>, w: Seq<char>, q: Seq<char>)
    requires
        p.len() > 0,
        w.len() > 0,
        !q.contains(w[0]),
        has_prefix(replace_of(s, p, w), q),
    ensures
        has_prefix(s, q),
    decreases q.len(),
{
    let r = replace_of(s, p, w);
    if q.len() == 0 {
        assert(s.take(0) =~= q);
    } else if s.len() >= p.len() {
        assert(q.contains(q[0]));
        assert(r.take(q.len() as int)[0] == q[0]);
        if has_prefix(s, p) {
            assert(r[0] == w[0]);
        } else {
            let rest = q.skip(1);
            let t = replace_of(s.skip(1), p, w);
            assert(r == seq![s[0]] + t);
            assert(t.take(rest.len() as int) =~= rest) by {
                assert forall|i: int| 0 <= i < rest.len() implies t[i] == rest[i] by {
                    assert(r.take(q.len() as int)[i + 1] == q[i + 1]);
                }
            }
            assert forall|x: char| #[trigger] rest.contains(x) implies q.contains(x) by {
                let i = choose|i: int| 0 <= i < rest.len() && rest[i] == x;
                assert(q[i + 1] == x);
            }
            lemma_beginning_was_there(s.skip(1), p, w, rest);
            assert(s.take(q.len() as int) =~= q) by {
                assert forall|i: int| 0 <= i < q.len() implies s[i] == q[i] by {
                    if i > 0 {
                        assert(s.skip(1).take(rest.len() as int)[i - 1] == rest[i - 1]);
                    }
                }
            }
        }
    }
}

/// A text that was replaced is gone, where the new text does not hold the
/// character that it begins with, and it does not hold the one that the new
/// text begins with.
pub proof fn replaced_text_is_gone(s: Seq<char>, p: Seq<char>, w: Seq<char>)
    requires
        p.len() > 0,
        w.len() > 0,
        !w.contains(p[0]),
        !p.contains(w[0]),
    ensures
        !contains_text(replace_of(s, p, w), p),
    decreases s.len(),
{
    let r = replace_of(s, p, w);
    if contains_text(r, p) {
        let i = choose|i: int| occurs_at(r, p, i);
        assert(r.subrange(i, i + p.len())[0] == p[0]);
        if s.len() < p.len() {
        } else if has_prefix(s, p) {
            let t = replace_of(s.skip(p.len() as int), p, w);
            replaced_text_is_gone(s.skip(p.len() as int), p, w);
            if i < w.len() {
                assert(w[i] == p[0]);
            } else {
                let k = i - w.len();
                assert(t.subrange(k, k + p.len()) =~= r.subrange(i, i + p.len()));
                assert(occurs_at(t, p, k));
            }
        } else {
            let t = replace_of(s.skip(1), p, w);
            replaced_text_is_gone(s.skip(1), p, w);
            if i == 0 {
                assert(r.take(p.len() as int) =~= r.subrange(i, i + p.len()));
                lemma_beginning_was_there(s, p, w, p);
            } else {
                let k = i - 1;
                assert(t.subrange(k, k + p.len()) =~= r.subrange(i, i + p.len()));
                assert(occurs_at(t, p, k));
            }
        }
    }
}

/// A mark parts a text into what stands before it and what stands behind it,
/// where it cannot begin any earlier; a text in which it cannot begin stays
/// whole.
pub proof fn marks_part_a_text(a: Seq<char>, p: Seq<char>, b: Seq<char>)
    requires
        p.len() > 0,
        !a.contains(p[0]),
    ensures
        before_first(a + p + b, p) == a,
        after_first(a + p + b, p) == Some(b),
        before_first(a, p) == a,
        after_first(a, p) is None,
    decreases a.len(),
{
    let s = a + p + b;
    if a.len() == 0 {
        assert(s.take(p.len() as int) =~= p);
        assert(s.skip(p.len() as int) =~= b);
        assert(before_first(s, p) =~= a);
    } else {
        let t = a.skip(1);
        assert(a.contains(a[0]));
        assert forall|x: char| #[trigger] t.contains(x) implies a.contains(x) by {
            let i = choose|i: int| 0 <= i < t.len() && t[i] == x;
            assert(a[i + 1] == x);
        }
        assert(!has_prefix(s, p)) by {
            if has_prefix(s, p) {
                assert(s.take(p.len() as int)[0] == a[0]);
            }
        }
        assert(!has_prefix(a, p)) by {
            if has_prefix(a, p) {
                assert(a.take(p.len() as int)[0] == a[0]);
            }
        }
        assert(s.skip(1) =~= t + p + b);
        marks_part_a_text(t, p, b);
        assert(seq![a[0]] + t =~= a);
    }
}

} // verus!
