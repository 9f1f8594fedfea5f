//! Taking terminal escape sequences out of text.

use vstd::prelude::*;

verus! {

/// What `String::from_utf8_lossy` makes of bytes.
pub uninterp spec fn utf8_lossy(bytes: Seq<u8>) -> Seq<char>;

/// Every ASCII character of a text is one of these bytes; that of the last
/// byte is the last character.
pub open spec fn ascii_comes_from(t: Seq<char>, bytes: Seq<u8>) -> bool {
    forall|i: int|
        0 <= i < t.len() && (#[trigger] t[i]) as u32 <= 0x7f ==> exists|j: int|
            0 <= j < bytes.len() && #[trigger] bytes[j] == t[i] as u8 && (j == bytes.len() - 1 ==> i
                == t.len() - 1)
}

/// `String::from_utf8_lossy`: bytes that are UTF-8 come back as the text that
/// they encode; what replaces other bytes follows from the bytes alone. The
/// replacement is no ASCII character, so that one of those in the text is a
/// byte that stood there, and the last byte's is the last.
#[verifier::external_body]
pub(crate) fn text_from_bytes(bytes: &Vec<u8>) -> (r: String)
    ensures
        r@ == utf8_lossy(bytes@),
        vstd::utf8::valid_utf8(bytes@) ==> r@ == vstd::utf8::decode_utf8(bytes@),
        ascii_comes_from(r@, bytes@),
{
    String::from_utf8_lossy(bytes).into_owned()
}

/// The final byte of a control sequence.
pub open spec fn is_csi_final(b: u8) -> bool {
    0x40 <= b <= 0x7e
}

/// What follows the control sequence whose parameters `b` starts with.
pub open spec fn after_csi(b: Seq<u8>) -> Seq<u8>
    decreases b.len(),
{
    if b.len() == 0 {
        b
    } else if is_csi_final(b[0]) {
        b.skip(1)
    } else {
        after_csi(b.skip(1))
    }
}

/// What follows the system command whose text `b` starts with; it ends with
/// BEL or with ESC and a backslash.
pub open spec fn after_osc(b: Seq<u8>) -> Seq<u8>
    decreases b.len(),
{
    if b.len() == 0 {
        b
    } else if b[0] == 0x07 {
        b.skip(1)
    } else if b[0] == 0x1b && b.len() > 1 && b[1] == 0x5c {
        b.skip(2)
    } else {
        after_osc(b.skip(1))
    }
}

pub proof fn lemma_after_shrinks(b: Seq<u8>)
    ensures
        after_csi(b).len() <= b.len(),
        after_osc(b).len() <= b.len(),
    decreases b.len(),
{
    if b.len() > 0 {
        lemma_after_shrinks(b.skip(1));
    }
}

/// Bytes without escape sequences: control sequences (`ESC [`), system
/// commands (`ESC ]`), and ESC with any other single byte. A lone ESC at the
/// end stays.
pub open spec fn stripped(b: Seq<u8>) -> Seq<u8>
    decreases b.len(),
{
    if b.len() == 0 {
        b
    } else if b[0] == 0x1b && b.len() > 1 {
        proof {
            lemma_after_shrinks(b.skip(2));
        }
        if b[1] == 0x5b {
            stripped(after_csi(b.skip(2)))
        } else if b[1] == 0x5d {
            stripped(after_osc(b.skip(2)))
        } else {
            stripped(b.skip(2))
        }
    } else {
        seq![b[0]] + stripped(b.skip(1))
    }
}

fn skip_csi(bytes: &[u8], from: usize) -> (r: usize)
    requires
        from <= bytes@.len(),
    ensures
        from <= r <= bytes@.len(),
        bytes@.skip(r as int) == after_csi(bytes@.skip(from as int)),
{
    let n = bytes.len();
    let mut i: usize = from;
    while i < n && !(0x40 <= bytes[i] && bytes[i] <= 0x7e)
        invariant
            from <= i <= n == bytes@.len(),
            after_csi(bytes@.skip(from as int)) == after_csi(bytes@.skip(i as int)),
        decreases n - i,
    {
        proof {
            assert(bytes@.skip(i as int).skip(1) == bytes@.skip(i + 1));
        }
        i = i + 1;
    }
    if i < n {
        proof {
            assert(bytes@.skip(i as int).skip(1) == bytes@.skip(i + 1));
        }
        i = i + 1;
    }
    i
}

fn skip_osc(bytes: &[u8], from: usize) -> (r: usize)
    requires
        from <= bytes@.len(),
    ensures
        from <= r <= bytes@.len(),
        bytes@.skip(r as int) == after_osc(bytes@.skip(from as int)),
{
    let n = bytes.len();
    let mut i: usize = from;
    while i < n
        invariant
            from <= i <= n == bytes@.len(),
            after_osc(bytes@.skip(from as int)) == after_osc(bytes@.skip(i as int)),
        decreases n - i,
    {
        proof {
            assert(bytes@.skip(i as int).skip(1) == bytes@.skip(i + 1));
        }
        if bytes[i] == 0x07 {
            return i + 1;
        }
        if bytes[i] == 0x1b && n - i > 1 && bytes[i + 1] == 0x5c {
            proof {
                assert(bytes@.skip(i as int).skip(2) == bytes@.skip(i + 2));
            }
            return i + 2;
        }
        i = i + 1;
    }
    i
}

/// The text of bytes that need not be UTF-8.
pub open spec fn decoded(bytes: Seq<u8>) -> Seq<char> {
    if vstd::utf8::valid_utf8(bytes) {
        vstd::utf8::decode_utf8(bytes)
    } else {
        utf8_lossy(bytes)
    }
}

/// A text without terminal escape sequences.
pub open spec fn stripped_text(s: Seq<char>) -> Seq<char> {
    decoded(stripped(vstd::utf8::encode_utf8(s)))
}

/// ESC stands nowhere in a text but, perhaps, at its very end.
pub open spec fn no_escape_but_last(s: Seq<char>) -> bool {
    forall|i: int| 0 <= i < s.len() - 1 ==> #[trigger] s[i] != '\x1b'
}

/// The text without terminal escape sequences. No ESC is left of it but a lone
/// one at its end, so that stripping it once more changes nothing; a text
/// without any is given back.
pub fn strip_ansi(s: &str) -> (r: String)
    ensures
        r@ == stripped_text(s@),
        no_escape_but_last(r@),
        stripped_text(r@) == r@,
        !s@.contains('\x1b') ==> r@ == s@,
{
    let bytes = s.as_bytes();
    let n = bytes.len();
    let mut out: Vec<u8> = Vec::new();
    let mut i: usize = 0;
    proof {
        assert(bytes@.skip(0) == bytes@);
        assert(out@ + stripped(bytes@) == stripped(bytes@));
    }
    while i < n
        invariant
            i <= n == bytes@.len(),
            out@ + stripped(bytes@.skip(i as int)) == stripped(bytes@),
        decreases n - i,
    {
        let ghost rest = bytes@.skip(i as int);
        if bytes[i] == 0x1b && n - i > 1 {
            proof {
                assert(rest.skip(2) == bytes@.skip(i + 2));
            }
            if bytes[i + 1] == 0x5b {
                i = skip_csi(bytes, i + 2);
            } else if bytes[i + 1] == 0x5d {
                i = skip_osc(bytes, i + 2);
            } else {
                i = i + 2;
            }
        } else {
            let ghost before = out@;
            out.push(bytes[i]);
            proof {
                assert(rest.skip(1) == bytes@.skip(i + 1));
                assert(before + (seq![rest[0]] + stripped(rest.skip(1))) == before.push(rest[0])
                    + stripped(rest.skip(1)));
            }
            i = i + 1;
        }
    }
    proof {
        assert(out@ =~= stripped(bytes@));
        stripped_has_no_sequence(bytes@);
        if !s@.contains('\x1b') {
            plain_text_stays(s@);
        }
    }
    let r = text_from_bytes(&out);
    proof {
        assert forall|i: int| 0 <= i < r@.len() - 1 implies #[trigger] r@[i] != '\x1b' by {
            if r@[i] == '\x1b' {
                let j = choose|j: int|
                    0 <= j < out@.len() && #[trigger] out@[j] == r@[i] as u8 && (j == out@.len() - 1
                        ==> i == r@.len() - 1);
                assert(out@[j] == 0x1b);
            }
        }
        stripped_text_stays(r@);
    }
    r
}

/// Bytes without ESC are left as they are.
pub proof fn plain_bytes_stay(b: Seq<u8>)
    requires
        forall|i: int| 0 <= i < b.len() ==> #[trigger] b[i] != 0x1b,
    ensures
        stripped(b) == b,
    decreases b.len(),
{
    if b.len() > 0 {
        assert forall|i: int| 0 <= i < b.skip(1).len() implies #[trigger] b.skip(1)[i] != 0x1b by {
            assert(b.skip(1)[i] == b[i + 1]);
        }
        plain_bytes_stay(b.skip(1));
        assert(stripped(b) =~= b);
    }
}

/// Of an escape sequence nothing is left: after stripping, ESC occurs at most
/// as the very last byte.
pub proof fn stripped_has_no_sequence(b: Seq<u8>)
    ensures
        forall|i: int| 0 <= i < stripped(b).len() - 1 ==> #[trigger] stripped(b)[i] != 0x1b,
        stripped(b).len() <= b.len(),
    decreases b.len(),
{
    if b.len() > 0 {
        if b[0] == 0x1b && b.len() > 1 {
            lemma_after_shrinks(b.skip(2));
            if b[1] == 0x5b {
                stripped_has_no_sequence(after_csi(b.skip(2)));
            } else if b[1] == 0x5d {
                stripped_has_no_sequence(after_osc(b.skip(2)));
            } else {
                stripped_has_no_sequence(b.skip(2));
            }
        } else {
            reveal_with_fuel(stripped, 2);
            stripped_has_no_sequence(b.skip(1));
            let rest = stripped(b.skip(1));
            assert forall|i: int| 0 <= i < stripped(b).len() - 1 implies #[trigger] stripped(b)[i]
                != 0x1b by {
                if i > 0 {
                    assert(stripped(b)[i] == rest[i - 1]);
                }
            }
        }
    }
}

proof fn lemma_only_last_escape_stays(b: Seq<u8>)
    requires
        forall|i: int| 0 <= i < b.len() - 1 ==> #[trigger] b[i] != 0x1b,
    ensures
        stripped(b) == b,
    decreases b.len(),
{
    if b.len() > 0 {
        assert forall|i: int| 0 <= i < b.skip(1).len() - 1 implies #[trigger] b.skip(1)[i]
            != 0x1b by {
            assert(b.skip(1)[i] == b[i + 1]);
        }
        lemma_only_last_escape_stays(b.skip(1));
        assert(stripped(b) =~= b);
    }
}

/// Stripping what is stripped changes nothing.
pub proof fn stripping_is_idempotent(b: Seq<u8>)
    ensures
        stripped(stripped(b)) == stripped(b),
{
    stripped_has_no_sequence(b);
    lemma_only_last_escape_stays(stripped(b));
}

proof fn lemma_escape_byte(v: u32, i: int)
    requires
        0 <= i < vstd::utf8::encode_scalar(v).len(),
        vstd::utf8::encode_scalar(v)[i] == 0x1b,
    ensures
        v == 0x1b,
{
    assert(v <= 0x7f && (v & 0x7f) as u8 == 0x1b ==> v == 0x1b) by (bit_vector);
    assert(0xC0u8 | ((v >> 6) & 0x1F) as u8 >= 0x80) by (bit_vector);
    assert(0xE0u8 | ((v >> 12) & 0x0F) as u8 >= 0x80) by (bit_vector);
    assert(0xF0u8 | ((v >> 18) & 0x7) as u8 >= 0x80) by (bit_vector);
    assert(0x80u8 | (v & 0x3F) as u8 >= 0x80) by (bit_vector);
    assert(0x80u8 | ((v >> 6) & 0x3F) as u8 >= 0x80) by (bit_vector);
    assert(0x80u8 | ((v >> 12) & 0x3F) as u8 >= 0x80) by (bit_vector);
}

proof fn lemma_text_bytes(s: Seq<char>)
    requires
        no_escape_but_last(s),
    ensures
        ({
            let b = vstd::utf8::encode_utf8(s);
            &&& forall|i: int| 0 <= i < b.len() - 1 ==> #[trigger] b[i] != 0x1b
            &&& s.len() > 0 ==> b.len() > 0
        }),
    decreases s.len(),
{
    if s.len() > 0 {
        let head = vstd::utf8::encode_scalar(s[0] as u32);
        let rest = s.drop_first();
        let tail = vstd::utf8::encode_utf8(rest);
        assert forall|i: int| 0 <= i < rest.len() - 1 implies #[trigger] rest[i] != '\x1b' by {
            assert(rest[i] == s[i + 1]);
        }
        lemma_text_bytes(rest);
        vstd::utf8::char_is_scalar(s[0]);
        let b = head + tail;
        assert forall|i: int| 0 <= i < b.len() - 1 implies #[trigger] b[i] != 0x1b by {
            if i < head.len() {
                if head[i] == 0x1b {
                    lemma_escape_byte(s[0] as u32, i);
                    vstd::utf8::char_u32_cast(s[0], 0x1b);
                    assert(s[0] == '\x1b');
                    assert(head.len() == 1);
                    assert(rest.len() == 0);
                }
            } else {
                assert(b[i] == tail[i - head.len()]);
            }
        }
    }
}

/// A text without ESC, or with one at its very end alone, is left as it is.
pub proof fn stripped_text_stays(s: Seq<char>)
    requires
        no_escape_but_last(s),
    ensures
        stripped_text(s) == s,
{
    lemma_text_bytes(s);
    lemma_only_last_escape_stays(vstd::utf8::encode_utf8(s));
    vstd::utf8::encode_utf8_valid_utf8(s);
    vstd::utf8::encode_utf8_decode_utf8(s);
}

/// A text without ESC loses nothing.
pub proof fn plain_text_stays(s: Seq<char>)
    requires
        !s.contains('\x1b'),
    ensures
        stripped_text(s) == s,
{
    assert forall|i: int| 0 <= i < s.len() - 1 implies #[trigger] s[i] != '\x1b' by {
        assert(s.contains(s[i]));
    }
    stripped_text_stays(s);
}

/// A text without its ESC characters.
pub open spec fn without_escape(s: Seq<char>) -> Seq<char>
    decreases s.len(),
{
    if s.len() == 0 {
        s
    } else if s.last() == '\x1b' {
        without_escape(s.drop_last())
    } else {
        without_escape(s.drop_last()).push(s.last())
    }
}

/// A text without terminal escape sequences and without a lone ESC.
pub open spec fn plain_text(s: Seq<char>) -> Seq<char> {
    without_escape(stripped_text(s))
}

proof fn lemma_without_escape(s: Seq<char>)
    ensures
        !without_escape(s).contains('\x1b'),
        !s.contains('\x1b') ==> without_escape(s) == s,
    decreases s.len(),
{
    if s.len() > 0 {
        let t = s.drop_last();
        lemma_without_escape(t);
        let w = without_escape(s);
        if w.contains('\x1b') {
            let i = choose|i: int| 0 <= i < w.len() && w[i] == '\x1b';
            assert(without_escape(t)[i] == '\x1b');
        }
        if !s.contains('\x1b') {
            assert(s.contains(s.last()));
            if t.contains('\x1b') {
                let i = choose|i: int| 0 <= i < t.len() && t[i] == '\x1b';
                assert(s[i] == '\x1b');
            }
            assert(t.push(s.last()) =~= s);
        }
    }
}

/// A plain text holds no ESC, and a text without any is plain already.
pub proof fn plain_text_has_no_escape(s: Seq<char>)
    ensures
        !plain_text(s).contains('\x1b'),
        !s.contains('\x1b') ==> plain_text(s) == s,
{
    lemma_without_escape(stripped_text(s));
    if !s.contains('\x1b') {
        plain_text_stays(s);
    }
}

/// The text without terminal escape sequences and without a lone ESC.
pub fn plain(s: &str) -> (r: String)
    ensures
        r@ == plain_text(s@),
        !r@.contains('\x1b'),
        !s@.contains('\x1b') ==> r@ == s@,
{
    let t = strip_ansi(s);
    let n = t.as_str().unicode_len();
    let mut r = String::new();
    let mut i: usize = 0;
    proof {
        plain_text_has_no_escape(s@);
        assert(r@ =~= without_escape(t@.take(0)));
    }
    while i < n
        invariant
            n == t@.len(),
            i <= n,
            r@ == without_escape(t@.take(i as int)),
        decreases n - i,
    {
        let c = t.as_str().get_char(i);
        proof {
            assert(t@.take(i + 1).drop_last() == t@.take(i as int));
            assert(t@.take(i + 1).last() == c);
        }
        if c != '\x1b' {
            r.push(c);
        }
        i = i + 1;
    }
    proof {
        assert(t@.take(n as int) == t@);
    }
    r
}

proof fn lemma_stripped_keeps(a: Seq<u8>, s: Seq<u8>)
    requires
        !a.contains(0x1b),
    ensures
        stripped(a + s) == a + stripped(s),
    decreases a.len(),
{
    if a.len() == 0 {
        assert(a + s =~= s);
        assert(a + stripped(s) =~= stripped(s));
    } else {
        assert(a.contains(a[0]));
        assert forall|x: u8| #[trigger] a.skip(1).contains(x) implies a.contains(x) by {
            let i = choose|i: int| 0 <= i < a.skip(1).len() && a.skip(1)[i] == x;
            assert(a[i + 1] == x);
        }
        assert((a + s).skip(1) =~= a.skip(1) + s);
        lemma_stripped_keeps(a.skip(1), s);
        assert(stripped(a + s) =~= a + stripped(s));
    }
}

proof fn lemma_csi_ends(params: Seq<u8>, last: u8, rest: Seq<u8>)
    requires
        forall|i: int| 0 <= i < params.len() ==> !(0x40 <= #[trigger] params[i] <= 0x7e),
        0x40 <= last <= 0x7e,
    ensures
        after_csi(params + seq![last] + rest) == rest,
    decreases params.len(),
{
    let b = params + seq![last] + rest;
    if params.len() == 0 {
        assert(b.skip(1) =~= rest);
    } else {
        assert(b[0] == params[0]);
        assert forall|i: int| 0 <= i < params.skip(1).len() implies !(0x40
            <= #[trigger] params.skip(1)[i] <= 0x7e) by {
            assert(params.skip(1)[i] == params[i + 1]);
        }
        assert(b.skip(1) =~= params.skip(1) + seq![last] + rest);
        lemma_csi_ends(params.skip(1), last, rest);
    }
}

proof fn lemma_osc_ends(words: Seq<u8>, end: Seq<u8>, rest: Seq<u8>)
    requires
        !words.contains(0x07),
        !words.contains(0x1b),
        end == seq![0x07u8] || end == seq![0x1bu8, 0x5cu8],
    ensures
        after_osc(words + end + rest) == rest,
    decreases words.len(),
{
    let b = words + end + rest;
    if words.len() == 0 {
        assert(b =~= end + rest);
        assert(b.skip(end.len() as int) =~= rest);
    } else {
        assert(b[0] == words[0]);
        assert(words.contains(words[0]));
        assert forall|x: u8| #[trigger] words.skip(1).contains(x) implies words.contains(x) by {
            let i = choose|i: int| 0 <= i < words.skip(1).len() && words.skip(1)[i] == x;
            assert(words[i + 1] == x);
        }
        assert(b.skip(1) =~= words.skip(1) + end + rest);
        lemma_osc_ends(words.skip(1), end, rest);
    }
}

/// A control sequence, `ESC [` up to the first byte from `@` to `~`, goes as a
/// whole; what stands before it stays, and what follows is dealt with in the
/// same way.
pub proof fn control_sequences_go(before: Seq<u8>, params: Seq<u8>, last: u8, rest: Seq<u8>)
    requires
        !before.contains(0x1b),
        forall|i: int| 0 <= i < params.len() ==> !(0x40 <= #[trigger] params[i] <= 0x7e),
        0x40 <= last <= 0x7e,
    ensures
        stripped(before + seq![0x1bu8, 0x5bu8] + params + seq![last] + rest) == before
            + stripped(rest),
{
    let tail = params + seq![last] + rest;
    let s = seq![0x1bu8, 0x5bu8] + tail;
    assert(before + seq![0x1bu8, 0x5bu8] + params + seq![last] + rest =~= before + s);
    assert(s.skip(2) =~= tail);
    lemma_csi_ends(params, last, rest);
    lemma_stripped_keeps(before, s);
}

/// A system command, `ESC ]` up to BEL or to `ESC \`, goes as a whole; what
/// stands before it stays, and what follows is dealt with in the same way.
pub proof fn system_commands_go(before: Seq<u8>, words: Seq<u8>, end: Seq<u8>, rest: Seq<u8>)
    requires
        !before.contains(0x1b),
        !words.contains(0x07),
        !words.contains(0x1b),
        end == seq![0x07u8] || end == seq![0x1bu8, 0x5cu8],
    ensures
        stripped(before + seq![0x1bu8, 0x5du8] + words + end + rest) == before + stripped(rest),
{
    let tail = words + end + rest;
    let s = seq![0x1bu8, 0x5du8] + tail;
    assert(before + seq![0x1bu8, 0x5du8] + words + end + rest =~= before + s);
    assert(s.skip(2) =~= tail);
    lemma_osc_ends(words, end, rest);
    lemma_stripped_keeps(before, s);
}

/// Of ESC with another byte behind it both go; what stands before them stays,
/// and what follows is dealt with in the same way.
pub proof fn short_sequences_go(before: Seq<u8>, byte: u8, rest: Seq<u8>)
    requires
        !before.contains(0x1b),
        byte != 0x5b,
        byte != 0x5d,
    ensures
        stripped(before + seq![0x1bu8, byte] + rest) == before + stripped(rest),
{
    let s = seq![0x1bu8, byte] + rest;
    assert(before + seq![0x1bu8, byte] + rest =~= before + s);
    assert(s.skip(2) =~= rest);
    lemma_stripped_keeps(before, s);
}

} // verus!
