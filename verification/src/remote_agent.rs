//! Where a project is deployed to, and the token for it.

use vstd::prelude::*;

use crate::keyed;
use crate::secrets::{self, Backend, ClearStep, Vault};
use crate::text;
use crate::types::{Error, ErrorView};

verus! {

/// The name of the token among the keys.
pub const KEYCHAIN_KEY: &'static str = "remote-agent-token";

/// The variable that holds the token.
pub const ENV_TOKEN: &'static str = "THCLAWS_REMOTE_AGENT_TOKEN";

/// A text without blanks around it, unless nothing is left of it.
pub open spec fn filled(s: Option<Seq<char>>) -> Option<Seq<char>> {
    match s {
        Some(t) => if text::trim_of(t).len() > 0 {
            Some(text::trim_of(t))
        } else {
            None
        },
        None => None,
    }
}

/// The address, given what the settings say.
pub fn url(configured: Option<&str>) -> (r: Option<String>)
    ensures
        text::view_opt(r) == filled(text::view_opt(configured)),
{
    match configured {
        Some(s) => {
            let t = text::trim(s);
            if t.unicode_len() > 0 {
                Some(t.to_string())
            } else {
                None
            }
        },
        None => None,
    }
}

/// The token: the environment's, else the one that is kept.
pub open spec fn token_of(env: Option<Seq<char>>, kept: Option<Seq<char>>) -> Option<Seq<char>> {
    match filled(env) {
        Some(t) => Some(t),
        None => kept,
    }
}

/// The token, given what the environment and the keychain hold.
pub fn token(env: Option<&str>, kept: Option<String>) -> (r: Option<String>)
    ensures
        text::view_opt(r) == token_of(text::view_opt(env), text::view_opt(kept)),
{
    match url(env) {
        Some(t) => Some(t),
        None => kept,
    }
}

/// Where a token is written.
#[derive(Clone, Copy, Debug, PartialEq, Eq, Structural)]
pub enum TokenStore {
    /// Among the keys, under [`KEYCHAIN_KEY`].
    Keychain,
    /// In the user's file of variables, as [`ENV_TOKEN`].
    Dotenv,
}

/// The lines that do not begin with `head`.
pub open spec fn other_lines(lines: Seq<Seq<char>>, head: Seq<char>) -> Seq<Seq<char>>
    decreases lines.len(),
{
    if lines.len() == 0 {
        Seq::empty()
    } else if text::has_prefix(lines.last(), head) {
        other_lines(lines.drop_last(), head)
    } else {
        other_lines(lines.drop_last(), head).push(lines.last())
    }
}

/// The lines of a file of variables that do not set `name`, and the number of
/// all lines.
fn split_off(body: &str, head: &str) -> (r: (Vec<String>, usize))
    ensures
        text::views(r.0@) == other_lines(text::lines_of(body@), head@),
        r.1 == text::lines_of(body@).len(),
{
    let lines = text::lines(body);
    let ghost all = text::lines_of(body@);
    let mut kept: Vec<String> = Vec::new();
    let n = lines.len();
    let mut i: usize = 0;
    proof {
        assert(all.len() == n);
        assert(text::views(kept@) =~= other_lines(all.take(0), head@));
    }
    while i < n
        invariant
            n == lines@.len(),
            all == text::views(lines@),
            i <= n,
            text::views(kept@) == other_lines(all.take(i as int), head@),
        decreases n - i,
    {
        broadcast use text::views_push;

        proof {
            assert(all[i as int] == lines@[i as int]@);
            assert(all.take(i + 1).drop_last() == all.take(i as int));
            assert(all.take(i + 1).last() == all[i as int]);
        }
        if !text::starts_with(lines[i].as_str(), head) {
            kept.push(lines[i].clone());
        }
        i = i + 1;
    }
    proof {
        assert(all.take(n as int) == all);
    }
    (kept, n)
}

/// A file of variables with one of them set: its own lines are dropped, and
/// the new one stands last.
pub open spec fn variable_set(body: Seq<char>, name: Seq<char>, value: Seq<char>) -> Seq<char> {
    text::join_of(
        other_lines(text::lines_of(body), name + "="@).push(name + "="@ + value),
        "\n"@,
    ) + "\n"@
}

/// A file of variables without one of them; `None` where it is not in the file
/// and the file stays.
pub open spec fn variable_dropped(body: Seq<char>, name: Seq<char>) -> Option<Seq<char>> {
    let kept = other_lines(text::lines_of(body), name + "="@);
    if kept.len() == text::lines_of(body).len() {
        None
    } else if kept.len() == 0 {
        Some(Seq::empty())
    } else {
        Some(text::join_of(kept, "\n"@) + "\n"@)
    }
}

/// A file of variables with one of them set.
pub fn with_variable(body: &str, name: &str, value: &str) -> (r: String)
    ensures
        r@ == variable_set(body@, name@, value@),
{
    broadcast use text::views_push;

    let mut head = name.to_string();
    head.append("=");
    let (mut kept, _) = split_off(body, head.as_str());
    let mut last = head;
    last.append(value);
    kept.push(last);
    let mut out = text::join(&kept, "\n");
    out.append("\n");
    out
}

/// A file of variables without one of them, unless it stays as it is.
pub fn without_variable(body: &str, name: &str) -> (r: Option<String>)
    ensures
        text::view_opt(r) == variable_dropped(body@, name@),
{
    let mut head = name.to_string();
    head.append("=");
    let (kept, n) = split_off(body, head.as_str());
    proof {
        assert(text::views(kept@).len() == kept@.len());
    }
    if kept.len() == n {
        return None;
    }
    if kept.len() == 0 {
        return Some(String::new());
    }
    let mut out = text::join(&kept, "\n");
    out.append("\n");
    Some(out)
}

/// Where the token is kept: where the user keeps keys, the keychain if there
/// was no choice yet.
pub fn token_store(chosen: Option<Backend>) -> (r: TokenStore)
    ensures
        r == match chosen {
            Some(Backend::Dotenv) => TokenStore::Dotenv,
            _ => TokenStore::Keychain,
        },
{
    match chosen {
        Some(Backend::Dotenv) => TokenStore::Dotenv,
        _ => TokenStore::Keychain,
    }
}

/// Whether a token that is set will be kept anywhere: in the keychain or in
/// the user's file of variables, once the user has chosen.
pub fn keychain_writable(chosen: Option<Backend>) -> (r: bool)
    ensures
        r == (chosen is Some),
{
    match chosen {
        Some(Backend::Keychain) => true,
        Some(Backend::Dotenv) => true,
        None => false,
    }
}

/// What is to be written so that the token is kept.
#[derive(Debug, PartialEq, Eq)]
pub enum TokenWrite {
    /// The bundle of keys.
    Bundle,
    /// The user's file of variables, with this text.
    Variables(String),
}

/// What is to be done so that the token is gone.
#[derive(Debug, PartialEq, Eq)]
pub enum TokenClear {
    /// This, with the bundle of keys.
    Bundle(ClearStep),
    /// Write the user's file of variables with this text, where there is one.
    Variables(Option<String>),
}

/// The keys with the token among them written.
pub open spec fn with_token(v: secrets::VaultView, token: Seq<char>) -> secrets::VaultView {
    secrets::VaultView { bundle: keyed::with_entry(v.bundle, KEYCHAIN_KEY@, token), ..v }
}

/// The keys without the token.
pub open spec fn without_token(v: secrets::VaultView) -> secrets::VaultView {
    secrets::VaultView { bundle: keyed::without_entry(v.bundle, KEYCHAIN_KEY@), ..v }
}

/// Keeps the token where the user keeps keys. `variables` is the user's file
/// of variables. Without a choice there is no place, and nothing changes.
pub fn set_token(vault: &mut Vault, variables: &str, token: &str) -> (r: Result<TokenWrite, Error>)
    ensures
        match old(vault).chosen {
            Some(Backend::Keychain) => r == Ok::<TokenWrite, Error>(TokenWrite::Bundle)
                && final(vault)@ == with_token(old(vault)@, token@),
            Some(Backend::Dotenv) => (r matches Ok(TokenWrite::Variables(t)) && t@ == variable_set(
                variables@,
                ENV_TOKEN@,
                token@,
            )) && final(vault)@ == old(vault)@,
            None => (r matches Err(e) && e@ == ErrorView::Config(
                "keychain disabled by user preference"@,
            )) && final(vault)@ == old(vault)@,
        },
{
    match token_store(vault.chosen) {
        TokenStore::Keychain => match vault.set(KEYCHAIN_KEY, token) {
            Ok(_) => Ok(TokenWrite::Bundle),
            Err(e) => Err(e),
        },
        TokenStore::Dotenv => Ok(TokenWrite::Variables(with_variable(variables, ENV_TOKEN, token))),
    }
}

/// Takes the token out where the user keeps keys; where there is none, nothing
/// changes. `variables` is the user's file of variables.
pub fn clear_token(vault: &mut Vault, variables: &str) -> (r: TokenClear)
    ensures
        match old(vault).chosen {
            Some(Backend::Keychain) => final(vault)@ == without_token(old(vault)@) && r
                == TokenClear::Bundle(
                if final(vault)@.bundle.len() == 0 {
                    ClearStep::Remove
                } else {
                    ClearStep::Write
                },
            ),
            Some(Backend::Dotenv) => (r matches TokenClear::Variables(t) && text::view_opt(t)
                == variable_dropped(variables@, ENV_TOKEN@)) && final(vault)@ == old(vault)@,
            None => r == TokenClear::Bundle(ClearStep::Nothing) && final(vault)@ == old(vault)@,
        },
{
    match token_store(vault.chosen) {
        TokenStore::Keychain => TokenClear::Bundle(vault.clear(KEYCHAIN_KEY)),
        TokenStore::Dotenv => TokenClear::Variables(without_variable(variables, ENV_TOKEN)),
    }
}

/// Without one in the environment, the token that was written is the one that
/// is read.
pub proof fn written_token_is_read(v: secrets::VaultView, token: Seq<char>)
    requires
        v.may_read(),
    ensures
        token_of(None, with_token(v, token).key(KEYCHAIN_KEY@)) == Some(token),
{
    secrets::set_keys_are_got(v, KEYCHAIN_KEY@, token, token);
}

/// Once the token is cleared, no key of its name is left, so that without one
/// in the environment there is none; the other keys stay. Where there was
/// none, clearing it changes nothing, and neither does clearing it again.
pub proof fn cleared_token_is_gone(v: secrets::VaultView, other: Seq<char>)
    ensures
        without_token(v).key(KEYCHAIN_KEY@) is None,
        token_of(None, without_token(v).key(KEYCHAIN_KEY@)) is None,
        other != KEYCHAIN_KEY@ ==> without_token(v).key(other) == v.key(other),
        keyed::lookup(v.bundle, KEYCHAIN_KEY@) is None ==> without_token(v) == v,
        without_token(without_token(v)) == without_token(v),
{
    if v.may_read() {
        secrets::set_keys_are_got(v, KEYCHAIN_KEY@, Seq::empty(), other);
    }
    keyed::absent_entry_changes_nothing(v.bundle, KEYCHAIN_KEY@);
}

proof fn lemma_other_lines(lines: Seq<Seq<char>>, head: Seq<char>, i: int)
    requires
        0 <= i < other_lines(lines, head).len(),
    ensures
        !text::has_prefix(other_lines(lines, head)[i], head),
        lines.contains(other_lines(lines, head)[i]),
    decreases lines.len(),
{
    let front = lines.drop_last();
    let kept = other_lines(front, head);
    if i < kept.len() {
        lemma_other_lines(front, head, i);
        let k = choose|k: int| 0 <= k < front.len() && front[k] == kept[i];
        assert(lines[k] == kept[i]);
    } else {
        assert(lines[lines.len() - 1] == lines.last());
    }
}

/// A variable that was dropped from a file is set by no line of it any more.
pub proof fn dropped_variable_is_gone(body: Seq<char>, name: Seq<char>, i: int)
    requires
        variable_dropped(body, name) matches Some(t) && 0 <= i < text::lines_of(t).len(),
    ensures
        !text::has_prefix(
            text::lines_of(variable_dropped(body, name).unwrap())[i],
            name + "="@,
        ),
{
    let head = name + "="@;
    let lines = text::lines_of(body);
    let kept = other_lines(lines, head);
    let t = variable_dropped(body, name).unwrap();
    if kept.len() == 0 {
        assert(text::split_of(t, '\n') == seq![Seq::<char>::empty()]);
    } else {
        assert forall|k: int| 0 <= k < kept.len() implies !(#[trigger] kept[k]).contains('\n') by {
            lemma_other_lines(lines, head, k);
            let j = choose|j: int| 0 <= j < lines.len() && lines[j] == kept[k];
            text::lines_hold_no_line_feed(body, j);
        }
        text::joined_lines_are_read_back(kept);
        lemma_other_lines(lines, head, i);
        let x = text::strip_cr(kept[i]);
        if text::has_prefix(x, head) {
            assert(kept[i].take(head.len() as int) =~= x.take(head.len() as int));
        }
    }
}

/// The environment comes before what is kept.
pub proof fn environment_overrides(env: Seq<char>, kept: Option<Seq<char>>)
    requires
        text::trim_of(env).len() > 0,
    ensures
        token_of(Some(env), kept) == Some(text::trim_of(env)),
{
}

proof fn lemma_other_line_stays(lines: Seq<Seq<char>>, head: Seq<char>, i: int)
    requires
        0 <= i < lines.len(),
        !text::has_prefix(lines[i], head),
    ensures
        other_lines(lines, head).contains(lines[i]),
    decreases lines.len(),
{
    let t = lines.drop_last();
    let before = other_lines(t, head);
    let after = other_lines(lines, head);
    if i < t.len() {
        lemma_other_line_stays(t, head, i);
        let k = choose|k: int| 0 <= k < before.len() && before[k] == lines[i];
        assert(after[k] == lines[i]);
    } else {
        assert(after[after.len() - 1] == lines[i]);
    }
}

/// A file of variables with one of them set has every other line that it had,
/// but for a carriage return at the end of one, and one line that sets the
/// variable, at its end.
pub proof fn set_variable_is_the_last_line(
    body: Seq<char>,
    name: Seq<char>,
    value: Seq<char>,
    i: int,
)
    requires
        !name.contains('\n'),
        !value.contains('\n'),
        value.len() > 0 ==> value.last() != '\r',
    ensures
        ({
            let lines = text::lines_of(variable_set(body, name, value));
            &&& lines.len() > 0
            &&& lines.last() == name + "="@ + value
            &&& forall|k: int|
                0 <= k < lines.len() - 1 ==> !text::has_prefix(#[trigger] lines[k], name + "="@)
            &&& 0 <= i < text::lines_of(body).len() && !text::has_prefix(
                text::lines_of(body)[i],
                name + "="@,
            ) ==> lines.contains(text::strip_cr(text::lines_of(body)[i]))
        }),
{
    reveal_strlit("=");
    let head = name + "="@;
    let old_lines = text::lines_of(body);
    let kept = other_lines(old_lines, head);
    let new = head + value;
    let all = kept.push(new);
    assert forall|k: int| 0 <= k < all.len() implies !(#[trigger] all[k]).contains('\n') by {
        if k < kept.len() {
            lemma_other_lines(old_lines, head, k);
            let j = choose|j: int| 0 <= j < old_lines.len() && old_lines[j] == kept[k];
            text::lines_hold_no_line_feed(body, j);
        } else if new.contains('\n') {
            let j = choose|j: int| 0 <= j < new.len() && new[j] == '\n';
            if j < name.len() {
                assert(name[j] == '\n');
            } else if j > name.len() {
                assert(value[j - name.len() - 1] == '\n');
            }
        }
    }
    text::joined_lines_are_read_back(all);
    let lines = text::lines_of(variable_set(body, name, value));
    assert(lines =~= all.map_values(|x: Seq<char>| text::strip_cr(x)));
    assert(new.last() != '\r');
    assert(lines.last() == new);
    assert forall|k: int| 0 <= k < lines.len() - 1 implies !text::has_prefix(
        #[trigger] lines[k],
        head,
    ) by {
        lemma_other_lines(old_lines, head, k);
        assert(lines[k] == text::strip_cr(kept[k]));
        if text::has_prefix(lines[k], head) {
            assert(kept[k].take(head.len() as int) =~= lines[k].take(head.len() as int));
        }
    }
    if 0 <= i < old_lines.len() && !text::has_prefix(old_lines[i], head) {
        lemma_other_line_stays(old_lines, head, i);
        let k = choose|k: int| 0 <= k < kept.len() && kept[k] == old_lines[i];
        assert(all[k] == old_lines[i]);
        assert(lines[k] == text::strip_cr(old_lines[i]));
    }
}

/// A file of variables without one of them has every other line that it had,
/// but for a carriage return at the end of one.
pub proof fn other_variables_stay(body: Seq<char>, name: Seq<char>, i: int)
    requires
        variable_dropped(body, name) is Some,
        0 <= i < text::lines_of(body).len(),
        !text::has_prefix(text::lines_of(body)[i], name + "="@),
    ensures
        text::lines_of(variable_dropped(body, name)->0).contains(
            text::strip_cr(text::lines_of(body)[i]),
        ),
{
    let head = name + "="@;
    let lines = text::lines_of(body);
    let kept = other_lines(lines, head);
    lemma_other_line_stays(lines, head, i);
    assert forall|k: int| 0 <= k < kept.len() implies !(#[trigger] kept[k]).contains('\n') by {
        lemma_other_lines(lines, head, k);
        let j = choose|j: int| 0 <= j < lines.len() && lines[j] == kept[k];
        text::lines_hold_no_line_feed(body, j);
    }
    text::joined_lines_are_read_back(kept);
    let after = text::lines_of(variable_dropped(body, name)->0);
    assert(after =~= kept.map_values(|x: Seq<char>| text::strip_cr(x)));
    let k = choose|k: int| 0 <= k < kept.len() && kept[k] == lines[i];
    assert(after[k] == text::strip_cr(lines[i]));
}

/// The token is the environment's where that holds one, trimmed, and else the
/// one that is kept; a blank one in the environment does not count.
pub proof fn blank_tokens_do_not_count(env: Seq<char>, kept: Option<Seq<char>>)
    ensures
        text::trim_of(env).len() == 0 ==> token_of(Some(env), kept) == kept,
        token_of(None, kept) == kept,
{
}

} // verus!
