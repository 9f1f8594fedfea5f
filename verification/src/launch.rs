//! What a start of the program comes to: which surface runs, which settings
//! the command line overrides, and which stray copies are warned of.

use vstd::prelude::*;

use crate::keyed;
use crate::text;

verus! {

/// The switches of the command line that choose what runs.
#[derive(Clone, Copy, Debug, PartialEq, Eq, Structural)]
pub struct Switches {
    pub cli: bool,
    pub print: bool,
    pub serve: bool,
    pub gui: bool,
    pub no_scheduler: bool,
}

/// What runs.
#[derive(Clone, Copy, Debug, PartialEq, Eq, Structural)]
pub enum Surface {
    /// The server alone.
    Serve,
    /// The server, with a window on the same engine.
    ServeWithWindow,
    /// A window was asked for beside a terminal: refused.
    WindowRefused,
    Window,
    /// One prompt, and out.
    Print,
    Repl,
}

/// The surface that the switches choose.
pub open spec fn surface_of(s: Switches) -> Surface {
    if s.serve {
        if !s.gui {
            Surface::Serve
        } else if s.cli || s.print {
            Surface::WindowRefused
        } else {
            Surface::ServeWithWindow
        }
    } else if s.print {
        Surface::Print
    } else if s.cli {
        Surface::Repl
    } else {
        Surface::Window
    }
}

/// The surface that the switches choose. The window is what runs where none
/// of them says otherwise, and printing implies the terminal.
pub fn surface(s: Switches) -> (r: Surface)
    ensures
        r == surface_of(s),
{
    if s.serve {
        if !s.gui {
            Surface::Serve
        } else if s.cli || s.print {
            Surface::WindowRefused
        } else {
            Surface::ServeWithWindow
        }
    } else if s.print {
        Surface::Print
    } else if s.cli {
        Surface::Repl
    } else {
        Surface::Window
    }
}

/// Whether a start from a console hands the window to a process of its own.
pub fn detaches(s: Switches) -> (r: bool)
    ensures
        r == (surface_of(s) == Surface::Window || surface_of(s) == Surface::ServeWithWindow),
{
    !(s.cli || s.print) && (!s.serve || s.gui)
}

/// Whether jobs are started by the clock while the program runs.
pub fn runs_scheduler(s: Switches) -> (r: bool)
    ensures
        r == (!s.print && !s.no_scheduler),
{
    !s.print && !s.no_scheduler
}

/// Whether the local interface for other programs is opened.
pub fn opens_loopback(s: Switches) -> (r: bool)
    ensures
        r == (!s.print && !s.serve),
{
    !s.print && !s.serve
}

/// The permission setting: what the command line names, else `auto` where it
/// waives approval, else what the configuration says.
pub open spec fn permissions_of(
    configured: Seq<char>,
    accept_all: bool,
    mode: Option<Seq<char>>,
) -> Seq<char> {
    match mode {
        Some(m) => m,
        None => if accept_all {
            "auto"@
        } else {
            configured
        },
    }
}

pub fn permissions(configured: String, accept_all: bool, mode: Option<String>) -> (r: String)
    ensures
        r@ == permissions_of(configured@, accept_all, text::view_opt(mode)),
{
    match mode {
        Some(m) => m,
        None => if accept_all {
            "auto".to_string()
        } else {
            configured
        },
    }
}

/// A list of tools: the pieces between commas, without blanks around them.
pub open spec fn tool_names_of(list: Seq<char>) -> Seq<Seq<char>> {
    let parts = text::split_of(list, ',');
    Seq::new(parts.len(), |i: int| text::trim_of(parts[i]))
}

pub fn tool_names(list: &str) -> (r: Vec<String>)
    ensures
        text::views(r@) == tool_names_of(list@),
{
    let parts = text::split(list, ',');
    let ghost all = text::split_of(list@, ',');
    let mut r: Vec<String> = Vec::new();
    let n = parts.len();
    let mut i: usize = 0;
    while i < n
        invariant
            n == parts@.len(),
            text::views(parts@) == all,
            i <= n,
            text::views(r@) == Seq::new(i as nat, |k: int| text::trim_of(all[k])),
        decreases n - i,
    {
        broadcast use text::views_push;

        let name = text::trim(parts[i].as_str()).to_string();
        proof {
            assert(all[i as int] == parts@[i as int]@);
            assert(Seq::new((i + 1) as nat, |k: int| text::trim_of(all[k])) =~= Seq::new(
                i as nat,
                |k: int| text::trim_of(all[k]),
            ).push(name@));
        }
        r.push(name);
        i = i + 1;
    }
    r
}

/// The prompt of a printing run: the words of the command line with blanks
/// between them, or what is said where there are none.
pub fn print_prompt(words: &Vec<String>) -> (r: Result<String, String>)
    ensures
        match r {
            Ok(p) => p@ == text::join_of(text::views(words@), " "@) && p@.len() > 0,
            Err(e) => text::join_of(text::views(words@), " "@).len() == 0 && e@
                == "\u{1b}[31m--print requires a prompt argument\u{1b}[0m"@,
        },
{
    let p = text::join(words, " ");
    if p.as_str().unicode_len() == 0 {
        return Err("\u{1b}[31m--print requires a prompt argument\u{1b}[0m".to_string());
    }
    Ok(p)
}

// ---------------------------------------------------------------------------
// Stray copies of the program
// ---------------------------------------------------------------------------

/// The copies that are not the one that runs, each once, in the order found.
pub open spec fn stray_of(current: Option<Seq<char>>, found: Seq<Seq<char>>) -> Seq<Seq<char>>
    decreases found.len(),
{
    if found.len() == 0 {
        Seq::empty()
    } else {
        let before = stray_of(current, found.drop_last());
        let p = found.last();
        if current == Some(p) || before.contains(p) {
            before
        } else {
            before.push(p)
        }
    }
}

/// The copies that are not the one that runs, by their real paths.
pub fn stray_copies(current: Option<&str>, found: &Vec<String>) -> (r: Vec<String>)
    ensures
        text::views(r@) == stray_of(text::view_opt(current), text::views(found@)),
{
    let ghost all = text::views(found@);
    let ghost cur = text::view_opt(current);
    let mut r: Vec<String> = Vec::new();
    let n = found.len();
    let mut i: usize = 0;
    while i < n
        invariant
            n == found@.len(),
            all == text::views(found@),
            cur == text::view_opt(current),
            i <= n,
            text::views(r@) == stray_of(cur, all.take(i as int)),
        decreases n - i,
    {
        broadcast use text::views_push;

        let p = &found[i];
        proof {
            assert(all[i as int] == p@);
            assert(all.take(i + 1).drop_last() == all.take(i as int));
            assert(all.take(i + 1).last() == p@);
        }
        let runs = match current {
            Some(c) => text::same(c, p.as_str()),
            None => false,
        };
        if !runs && !keyed::has_name(&r, p.as_str()) {
            r.push(p.clone());
        }
        i = i + 1;
    }
    proof {
        assert(all.take(n as int) == all);
    }
    r
}

/// No stray copy is the one that runs, and none is named twice; each is one
/// that was found.
pub proof fn strays_are_others(current: Option<Seq<char>>, found: Seq<Seq<char>>)
    ensures
        ({
            let s = stray_of(current, found);
            &&& s.no_duplicates()
            &&& forall|i: int| 0 <= i < s.len() ==> current != Some(#[trigger] s[i])
            &&& forall|i: int| 0 <= i < s.len() ==> found.contains(#[trigger] s[i])
        }),
    decreases found.len(),
{
    if found.len() > 0 {
        let rest = found.drop_last();
        strays_are_others(current, rest);
        let s = stray_of(current, found);
        let before = stray_of(current, rest);
        assert(rest.push(found.last()) =~= found);
        assert forall|i: int| 0 <= i < s.len() implies found.contains(#[trigger] s[i]) by {
            keyed::lemma_push_contains(rest, found.last(), s[i]);
            if i < before.len() {
                assert(rest.contains(before[i]));
            }
        }
    }
}

/// What is said of stray copies.
pub open spec fn stray_lines_of(
    bin: Seq<char>,
    remove_hint: Seq<char>,
    running: Seq<char>,
    copies: Seq<Seq<char>>,
) -> Seq<Seq<char>> {
    if copies.len() == 0 {
        Seq::empty()
    } else {
        (seq![
            "\u{1b}[33m[thclaws] warning: "@ + text::decimal_of(copies.len()) + " additional "@ + bin
                + " install(s) found on PATH:\u{1b}[0m"@,
            "  running:  "@ + running,
        ] + Seq::new(copies.len(), |i: int| "  also at:  "@ + copies[i])).push(
            "\u{1b}[33m[thclaws] only the first one on PATH is invoked when you type `thclaws`. The other copies still take ~17 MB each.\nTo clean up:  "@
                + remove_hint + "\u{1b}[0m"@,
        )
    }
}

/// What is said of stray copies; nothing where there are none.
pub fn stray_lines(bin: &str, remove_hint: &str, running: &str, copies: &Vec<String>) -> (r: Vec<
    String,
>)
    ensures
        text::views(r@) == stray_lines_of(
            bin@,
            remove_hint@,
            running@,
            text::views(copies@),
        ),
{
    broadcast use text::views_push;

    let ghost all = text::views(copies@);
    let mut r: Vec<String> = Vec::new();
    let n = copies.len();
    if n == 0 {
        assert(text::views(r@) =~= stray_lines_of(bin@, remove_hint@, running@, all));
        return r;
    }
    let mut head = "\u{1b}[33m[thclaws] warning: ".to_string();
    head.append(text::decimal(n as u64).as_str());
    head.append(" additional ");
    head.append(bin);
    head.append(" install(s) found on PATH:\u{1b}[0m");
    r.push(head);
    let mut which = "  running:  ".to_string();
    which.append(running);
    r.push(which);
    let ghost top = text::views(r@);
    let mut i: usize = 0;
    while i < n
        invariant
            n == copies@.len(),
            all == text::views(copies@),
            i <= n,
            text::views(r@) == top + Seq::new(i as nat, |k: int| "  also at:  "@ + all[k]),
        decreases n - i,
    {
        let mut line = "  also at:  ".to_string();
        line.append(copies[i].as_str());
        proof {
            assert(top + Seq::new((i + 1) as nat, |k: int| "  also at:  "@ + all[k]) =~= (top
                + Seq::new(i as nat, |k: int| "  also at:  "@ + all[k])).push(line@));
        }
        r.push(line);
        i = i + 1;
    }
    let mut hint =
        "\u{1b}[33m[thclaws] only the first one on PATH is invoked when you type `thclaws`. The other copies still take ~17 MB each.\nTo clean up:  ".to_string();
    hint.append(remove_hint);
    hint.append("\u{1b}[0m");
    r.push(hint);
    assert(text::views(r@) =~= stray_lines_of(bin@, remove_hint@, running@, all));
    r
}

/// Every copy that was found and is not the one that runs is named.
pub proof fn every_stray_is_named(current: Option<Seq<char>>, found: Seq<Seq<char>>, i: int)
    requires
        0 <= i < found.len(),
        current != Some(found[i]),
    ensures
        stray_of(current, found).contains(found[i]),
    decreases found.len(),
{
    let rest = found.drop_last();
    let before = stray_of(current, rest);
    if i < rest.len() {
        every_stray_is_named(current, rest, i);
    }
    keyed::lemma_push_contains(before, found[found.len() - 1], found[i]);
}

/// Each surface has its switches: serving comes first and refuses a window
/// beside a terminal, printing comes before the terminal, and the window is
/// what is left.
pub proof fn surfaces_have_their_switches(s: Switches)
    ensures
        surface_of(s) == Surface::Window <==> !s.serve && !s.print && !s.cli,
        surface_of(s) == Surface::Repl <==> !s.serve && !s.print && s.cli,
        surface_of(s) == Surface::Print <==> !s.serve && s.print,
        surface_of(s) == Surface::Serve <==> s.serve && !s.gui,
        surface_of(s) == Surface::WindowRefused <==> s.serve && s.gui && (s.cli || s.print),
        surface_of(s) == Surface::ServeWithWindow <==> s.serve && s.gui && !s.cli && !s.print,
{
}

/// A permission setting that the command line names counts before all else;
/// waived approval counts before the configuration.
pub proof fn command_line_comes_before_the_configuration(
    configured: Seq<char>,
    accept_all: bool,
    mode: Seq<char>,
)
    ensures
        permissions_of(configured, accept_all, Some(mode)) == mode,
        permissions_of(configured, true, None) == "auto"@,
        permissions_of(configured, false, None) == configured,
{
}

/// Where there are stray copies, each has a line of its own between those that
/// say which copy runs and how to clean up; where there is none, nothing is
/// said.
pub proof fn every_stray_has_a_line(
    bin: Seq<char>,
    hint: Seq<char>,
    running: Seq<char>,
    copies: Seq<Seq<char>>,
    i: int,
)
    ensures
        stray_lines_of(bin, hint, running, copies).len() == 0 <==> copies.len() == 0,
        0 <= i < copies.len() ==> {
            let lines = stray_lines_of(bin, hint, running, copies);
            &&& lines.len() == copies.len() + 3
            &&& text::has_suffix(lines[1], running)
            &&& text::has_suffix(lines[i + 2], copies[i])
        },
{
    if 0 <= i < copies.len() {
        let lines = stray_lines_of(bin, hint, running, copies);
        let a = "  running:  "@;
        let b = "  also at:  "@;
        assert(lines[1] == a + running);
        assert(lines[i + 2] == b + copies[i]);
        assert((a + running).skip((a + running).len() - running.len()) =~= running);
        assert((b + copies[i]).skip((b + copies[i]).len() - copies[i].len()) =~= copies[i]);
    }
}

/// The names in a list of tools are those that were joined by commas, without
/// the blanks around them.
pub proof fn tools_are_named_one_by_one(list: Seq<char>, i: int)
    requires
        0 <= i < text::split_of(list, ',').len(),
    ensures
        tool_names_of(list).len() == text::split_of(list, ',').len(),
        exists|a: Seq<char>, b: Seq<char>|
            text::lies_between(text::split_of(list, ',')[i], a, tool_names_of(list)[i], b),
        tool_names_of(list)[i].len() > 0 ==> !text::is_space(tool_names_of(list)[i][0])
            && !text::is_space(tool_names_of(list)[i].last()),
        !tool_names_of(list)[i].contains(','),
{
    let p = text::split_of(list, ',')[i];
    let n = tool_names_of(list)[i];
    text::pieces_hold_no_separator(list, ',', i);
    text::trimming_takes_space_only(p);
    let (a, b) = choose|a: Seq<char>, b: Seq<char>| text::lies_between(p, a, n, b);
    if n.contains(',') {
        let k = choose|k: int| 0 <= k < n.len() && n[k] == ',';
        assert(p[a.len() + k] == ',');
    }
}

} // verus!
