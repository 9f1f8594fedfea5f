//! The commands on scheduled jobs: what they store, print and return.

use vstd::prelude::*;

use crate::clock::{self, UtcTime};
use crate::daemon::{DaemonStatus, InstallReport};
use crate::schedule::{self, RunOutcome, Schedule, ScheduleStore};
use crate::text;
use crate::types::{Error, ErrorView};

verus! {

/// The exit code of a command that was cut short.
pub const TIMEOUT_EXIT_CODE: i32 = 124;

/// An error as it is printed.
pub open spec fn error_line_of(message: Seq<char>) -> Seq<char> {
    "\u{1b}[31merror: "@ + message + "\u{1b}[0m"@
}

/// An error as it is printed.
pub fn error_line(message: &str) -> (r: String)
    ensures
        r@ == error_line_of(message@),
{
    let mut m = "\u{1b}[31merror: ".to_string();
    m.append(message);
    m.append("\u{1b}[0m");
    m
}

// ---------------------------------------------------------------------------
// Adding
// ---------------------------------------------------------------------------

/// What the user says of a new job.
#[derive(Debug, PartialEq, Eq)]
pub struct AddArgs {
    pub id: String,
    pub cron: Option<String>,
    /// Run once, at a moment.
    pub at: Option<String>,
    /// Run once, after a delay.
    pub in_delay: Option<String>,
    pub prompt: String,
    /// The directory, or why the current one is not known.
    pub cwd: Result<String, String>,
    pub model: Option<String>,
    pub max_iterations: Option<usize>,
    /// Seconds; zero for no limit.
    pub timeout: u64,
    pub disabled: bool,
    pub watch: bool,
}

/// The moment of a job that runs once: the one that is given, or one after the
/// delay that is given; none for a job that does not.
pub open spec fn resolved_run_at(
    at: Option<Seq<char>>,
    in_delay: Option<Seq<char>>,
    now: UtcTime,
) -> Result<Option<UtcTime>, ErrorView> {
    match at {
        Some(ts) => match schedule::run_at_moment(ts) {
            Ok(t) => Ok(Some(t)),
            Err(e) => Err(e),
        },
        None => match in_delay {
            Some(d) => match schedule::delay_secs(d) {
                Ok(n) => Ok(clock::later_of(now, n)),
                Err(e) => Err(e),
            },
            None => Ok(None),
        },
    }
}

/// A delay that is given can be counted on from now.
pub open spec fn delay_fits(in_delay: Option<Seq<char>>, now: UtcTime) -> bool {
    match in_delay {
        Some(d) => match schedule::delay_secs(d) {
            Ok(n) => clock::later_of(now, n) is Some,
            Err(_) => true,
        },
        None => true,
    }
}

/// The timestamp of a job that runs once.
pub fn resolve_run_at(at: &Option<String>, in_delay: &Option<String>, now: UtcTime) -> (r: Result<
    Option<String>,
    Error,
>)
    requires
        at is None ==> delay_fits(text::view_opt(*in_delay), now),
    ensures
        match (r, resolved_run_at(text::view_opt(*at), text::view_opt(*in_delay), now)) {
            (Ok(Some(s)), Ok(Some(t))) => s@ == clock::rfc3339_text(t),
            (Ok(None), Ok(None)) => true,
            (Err(e), Err(x)) => e@ == x,
            _ => false,
        },
{
    match at {
        Some(ts) => match schedule::parse_run_at(ts.as_str()) {
            Ok(t) => Ok(Some(clock::to_rfc3339(t))),
            Err(e) => Err(e),
        },
        None => match in_delay {
            Some(d) => match schedule::parse_relative_duration(d.as_str()) {
                Ok(n) => match clock::later(now, n) {
                    Some(t) => Ok(Some(clock::to_rfc3339(t))),
                    None => Ok(None),
                },
                Err(e) => Err(e),
            },
            None => Ok(None),
        },
    }
}

/// What is printed where a new job cannot be made.
pub open spec fn entry_error(args: AddArgs, cwd_exists: bool, now: UtcTime) -> Option<Seq<char>> {
    match resolved_run_at(text::view_opt(args.at), text::view_opt(args.in_delay), now) {
        Err(e) => Some(error_line_of(e.described())),
        Ok(run_at) => if run_at is None && args.cron is None {
            Some(
                error_line_of(
                    "a schedule needs a trigger — pass --cron for recurring, or --at/--in for a one-shot"@,
                ),
            )
        } else {
            match args.cwd {
                Err(e) => Some(error_line_of("cannot read current dir: "@ + e@)),
                Ok(dir) => if !cwd_exists {
                    Some(error_line_of("cwd does not exist: "@ + dir@))
                } else {
                    None
                },
            }
        },
    }
}

/// The job that the user asks for.
pub fn new_entry(args: AddArgs, cwd_exists: bool, now: UtcTime) -> (r: Result<Schedule, String>)
    requires
        args.at is None ==> delay_fits(text::view_opt(args.in_delay), now),
    ensures
        match r {
            Err(e) => entry_error(args, cwd_exists, now) == Some(e@),
            Ok(s) => {
                let run_at = resolved_run_at(
                    text::view_opt(args.at),
                    text::view_opt(args.in_delay),
                    now,
                )->Ok_0;
                &&& entry_error(args, cwd_exists, now) is None
                &&& s.id == args.id
                &&& s.cron@ == match args.cron {
                    Some(c) => c@,
                    None => Seq::empty(),
                }
                &&& text::view_opt(s.run_at) == match run_at {
                    Some(t) => Some(clock::rfc3339_text(t)),
                    None => None,
                }
                &&& args.cwd == Ok::<String, String>(s.cwd)
                &&& s.prompt == args.prompt
                &&& s.model == args.model
                &&& s.max_iterations == args.max_iterations
                &&& s.timeout_secs == if args.timeout == 0 {
                    None
                } else {
                    Some(args.timeout)
                }
                &&& s.enabled == !args.disabled
                &&& s.watch_workspace == args.watch
                &&& s.last_run is None
                &&& s.last_exit is None
            },
        },
{
    let run_at = match resolve_run_at(&args.at, &args.in_delay, now) {
        Ok(r) => r,
        Err(e) => return Err(error_line(e.describe().as_str())),
    };
    if run_at.is_none() && args.cron.is_none() {
        return Err(
            error_line(
                "a schedule needs a trigger — pass --cron for recurring, or --at/--in for a one-shot",
            ),
        );
    }
    let cwd = match args.cwd {
        Ok(dir) => dir,
        Err(e) => {
            let mut m = "cannot read current dir: ".to_string();
            m.append(e.as_str());
            return Err(error_line(m.as_str()));
        },
    };
    if !cwd_exists {
        let mut m = "cwd does not exist: ".to_string();
        m.append(cwd.as_str());
        return Err(error_line(m.as_str()));
    }
    let cron = match args.cron {
        Some(c) => c,
        None => String::new(),
    };
    Ok(
        Schedule {
            id: args.id,
            cron,
            run_at,
            cwd,
            prompt: args.prompt,
            model: args.model,
            max_iterations: args.max_iterations,
            timeout_secs: if args.timeout == 0 {
                None
            } else {
                Some(args.timeout)
            },
            enabled: !args.disabled,
            watch_workspace: args.watch,
            last_run: None,
            last_exit: None,
        },
    )
}

/// What is printed where there is no job of a name.
pub fn missing_line(id: &str) -> (r: String)
    ensures
        r@ == error_line_of("no schedule with id '"@ + id@ + "'"@),
{
    let mut m = "no schedule with id '".to_string();
    m.append(id);
    m.append("'");
    error_line(m.as_str())
}

// ---------------------------------------------------------------------------
// Listing
// ---------------------------------------------------------------------------

/// When a job last ran, as it is printed.
pub open spec fn last_text(s: Schedule) -> Seq<char> {
    match s.last_run {
        Some(t) => t@,
        None => "never"@,
    }
}

fn last_of(s: &Schedule) -> (r: &str)
    ensures
        r@ == last_text(*s),
{
    match &s.last_run {
        Some(t) => t.as_str(),
        None => "never",
    }
}

/// What starts a job, as it is printed.
pub open spec fn trigger_text(s: Schedule) -> Seq<char> {
    match s.run_at {
        Some(ts) => "once@"@ + ts@ + " ("@ + (if s.last_run is Some {
            "fired"@
        } else {
            "pending"@
        }) + ")"@,
        None => s.cron@,
    }
}

fn trigger_of(s: &Schedule) -> (r: String)
    ensures
        r@ == trigger_text(*s),
{
    match &s.run_at {
        Some(ts) => {
            let mut m = "once@".to_string();
            m.append(ts.as_str());
            m.append(" (");
            m.append(
                if s.last_run.is_some() {
                    "fired"
                } else {
                    "pending"
                },
            );
            m.append(")");
            m
        },
        None => s.cron.clone(),
    }
}

/// The line about a job in the list.
pub open spec fn list_line_of(s: Schedule) -> Seq<char> {
    (if s.enabled {
        "on "@
    } else {
        "off"@
    }) + " "@ + (match s.last_exit {
        Some(c) => if c == 0 {
            " ok "@
        } else {
            " err"@
        },
        None => "    "@,
    }) + " "@ + (if s.watch_workspace {
        "+watch"@
    } else {
        "      "@
    }) + "  "@ + text::pad_right_of(s.id@, 24) + "  "@ + text::pad_right_of(trigger_text(s), 30)
        + "  "@ + last_text(s) + "  "@ + s.cwd@
}

pub fn list_line(s: &Schedule) -> (r: String)
    ensures
        r@ == list_line_of(*s),
{
    let mut m = (if s.enabled {
        "on "
    } else {
        "off"
    }).to_string();
    m.append(" ");
    m.append(
        match s.last_exit {
            Some(c) => if c == 0 {
                " ok "
            } else {
                " err"
            },
            None => "    ",
        },
    );
    m.append(" ");
    m.append(
        if s.watch_workspace {
            "+watch"
        } else {
            "      "
        },
    );
    m.append("  ");
    m.append(text::pad_right(s.id.as_str(), 24).as_str());
    m.append("  ");
    m.append(text::pad_right(trigger_of(s).as_str(), 30).as_str());
    m.append("  ");
    m.append(last_of(s));
    m.append("  ");
    m.append(s.cwd.as_str());
    m
}

/// The line about a job in the summary of recent runs.
pub open spec fn fire_line_of(s: Schedule) -> Seq<char> {
    "  "@ + (match s.last_exit {
        Some(c) => if c == 0 {
            "ok "@
        } else {
            "err"@
        },
        None => "—  "@,
    }) + "  "@ + text::pad_right_of(s.id@, 24) + "  "@ + last_text(s)
}

fn fire_line(s: &Schedule) -> (r: String)
    ensures
        r@ == fire_line_of(*s),
{
    let mut m = "  ".to_string();
    m.append(
        match s.last_exit {
            Some(c) => if c == 0 {
                "ok "
            } else {
                "err"
            },
            None => "—  ",
        },
    );
    m.append("  ");
    m.append(text::pad_right(s.id.as_str(), 24).as_str());
    m.append("  ");
    m.append(last_of(s));
    m
}

/// What the list prints.
pub open spec fn list_lines_of(jobs: Seq<Schedule>) -> Seq<Seq<char>> {
    if jobs.len() == 0 {
        seq!["no schedules — `thclaws schedule add <id> --cron \"...\" --prompt \"...\"`"@]
    } else {
        Seq::new(jobs.len(), |i: int| list_line_of(jobs[i]))
    }
}

/// What the list prints: a line for each job, or how to add one.
pub fn list_lines(store: &ScheduleStore) -> (r: Vec<String>)
    ensures
        text::views(r@) == list_lines_of(store.schedules@),
{
    let ghost jobs = store.schedules@;
    let mut r: Vec<String> = Vec::new();
    let n = store.schedules.len();
    if n == 0 {
        r.push(
            "no schedules — `thclaws schedule add <id> --cron \"...\" --prompt \"...\"`".to_string(),
        );
        assert(text::views(r@) =~= list_lines_of(jobs));
        return r;
    }
    let mut i: usize = 0;
    while i < n
        invariant
            n == jobs.len(),
            jobs == store.schedules@,
            i <= n,
            text::views(r@) == Seq::new(i as nat, |k: int| list_line_of(jobs[k])),
        decreases n - i,
    {
        broadcast use text::views_push;

        let line = list_line(&store.schedules[i]);
        proof {
            assert(Seq::new((i + 1) as nat, |k: int| list_line_of(jobs[k])) =~= Seq::new(
                i as nat,
                |k: int| list_line_of(jobs[k]),
            ).push(line@));
        }
        r.push(line);
        i = i + 1;
    }
    r
}

// ---------------------------------------------------------------------------
// The service
// ---------------------------------------------------------------------------

/// The line about the service.
pub open spec fn daemon_line_of(status: DaemonStatus) -> Seq<char> {
    match status {
        DaemonStatus::Running(pid) => "daemon: \u{1b}[32mrunning\u{1b}[0m (pid "@
            + text::decimal_of(pid as nat) + ")"@,
        DaemonStatus::Stale(pid) => "daemon: \u{1b}[33mstale PID file\u{1b}[0m (last pid "@
            + text::decimal_of(pid as nat)
            + " not alive — supervisor will reclaim on next start)"@,
        DaemonStatus::NotRunning =>
            "daemon: \u{1b}[33mnot running\u{1b}[0m (`thclaws schedule install` to enable)"@,
    }
}

fn daemon_line(status: DaemonStatus) -> (r: String)
    ensures
        r@ == daemon_line_of(status),
{
    match status {
        DaemonStatus::Running(pid) => {
            let mut m = "daemon: \u{1b}[32mrunning\u{1b}[0m (pid ".to_string();
            m.append(text::decimal(pid as u64).as_str());
            m.append(")");
            m
        },
        DaemonStatus::Stale(pid) => {
            let mut m = "daemon: \u{1b}[33mstale PID file\u{1b}[0m (last pid ".to_string();
            m.append(text::decimal(pid as u64).as_str());
            m.append(" not alive — supervisor will reclaim on next start)");
            m
        },
        DaemonStatus::NotRunning =>
            "daemon: \u{1b}[33mnot running\u{1b}[0m (`thclaws schedule install` to enable)".to_string(),
    }
}

/// What the status prints, given the jobs where the store could be read.
pub open spec fn status_lines_of(status: DaemonStatus, jobs: Option<Seq<Schedule>>) -> Seq<
    Seq<char>,
> {
    match jobs {
        Some(j) => if j.len() > 0 {
            seq![daemon_line_of(status), "\nrecent fires:"@] + Seq::new(
                j.len(),
                |i: int| fire_line_of(j[i]),
            )
        } else {
            seq![daemon_line_of(status)]
        },
        None => seq![daemon_line_of(status)],
    }
}

/// What the status prints: the service, and the last run of each job.
pub fn status_lines(status: DaemonStatus, store: Option<&ScheduleStore>) -> (r: Vec<String>)
    ensures
        text::views(r@) == status_lines_of(
            status,
            match store {
                Some(s) => Some(s.schedules@),
                None => None,
            },
        ),
{
    broadcast use text::views_push;

    let mut r: Vec<String> = Vec::new();
    r.push(daemon_line(status));
    assert(text::views(r@) =~= seq![daemon_line_of(status)]);
    if let Some(s) = store {
        let ghost jobs = s.schedules@;
        let n = s.schedules.len();
        if n > 0 {
            r.push("\nrecent fires:".to_string());
            let ghost head = seq![daemon_line_of(status), "\nrecent fires:"@];
            assert(text::views(r@) =~= head);
            let mut i: usize = 0;
            while i < n
                invariant
                    n == jobs.len(),
                    jobs == s.schedules@,
                    i <= n,
                    text::views(r@) == head + Seq::new(i as nat, |k: int| fire_line_of(jobs[k])),
                decreases n - i,
            {
                let line = fire_line(&s.schedules[i]);
                proof {
                    assert(head + Seq::new((i + 1) as nat, |k: int| fire_line_of(jobs[k])) =~= (head
                        + Seq::new(i as nat, |k: int| fire_line_of(jobs[k]))).push(line@));
                }
                r.push(line);
                i = i + 1;
            }
        }
    }
    r
}

/// What an installation prints.
pub open spec fn install_lines_of(path: Seq<char>, steps: Seq<Seq<char>>) -> Seq<Seq<char>> {
    if steps.len() == 0 {
        seq![
            "wrote "@ + path,
            "daemon bootstrapped — `thclaws schedule status` to verify"@,
        ]
    } else {
        seq!["wrote "@ + path, "\nnext steps:"@] + Seq::new(
            steps.len(),
            |i: int| "  $ "@ + steps[i],
        )
    }
}

/// What an installation prints: what was written, and what is left to run.
pub fn install_lines(report: &InstallReport) -> (r: Vec<String>)
    ensures
        text::views(r@) == install_lines_of(
            report.supervisor_path@,
            text::views(report.next_steps@),
        ),
{
    broadcast use text::views_push;

    let ghost path = report.supervisor_path@;
    let ghost steps = text::views(report.next_steps@);
    let mut r: Vec<String> = Vec::new();
    let mut wrote = "wrote ".to_string();
    wrote.append(report.supervisor_path.as_str());
    r.push(wrote);
    let n = report.next_steps.len();
    if n == 0 {
        r.push("daemon bootstrapped — `thclaws schedule status` to verify".to_string());
        assert(text::views(r@) =~= install_lines_of(path, steps));
        return r;
    }
    r.push("\nnext steps:".to_string());
    let ghost head = seq!["wrote "@ + path, "\nnext steps:"@];
    assert(text::views(r@) =~= head);
    let mut i: usize = 0;
    while i < n
        invariant
            n == report.next_steps@.len(),
            steps == text::views(report.next_steps@),
            i <= n,
            text::views(r@) == head + Seq::new(i as nat, |k: int| "  $ "@ + steps[k]),
        decreases n - i,
    {
        let mut line = "  $ ".to_string();
        line.append(report.next_steps[i].as_str());
        proof {
            assert(head + Seq::new((i + 1) as nat, |k: int| "  $ "@ + steps[k]) =~= (head
                + Seq::new(i as nat, |k: int| "  $ "@ + steps[k])).push(line@));
        }
        r.push(line);
        i = i + 1;
    }
    r
}

/// What a removal of the service prints, and its exit code, given whether its
/// file is still there afterwards.
pub fn uninstall_report(path: &str, still_there: bool) -> (r: (String, i32))
    ensures
        if still_there {
            r.0@ == "warning: supervisor file at "@ + path@ + " still exists"@ && r.1 == 1
        } else {
            r.0@ == "daemon uninstalled"@ && r.1 == 0
        },
{
    if still_there {
        let mut m = "warning: supervisor file at ".to_string();
        m.append(path);
        m.append(" still exists");
        (m, 1)
    } else {
        ("daemon uninstalled".to_string(), 0)
    }
}

// ---------------------------------------------------------------------------
// Running
// ---------------------------------------------------------------------------

/// What is printed of a run, and the exit code of the command.
pub open spec fn run_report_of(id: Seq<char>, o: RunOutcome) -> (Seq<Seq<char>>, i32) {
    let ran = "\u{1b}[36m[schedule] '"@ + id + "' ran in "@ + schedule::seconds_of(o.duration_ms)
        + "s, log: "@ + o.log_path@ + "\u{1b}[0m"@;
    if o.timed_out {
        (
            seq![ran, "\u{1b}[33m[schedule] '"@ + id + "' timed out\u{1b}[0m"@],
            TIMEOUT_EXIT_CODE,
        )
    } else {
        (
            seq![ran],
            match o.exit_code {
                Some(c) => c,
                None => 1,
            },
        )
    }
}

/// What is printed of a run, and the exit code of the command: that of the
/// job, or one of its own where the job was cut short or gave none.
pub fn run_report(id: &str, outcome: &RunOutcome) -> (r: (Vec<String>, i32))
    ensures
        text::views(r.0@) == run_report_of(id@, *outcome).0,
        r.1 == run_report_of(id@, *outcome).1,
{
    broadcast use text::views_push;

    let mut lines: Vec<String> = Vec::new();
    let mut m = "\u{1b}[36m[schedule] '".to_string();
    m.append(id);
    m.append("' ran in ");
    m.append(schedule::seconds_text(outcome.duration_ms).as_str());
    m.append("s, log: ");
    m.append(outcome.log_path.as_str());
    m.append("\u{1b}[0m");
    lines.push(m);
    if outcome.timed_out {
        let mut t = "\u{1b}[33m[schedule] '".to_string();
        t.append(id);
        t.append("' timed out\u{1b}[0m");
        lines.push(t);
        assert(text::views(lines@) =~= run_report_of(id@, *outcome).0);
        return (lines, TIMEOUT_EXIT_CODE);
    }
    assert(text::views(lines@) =~= run_report_of(id@, *outcome).0);
    let code: i32 = match outcome.exit_code {
        Some(c) => c,
        None => 1,
    };
    (lines, code)
}

/// What is printed of the command that runs a job, and its exit code.
pub open spec fn run_result_of(id: Seq<char>, r: Result<RunOutcome, ErrorView>) -> (
    Seq<Seq<char>>,
    i32,
) {
    match r {
        Ok(o) => run_report_of(id, o),
        Err(e) => (seq![error_line_of(e.described())], 1),
    }
}

/// What is printed of the command that runs a job, and its exit code: for a
/// run, see [`run_report`]; where it failed, the error, and 1.
pub fn run_result(id: &str, r: Result<&RunOutcome, &Error>) -> (o: (Vec<String>, i32))
    ensures
        ({
            let want = run_result_of(
                id@,
                match r {
                    Ok(x) => Ok(*x),
                    Err(e) => Err(e@),
                },
            );
            text::views(o.0@) == want.0 && o.1 == want.1
        }),
        o.1 == match r {
            Err(_) => 1,
            Ok(x) => if x.timed_out {
                TIMEOUT_EXIT_CODE
            } else {
                match x.exit_code {
                    Some(c) => c,
                    None => 1,
                }
            },
        },
{
    match r {
        Ok(outcome) => run_report(id, outcome),
        Err(e) => {
            let mut lines: Vec<String> = Vec::new();
            lines.push(error_line(e.describe().as_str()));
            assert(text::views(lines@) =~= seq![error_line_of(e@.described())]);
            (lines, 1)
        },
    }
}

// ---------------------------------------------------------------------------
// Changing the store
// ---------------------------------------------------------------------------

/// Adds a job; gives what is printed once the store is saved, or why it was
/// not added.
pub fn add_schedule(store: &mut ScheduleStore, entry: Schedule) -> (r: Result<String, String>)
    ensures
        match r {
            Ok(line) => schedule::add_error(old(store).schedules@, entry) is None
                && final(store).schedules@ == old(store).schedules@.push(entry)
                && final(store).version == old(store).version && line@ == "added schedule '"@
                + entry.id@ + "'"@,
            Err(line) => *final(store) == *old(store) && (schedule::add_error(
                old(store).schedules@,
                entry,
            ) matches Some(e) && line@ == error_line_of(e.described())),
        },
{
    let id = entry.id.clone();
    match store.add(entry) {
        Ok(_) => {
            let mut m = "added schedule '".to_string();
            m.append(id.as_str());
            m.append("'");
            Ok(m)
        },
        Err(e) => Err(error_line(e.describe().as_str())),
    }
}

/// Removes a job; gives what is printed once the store is saved, or that there
/// is none of that name.
pub fn remove_schedule(store: &mut ScheduleStore, id: &str) -> (r: Result<String, String>)
    ensures
        final(store).schedules@ == schedule::without(old(store).schedules@, id@),
        final(store).version == old(store).version,
        match r {
            Ok(line) => schedule::find_schedule(old(store).schedules@, id@) is Some && line@
                == "removed schedule '"@ + id@ + "'"@,
            Err(line) => schedule::find_schedule(old(store).schedules@, id@) is None && line@
                == error_line_of("no schedule with id '"@ + id@ + "'"@),
        },
{
    let ghost jobs = store.schedules@;
    proof {
        schedule::removal_shortens(jobs, id@);
    }
    if store.remove(id) {
        let mut m = "removed schedule '".to_string();
        m.append(id);
        m.append("'");
        Ok(m)
    } else {
        Err(missing_line(id))
    }
}

/// A job is made unless something is wrong: a moment or a delay that cannot be
/// read, no trigger at all, or a directory that is not known or not there.
pub proof fn jobs_are_made_unless_something_is_wrong(
    args: AddArgs,
    cwd_exists: bool,
    now: UtcTime,
)
    requires
        args.at is None ==> delay_fits(text::view_opt(args.in_delay), now),
    ensures
        entry_error(args, cwd_exists, now) is None <==> {
            &&& args.at matches Some(t) ==> schedule::run_at_moment(t@) is Ok
            &&& args.at is None ==> (args.in_delay matches Some(d) ==> schedule::delay_secs(
                d@,
            ) is Ok)
            &&& args.at is Some || args.in_delay is Some || args.cron is Some
            &&& args.cwd is Ok
            &&& cwd_exists
        },
{
}

/// A moment that is given is the one at which the job runs, whatever delay is
/// given with it; a delay alone is counted on from now.
pub proof fn moments_and_delays_are_kept(at: Seq<char>, delay: Seq<char>, now: UtcTime)
    requires
        now.is_valid(),
        delay_fits(Some(delay), now),
    ensures
        schedule::run_at_moment(at) matches Ok(t) ==> {
            &&& resolved_run_at(Some(at), None, now) == Ok::<_, ErrorView>(Some(t))
            &&& resolved_run_at(Some(at), Some(delay), now) == Ok::<_, ErrorView>(Some(t))
        },
        schedule::delay_secs(delay) matches Ok(n) ==> {
            &&& resolved_run_at(None, Some(delay), now) matches Ok(Some(t))
            &&& t.secs == now.secs + n
            &&& t.nanos == now.nanos
        },
        resolved_run_at(None, None, now) == Ok::<Option<UtcTime>, ErrorView>(None),
{
}

/// `words` stand in `line`.
pub open spec fn shows(line: Seq<char>, words: Seq<char>) -> bool {
    exists|a: Seq<char>, b: Seq<char>| line == #[trigger] (a + words + b)
}

proof fn lemma_shown(a: Seq<char>, words: Seq<char>, b: Seq<char>, line: Seq<char>)
    requires
        line == a + words + b,
    ensures
        shows(line, words),
{
}

proof fn lemma_padded(s: Seq<char>, width: nat) -> (z: Seq<char>)
    ensures
        text::pad_right_of(s, width) == s + z,
{
    let p = text::pad_right_of(s, width);
    let z = p.skip(s.len() as int);
    text::padding_adds_space_only(s, width);
    assert(p =~= p.take(s.len() as int) + z);
    z
}

proof fn lemma_shown_within(line: Seq<char>, part: Seq<char>, words: Seq<char>)
    requires
        shows(line, part),
        shows(part, words),
    ensures
        shows(line, words),
{
    let (a, b) = choose|a: Seq<char>, b: Seq<char>| line == #[trigger] (a + part + b);
    let (c, d) = choose|c: Seq<char>, d: Seq<char>| part == #[trigger] (c + words + d);
    assert(a + (c + words + d) + b =~= (a + c) + words + (d + b));
}

proof fn lemma_moment(t: Seq<char>, state: Seq<char>)
    ensures
        shows("once@"@ + t + " ("@ + state + ")"@, t),
{
    let more = " ("@ + state + ")"@;
    assert("once@"@ + t + " ("@ + state + ")"@ =~= "once@"@ + t + more);
}

proof fn lemma_columns(
    on: Seq<char>,
    one: Seq<char>,
    end: Seq<char>,
    watch: Seq<char>,
    rest: Seq<char>,
)
    requires
        on.len() == 3,
        one.len() == 1,
        end.len() == 4,
        watch.len() == 6,
    ensures
        (on + one + end + one + watch + rest).take(3) == on,
        (on + one + end + one + watch + rest).subrange(4, 8) == end,
        (on + one + end + one + watch + rest).subrange(9, 15) == watch,
{
    let line = on + one + end + one + watch + rest;
    assert(line.take(3) =~= on);
    assert(line.subrange(4, 8) =~= end);
    assert(line.subrange(9, 15) =~= watch);
}

proof fn lemma_cells(
    head: Seq<char>,
    id: Seq<char>,
    z: Seq<char>,
    trigger: Seq<char>,
    y: Seq<char>,
    last: Seq<char>,
    cwd: Seq<char>,
    two: Seq<char>,
)
    ensures
        shows(head + (id + z) + two + (trigger + y) + two + last + two + cwd, id),
        shows(head + (id + z) + two + (trigger + y) + two + last + two + cwd, trigger),
        shows(head + (id + z) + two + (trigger + y) + two + last + two + cwd, last),
        shows(head + (id + z) + two + (trigger + y) + two + last + two + cwd, cwd),
{
    let line = head + (id + z) + two + (trigger + y) + two + last + two + cwd;
    let e = Seq::<char>::empty();
    assert(line =~= head + id + (z + two + trigger + y + two + last + two + cwd));
    assert(line =~= (head + id + z + two) + trigger + (y + two + last + two + cwd));
    assert(line =~= (head + id + z + two + trigger + y + two) + last + (two + cwd));
    assert(line =~= (head + id + z + two + trigger + y + two + last + two) + cwd + e);
}

/// The list has a line for each job, in the order of the store. The line says
/// first whether the job is on, then how it ended when it last ran, then
/// whether it has its workspace watched, and holds its id, its trigger and its
/// directory.
pub proof fn every_job_is_listed(jobs: Seq<Schedule>, i: int)
    requires
        0 <= i < jobs.len(),
    ensures
        list_lines_of(jobs).len() == jobs.len(),
        list_lines_of(jobs)[i].take(3) == (if jobs[i].enabled {
            "on "@
        } else {
            "off"@
        }),
        list_lines_of(jobs)[i].subrange(4, 8) == (match jobs[i].last_exit {
            None => "    "@,
            Some(c) => if c == 0 {
                " ok "@
            } else {
                " err"@
            },
        }),
        list_lines_of(jobs)[i].subrange(9, 15) == (if jobs[i].watch_workspace {
            "+watch"@
        } else {
            "      "@
        }),
        shows(list_lines_of(jobs)[i], jobs[i].id@),
        shows(list_lines_of(jobs)[i], jobs[i].cwd@),
        jobs[i].run_at matches Some(t) ==> shows(list_lines_of(jobs)[i], t@),
        jobs[i].run_at is None ==> shows(list_lines_of(jobs)[i], jobs[i].cron@),
        jobs[i].last_run matches Some(t) ==> shows(list_lines_of(jobs)[i], t@),
{
    reveal_strlit("on ");
    reveal_strlit("off");
    reveal_strlit(" ok ");
    reveal_strlit(" err");
    reveal_strlit("    ");
    reveal_strlit("+watch");
    reveal_strlit("      ");
    reveal_strlit(" ");
    let s = jobs[i];
    let line = list_lines_of(jobs)[i];
    let on = if s.enabled {
        "on "@
    } else {
        "off"@
    };
    let end = match s.last_exit {
        Some(c) => if c == 0 {
            " ok "@
        } else {
            " err"@
        },
        None => "    "@,
    };
    let watch = if s.watch_workspace {
        "+watch"@
    } else {
        "      "@
    };
    let one = " "@;
    let two = "  "@;
    let id = text::pad_right_of(s.id@, 24);
    let trigger = text::pad_right_of(trigger_text(s), 30);
    let last = last_text(s);
    let rest = two + id + two + trigger + two + last + two + s.cwd@;
    assert(line == on + one + end + one + watch + two + id + two + trigger + two + last + two
        + s.cwd@);
    lemma_columns(on, one, end, watch, rest);
    let head = on + one + end + one + watch + two;
    assert(line =~= on + one + end + one + watch + rest);
    let z = lemma_padded(s.id@, 24);
    let y = lemma_padded(trigger_text(s), 30);
    lemma_cells(head, s.id@, z, trigger_text(s), y, last, s.cwd@, two);
    if let Some(t) = s.run_at {
        let state = (if s.last_run is Some {
            "fired"@
        } else {
            "pending"@
        });
        lemma_moment(t@, state);
        lemma_shown_within(line, trigger_text(s), t@);
    }
}

/// The status begins with the service and has a line for each job below, which
/// says how the job ended, which one it is and when it ran.
pub proof fn every_job_has_a_status(status: DaemonStatus, jobs: Seq<Schedule>, i: int)
    requires
        0 <= i < jobs.len(),
    ensures
        status_lines_of(status, Some(jobs)).len() == jobs.len() + 2,
        status_lines_of(status, Some(jobs))[0] == status_lines_of(status, None)[0],
        status_lines_of(status, Some(jobs))[i + 2].subrange(2, 5) == (match jobs[i].last_exit {
            None => "—  "@,
            Some(c) => if c == 0 {
                "ok "@
            } else {
                "err"@
            },
        }),
        shows(status_lines_of(status, Some(jobs))[i + 2], jobs[i].id@),
        jobs[i].last_run matches Some(t) ==> shows(
            status_lines_of(status, Some(jobs))[i + 2],
            t@,
        ),
{
    reveal_strlit("  ");
    reveal_strlit("—  ");
    reveal_strlit("ok ");
    reveal_strlit("err");
    let s = jobs[i];
    let line = status_lines_of(status, Some(jobs))[i + 2];
    assert(line == fire_line_of(s));
    let two = "  "@;
    let end = match s.last_exit {
        Some(c) => if c == 0 {
            "ok "@
        } else {
            "err"@
        },
        None => "—  "@,
    };
    let id = text::pad_right_of(s.id@, 24);
    let e = Seq::<char>::empty();
    assert(line.subrange(2, 5) =~= end);
    let z = lemma_padded(s.id@, 24);
    assert(line =~= (two + end + two) + s.id@ + (z + two + last_text(s)));
    lemma_shown(two + end + two, s.id@, z + two + last_text(s), line);
    assert(line =~= (two + end + two + id + two) + last_text(s) + e);
    lemma_shown(two + end + two + id + two, last_text(s), e, line);
}

/// The command that runs a job ends well only where the job did: in time and
/// with the code of success. Any other code of the job is handed on, and a job
/// that was cut short, gave no code or did not run ends in one of failure.
pub proof fn commands_end_as_their_job(id: Seq<char>, r: Result<RunOutcome, ErrorView>)
    ensures
        run_result_of(id, r).1 == 0 <==> (r matches Ok(o) && !o.timed_out && o.exit_code
            == Some(0i32)),
        r matches Ok(o) ==> (!o.timed_out ==> (o.exit_code matches Some(c) ==> run_result_of(
            id,
            r,
        ).1 == c)),
        r matches Ok(o) ==> (o.timed_out ==> run_result_of(id, r).1 == 124),
        r matches Ok(o) ==> shows(run_result_of(id, r).0[0], o.log_path@),
        r matches Err(e) ==> shows(run_result_of(id, r).0[0], e.described()),
{
    match r {
        Ok(o) => {
            let line = run_result_of(id, r).0[0];
            let a = "\u{1b}[36m[schedule] '"@ + id + "' ran in "@ + schedule::seconds_of(
                o.duration_ms,
            ) + "s, log: "@;
            assert(line =~= a + o.log_path@ + "\u{1b}[0m"@);
            lemma_shown(a, o.log_path@, "\u{1b}[0m"@, line);
        },
        Err(e) => {
            let line = run_result_of(id, r).0[0];
            lemma_shown("\u{1b}[31merror: "@, e.described(), "\u{1b}[0m"@, line);
        },
    }
}

/// What is left to do after an installation is all told, in order.
pub proof fn every_step_left_is_told(path: Seq<char>, steps: Seq<Seq<char>>, i: int)
    requires
        0 <= i < steps.len(),
    ensures
        install_lines_of(path, steps).len() == steps.len() + 2,
        shows(install_lines_of(path, steps)[0], path),
        shows(install_lines_of(path, steps)[i + 2], steps[i]),
{
    let e = Seq::<char>::empty();
    let lines = install_lines_of(path, steps);
    assert(lines[0] =~= "wrote "@ + path + e);
    lemma_shown("wrote "@, path, e, lines[0]);
    assert(lines[i + 2] =~= "  $ "@ + steps[i] + e);
    lemma_shown("  $ "@, steps[i], e, lines[i + 2]);
}

} // verus!
