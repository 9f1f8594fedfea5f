//! The scheduler as a service: whether it runs, and how it is installed.

use vstd::prelude::*;

use crate::paths;
use crate::text;
use crate::types::{Error, ErrorView};

verus! {

/// The label of the service; also the name of its file on macOS.
pub const DAEMON_LABEL: &'static str = "sh.thclaws.scheduler";

/// Whether the scheduler runs as a service.
#[derive(Clone, Copy, Debug, PartialEq, Eq, Structural)]
pub enum DaemonStatus {
    /// It runs, as this process.
    Running(u32),
    /// A file names this process, which is gone.
    Stale(u32),
    /// No file names a process.
    NotRunning,
}

/// Where the process of the service is named, given the home directory.
pub fn pid_file_path(home: Option<&str>) -> (r: Option<String>)
    ensures
        text::view_opt(r) == match home {
            Some(h) => Some(paths::join_of(h@, ".local/state/thclaws/scheduler.pid"@)),
            None => None,
        },
{
    match home {
        Some(h) => Some(paths::join(h, ".local/state/thclaws/scheduler.pid")),
        None => None,
    }
}

/// The process that a file names, where there is a file and it names one.
pub fn recorded_pid(body: Option<&str>) -> (r: Option<u32>)
    ensures
        r == match body {
            Some(b) => text::u32_of(text::trim_of(b@)),
            None => None,
        },
{
    match body {
        Some(b) => text::parse_u32(text::trim(b)),
        None => None,
    }
}

/// Whether the service runs, given the process that is named and whether that
/// process is there.
pub fn daemon_status(pid: Option<u32>, alive: bool) -> (r: DaemonStatus)
    ensures
        r == match pid {
            Some(p) => if alive {
                DaemonStatus::Running(p)
            } else {
                DaemonStatus::Stale(p)
            },
            None => DaemonStatus::NotRunning,
        },
{
    match pid {
        Some(p) => if alive {
            DaemonStatus::Running(p)
        } else {
            DaemonStatus::Stale(p)
        },
        None => DaemonStatus::NotRunning,
    }
}

/// The error number for a process that belongs to someone else.
pub const EPERM: i32 = 1;

/// Whether a process is there, by what signal zero to it came to: it could be
/// sent, or could not for want of permission.
pub fn pid_alive(sent: i32, error_number: Option<i32>) -> (r: bool)
    ensures
        r == (sent == 0 || error_number == Some(EPERM)),
{
    if sent == 0 {
        return true;
    }
    match error_number {
        Some(n) => n == EPERM,
        None => false,
    }
}

/// What keeps the service from starting: it runs already.
pub open spec fn already_running(pid: u32) -> ErrorView {
    ErrorView::Config(
        "another daemon is already running (pid "@ + text::decimal_of(pid as nat)
            + "); stop it with `thclaws schedule uninstall` or `kill "@ + text::decimal_of(
            pid as nat,
        ) + "` first"@,
    )
}

/// Whether the service may start, and what is said where it takes over from a
/// process that is gone.
pub fn claim(status: DaemonStatus) -> (r: Result<Option<String>, Error>)
    ensures
        match status {
            DaemonStatus::Running(pid) => r matches Err(e) && e@ == already_running(pid),
            DaemonStatus::Stale(pid) => r matches Ok(Some(notice)) && notice@
                == "\u{1b}[33m[daemon] reclaiming stale PID file (last pid "@ + text::decimal_of(
                pid as nat,
            ) + ")\u{1b}[0m"@,
            DaemonStatus::NotRunning => r matches Ok(None),
        },
{
    match status {
        DaemonStatus::Running(pid) => {
            let mut m = "another daemon is already running (pid ".to_string();
            m.append(text::decimal(pid as u64).as_str());
            m.append("); stop it with `thclaws schedule uninstall` or `kill ");
            m.append(text::decimal(pid as u64).as_str());
            m.append("` first");
            Err(Error::Config(m))
        },
        DaemonStatus::Stale(pid) => {
            let mut m = "\u{1b}[33m[daemon] reclaiming stale PID file (last pid ".to_string();
            m.append(text::decimal(pid as u64).as_str());
            m.append(")\u{1b}[0m");
            Ok(Some(m))
        },
        DaemonStatus::NotRunning => Ok(None),
    }
}

/// The line about a service that has started.
pub fn started_line(pid: u32, pid_path: &str) -> (r: String)
    ensures
        r@ == "\u{1b}[36m[daemon] thclaws scheduler started (pid "@ + text::decimal_of(pid as nat)
            + ", pid file "@ + pid_path@ + ")\u{1b}[0m"@,
{
    let mut m = "\u{1b}[36m[daemon] thclaws scheduler started (pid ".to_string();
    m.append(text::decimal(pid as u64).as_str());
    m.append(", pid file ");
    m.append(pid_path);
    m.append(")\u{1b}[0m");
    m
}

// ---------------------------------------------------------------------------
// Installing the service
// ---------------------------------------------------------------------------

/// What a machine runs.
#[derive(Clone, Copy, Debug, PartialEq, Eq, Structural)]
pub enum Platform {
    MacOs,
    Linux,
    Other,
}

/// Where the description of the service stands.
pub open spec fn supervisor_file(home: Option<Seq<char>>, platform: Platform) -> Option<
    Seq<char>,
> {
    match home {
        Some(h) => match platform {
            Platform::MacOs => Some(
                paths::join_of(h, "Library/LaunchAgents/"@ + DAEMON_LABEL@ + ".plist"@),
            ),
            Platform::Linux => Some(
                paths::join_of(h, ".config/systemd/user/thclaws-scheduler.service"@),
            ),
            Platform::Other => None,
        },
        None => None,
    }
}

/// Where the description of the service stands, on machines that have one.
pub fn supervisor_file_path(home: Option<&str>, platform: Platform) -> (r: Option<String>)
    ensures
        text::view_opt(r) == supervisor_file(text::view_opt(home), platform),
{
    match home {
        Some(h) => match platform {
            Platform::MacOs => {
                let mut name = "Library/LaunchAgents/".to_string();
                name.append(DAEMON_LABEL);
                name.append(".plist");
                Some(paths::join(h, name.as_str()))
            },
            Platform::Linux => Some(
                paths::join(h, ".config/systemd/user/thclaws-scheduler.service"),
            ),
            Platform::Other => None,
        },
        None => None,
    }
}

/// Where the service writes what it prints.
pub fn daemon_log_path(home: Option<&str>) -> (r: Option<String>)
    ensures
        text::view_opt(r) == match home {
            Some(h) => Some(paths::join_of(h@, ".local/share/thclaws/daemon.log"@)),
            None => None,
        },
{
    match home {
        Some(h) => Some(paths::join(h, ".local/share/thclaws/daemon.log")),
        None => None,
    }
}

pub const PLIST_HEAD: &'static str = "<?xml version=\"1.0\" encoding=\"UTF-8\"?>\n<!DOCTYPE plist PUBLIC \"-//Apple//DTD PLIST 1.0//EN\" \"http://www.apple.com/DTDs/PropertyList-1.0.dtd\">\n<plist version=\"1.0\">\n<dict>\n    <key>Label</key>\n    <string>";

pub const PLIST_PROGRAM: &'static str = "</string>\n    <key>ProgramArguments</key>\n    <array>\n        <string>";

pub const PLIST_KEYS: &'static str = "</string>\n        <string>daemon</string>\n    </array>\n    <key>RunAtLoad</key>\n    <true/>\n    <key>KeepAlive</key>\n    <true/>\n    <key>ProcessType</key>\n    <string>Background</string>\n    <key>StandardOutPath</key>\n    <string>";

pub const PLIST_ERRORS: &'static str = "</string>\n    <key>StandardErrorPath</key>\n    <string>";

pub const PLIST_TAIL: &'static str = "</string>\n</dict>\n</plist>\n";

/// The description of the service for launchd.
pub open spec fn launchd_plist(binary: Seq<char>, log: Seq<char>) -> Seq<char> {
    PLIST_HEAD@ + DAEMON_LABEL@ + PLIST_PROGRAM@ + binary + PLIST_KEYS@ + log + PLIST_ERRORS@ + log
        + PLIST_TAIL@
}

/// The description of the service for launchd.
pub fn build_launchd_plist(binary: &str, log: &str) -> (r: String)
    ensures
        r@ == launchd_plist(binary@, log@),
{
    let mut m = PLIST_HEAD.to_string();
    m.append(DAEMON_LABEL);
    m.append(PLIST_PROGRAM);
    m.append(binary);
    m.append(PLIST_KEYS);
    m.append(log);
    m.append(PLIST_ERRORS);
    m.append(log);
    m.append(PLIST_TAIL);
    m
}

/// The description of the service for systemd.
pub open spec fn systemd_unit(binary: Seq<char>, log: Seq<char>) -> Seq<char> {
    "[Unit]\nDescription=thClaws scheduler daemon\nAfter=default.target\n\n[Service]\nType=simple\nExecStart="@
        + binary + " daemon\nRestart=on-failure\nRestartSec=5\nStandardOutput=append:"@ + log
        + "\nStandardError=append:"@ + log + "\n\n[Install]\nWantedBy=default.target\n"@
}

/// The description of the service for systemd.
pub fn build_systemd_unit(binary: &str, log: &str) -> (r: String)
    ensures
        r@ == systemd_unit(binary@, log@),
{
    let mut m =
        "[Unit]\nDescription=thClaws scheduler daemon\nAfter=default.target\n\n[Service]\nType=simple\nExecStart=".to_string();
    m.append(binary);
    m.append(" daemon\nRestart=on-failure\nRestartSec=5\nStandardOutput=append:");
    m.append(log);
    m.append("\nStandardError=append:");
    m.append(log);
    m.append("\n\n[Install]\nWantedBy=default.target\n");
    m
}

/// What was installed, and what is left for the user to run.
#[derive(Debug, PartialEq, Eq)]
pub struct InstallReport {
    pub supervisor_path: String,
    pub next_steps: Vec<String>,
}

/// What is written to install the service.
#[derive(Debug, PartialEq, Eq)]
pub struct InstallPlan {
    pub path: String,
    pub log: String,
    pub body: String,
    /// Whether the service is handed to launchd once it is written.
    pub bootstrap: bool,
    pub next_steps: Vec<String>,
}

/// What keeps the service from being installed or removed on this machine.
pub open spec fn unsupported(what: Seq<char>, os: Seq<char>) -> ErrorView {
    ErrorView::Config(
        "daemon "@ + what + " not yet supported on this platform (target_os="@ + os + ")"@,
    )
}

fn unsupported_error(what: &str, os: &str) -> (r: Error)
    ensures
        r@ == unsupported(what@, os@),
{
    let mut m = "daemon ".to_string();
    m.append(what);
    m.append(" not yet supported on this platform (target_os=");
    m.append(os);
    m.append(")");
    Error::Config(m)
}

/// What the user runs after an installation.
pub open spec fn steps_after(platform: Platform) -> Seq<Seq<char>> {
    match platform {
        Platform::Linux => seq![
            "systemctl --user daemon-reload"@,
            "systemctl --user enable --now thclaws-scheduler.service"@,
        ],
        _ => Seq::empty(),
    }
}

/// What to write to install the service: its description, for the program
/// that is running, with its output to the log. On macOS it is handed to
/// launchd at once; on Linux two steps are left for the user.
pub fn install_daemon(home: Option<&str>, platform: Platform, os: &str, binary: &str) -> (r: Result<
    InstallPlan,
    Error,
>)
    ensures
        match (supervisor_file(text::view_opt(home), platform), home) {
            (Some(path), Some(h)) => {
                let log = paths::join_of(h@, ".local/share/thclaws/daemon.log"@);
                &&& r is Ok
                &&& r->Ok_0.path@ == path
                &&& r->Ok_0.log@ == log
                &&& r->Ok_0.body@ == if platform == Platform::MacOs {
                    launchd_plist(binary@, log)
                } else {
                    systemd_unit(binary@, log)
                }
                &&& r->Ok_0.bootstrap == (platform == Platform::MacOs)
                &&& text::views(r->Ok_0.next_steps@) == steps_after(platform)
            },
            _ => r matches Err(e) && e@ == unsupported("install"@, os@),
        },
{
    broadcast use text::views_push;

    let path = match supervisor_file_path(home, platform) {
        Some(path) => path,
        None => return Err(unsupported_error("install", os)),
    };
    let log = match daemon_log_path(home) {
        Some(log) => log,
        None => return Err(unsupported_error("install", os)),
    };
    let mut next_steps: Vec<String> = Vec::new();
    let bootstrap = platform == Platform::MacOs;
    let body = if bootstrap {
        build_launchd_plist(binary, log.as_str())
    } else {
        next_steps.push("systemctl --user daemon-reload".to_string());
        next_steps.push("systemctl --user enable --now thclaws-scheduler.service".to_string());
        build_systemd_unit(binary, log.as_str())
    };
    proof {
        assert(text::views(next_steps@) =~= steps_after(platform));
    }
    Ok(InstallPlan { path, log, body, bootstrap, next_steps })
}

/// What to remove to take the service away.
pub fn uninstall_daemon(home: Option<&str>, platform: Platform, os: &str) -> (r: Result<
    String,
    Error,
>)
    ensures
        match supervisor_file(text::view_opt(home), platform) {
            Some(path) => r matches Ok(p) && p@ == path,
            None => r matches Err(e) && e@ == unsupported("uninstall"@, os@),
        },
{
    match supervisor_file_path(home, platform) {
        Some(path) => Ok(path),
        None => Err(unsupported_error("uninstall", os)),
    }
}

/// `words` stand in `s`.
proof fn lemma_stands(a: Seq<char>, words: Seq<char>, b: Seq<char>, s: Seq<char>)
    requires
        s == a + words + b,
    ensures
        text::contains_text(s, words),
{
    assert(s.subrange(a.len() as int, (a.len() + words.len()) as int) =~= words);
    assert(text::occurs_at(s, words, a.len() as int));
}

/// The description of the service, for either supervisor, names the program to
/// start and the log that its output goes to.
pub proof fn descriptions_name_program_and_log(binary: Seq<char>, log: Seq<char>)
    ensures
        text::contains_text(launchd_plist(binary, log), binary),
        text::contains_text(launchd_plist(binary, log), log),
        text::contains_text(launchd_plist(binary, log), DAEMON_LABEL@),
        text::contains_text(systemd_unit(binary, log), binary + " daemon\n"@),
        text::contains_text(systemd_unit(binary, log), "StandardOutput=append:"@ + log),
        text::contains_text(systemd_unit(binary, log), "StandardError=append:"@ + log),
{
    let p = launchd_plist(binary, log);
    let tail = PLIST_KEYS@ + log + PLIST_ERRORS@ + log + PLIST_TAIL@;
    let a = PLIST_HEAD@ + DAEMON_LABEL@ + PLIST_PROGRAM@;
    assert(p =~= a + binary + tail);
    lemma_stands(a, binary, tail, p);
    let b = a + binary + PLIST_KEYS@;
    assert(p =~= b + log + (PLIST_ERRORS@ + log + PLIST_TAIL@));
    lemma_stands(b, log, PLIST_ERRORS@ + log + PLIST_TAIL@, p);
    let c = PLIST_PROGRAM@ + binary + tail;
    assert(p =~= PLIST_HEAD@ + DAEMON_LABEL@ + c);
    lemma_stands(PLIST_HEAD@, DAEMON_LABEL@, c, p);
    let u = systemd_unit(binary, log);
    let head =
        "[Unit]\nDescription=thClaws scheduler daemon\nAfter=default.target\n\n[Service]\nType=simple\nExecStart="@;
    let mid = " daemon\nRestart=on-failure\nRestartSec=5\nStandardOutput=append:"@;
    let err = "\nStandardError=append:"@;
    let end = "\n\n[Install]\nWantedBy=default.target\n"@;
    let run = " daemon\n"@;
    let out = "StandardOutput=append:"@;
    reveal_strlit(" daemon\nRestart=on-failure\nRestartSec=5\nStandardOutput=append:");
    reveal_strlit("\nStandardError=append:");
    reveal_strlit(" daemon\n");
    reveal_strlit("StandardOutput=append:");
    reveal_strlit("StandardError=append:");
    let n = run.len() as int;
    let k = mid.len() - out.len();
    assert(mid.take(n) =~= run);
    assert(mid.skip(k) =~= out);
    assert(err.skip(1) =~= "StandardError=append:"@);
    assert(u =~= head + binary + mid + log + err + log + end);
    assert(mid =~= run + mid.skip(n));
    assert(mid =~= mid.take(k) + out);
    assert(err =~= err.take(1) + "StandardError=append:"@);
    lemma_parts(head, binary, run, mid.skip(n) + log + err + log + end, u);
    lemma_parts(head + binary + mid.take(k), out, log, err + log + end, u);
    lemma_parts(
        head + binary + mid + log + err.take(1),
        "StandardError=append:"@,
        log,
        end,
        u,
    );
}

proof fn lemma_parts(a: Seq<char>, x: Seq<char>, y: Seq<char>, b: Seq<char>, s: Seq<char>)
    requires
        s =~= a + x + y + b,
    ensures
        text::contains_text(s, x + y),
{
    assert(s =~= a + (x + y) + b);
    lemma_stands(a, x + y, b, s);
}

/// The service can be described where there is a home directory on a platform
/// with a supervisor; its file then stands below the home directory. The last
/// step after an installation on Linux enables the unit of that very file.
pub proof fn the_service_enabled_is_the_one_written(home: Seq<char>, platform: Platform)
    requires
        home.len() > 0,
    ensures
        supervisor_file(None, platform) is None,
        supervisor_file(Some(home), platform) is Some <==> platform != Platform::Other,
        supervisor_file(Some(home), platform) matches Some(f) ==> text::has_prefix(f, home),
        platform == Platform::Linux ==> {
            &&& steps_after(platform).len() > 0
            &&& text::has_suffix(
                supervisor_file(Some(home), platform)->0,
                "thclaws-scheduler.service"@,
            )
            &&& text::has_suffix(steps_after(platform).last(), "thclaws-scheduler.service"@)
        },
{
    reveal_strlit("Library/LaunchAgents/");
    reveal_strlit(".config/systemd/user/thclaws-scheduler.service");
    reveal_strlit("systemctl --user enable --now thclaws-scheduler.service");
    reveal_strlit("thclaws-scheduler.service");
    let unit = "thclaws-scheduler.service"@;
    let child = ".config/systemd/user/thclaws-scheduler.service"@;
    let plist = "Library/LaunchAgents/"@ + DAEMON_LABEL@ + ".plist"@;
    assert(plist[0] == 'L');
    paths::joined_paths_hold_both(home, child);
    paths::joined_paths_hold_both(home, plist);
    let f = paths::join_of(home, child);
    let step = "systemctl --user enable --now thclaws-scheduler.service"@;
    assert(child.skip(child.len() - unit.len()) =~= unit);
    assert(step.skip(step.len() - unit.len()) =~= unit);
    assert(f.skip(f.len() - unit.len()) =~= f.skip(f.len() - child.len()).skip(
        child.len() - unit.len(),
    ));
}

} // verus!
