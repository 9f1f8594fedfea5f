use chrono::{DateTime, Duration, Utc};
use thclaws_core::clock::UtcTime;
use thclaws_core::daemon::{
    build_launchd_plist, build_systemd_unit, claim, daemon_log_path, daemon_status, install_daemon,
    pid_alive, pid_file_path, recorded_pid, started_line, supervisor_file_path, uninstall_daemon,
    DaemonStatus, Platform,
};
use thclaws_core::paths::is_path_ignored;
use thclaws_core::schedule::{
    compute_next_fire, compute_next_n_fires, fired_line, job_args, log_dir_for, log_path_for,
    next_fire, normalize_cron, parse_last_run, parse_relative_duration, parse_run_at, record_run,
    runnable, validate_cron, validate_trigger, wait_step, watch_done_line, RunOutcome, Schedule,
    ScheduleStore, WaitStep,
};
use thclaws_core::types::Error;
use thclaws_core::scheduler::{watched, InProcessScheduler, WatchGate};

fn moment(text: &str) -> UtcTime {
    parse_run_at(text).unwrap()
}

fn now() -> UtcTime {
    let d = Utc::now();
    UtcTime { secs: d.timestamp(), nanos: d.timestamp_subsec_nanos() }
}

fn ago(t: UtcTime, secs: i64) -> UtcTime {
    UtcTime { secs: t.secs - secs, nanos: t.nanos }
}

fn stamp(t: UtcTime) -> String {
    date(t).to_rfc3339()
}

fn date(t: UtcTime) -> DateTime<Utc> {
    DateTime::from_timestamp(t.secs, t.nanos).unwrap()
}

fn job(id: &str) -> Schedule {
    Schedule {
        id: id.into(),
        cron: "* * * * *".into(),
        cwd: "/tmp".into(),
        prompt: "p".into(),
        enabled: true,
        ..Default::default()
    }
}

#[test]
fn cron_validation_accepts_valid_5_field() {
    assert!(validate_cron("*/5 * * * *").is_ok());
    assert!(validate_cron("0 9 * * MON-FRI").is_ok());
    assert!(validate_cron("0 0 1 * *").is_ok());
}

#[test]
fn cron_validation_rejects_garbage() {
    assert!(validate_cron("not a cron").is_err());
    assert!(validate_cron("* * *").is_err());
    assert!(validate_cron("99 * * * *").is_err());
}

#[test]
fn validate_trigger_enforces_exactly_one() {
    let cron_only = Schedule {
        cron: "* * * * *".into(),
        ..Default::default()
    };
    assert!(validate_trigger(&cron_only).is_ok());

    let one_shot = Schedule {
        cron: String::new(),
        run_at: Some("2026-05-24T15:30:00Z".into()),
        ..Default::default()
    };
    assert!(validate_trigger(&one_shot).is_ok());

    let both = Schedule {
        cron: "* * * * *".into(),
        run_at: Some("2026-05-24T15:30:00Z".into()),
        ..Default::default()
    };
    assert!(validate_trigger(&both).is_err());

    let neither = Schedule {
        cron: String::new(),
        ..Default::default()
    };
    assert!(validate_trigger(&neither).is_err());

    let bad_at = Schedule {
        run_at: Some("tomorrow morning".into()),
        ..Default::default()
    };
    assert!(validate_trigger(&bad_at).is_err());
}

#[test]
fn parse_run_at_accepts_rfc3339_offsets() {
    let z = parse_run_at("2026-05-24T15:30:00Z").unwrap();
    let off = parse_run_at("2026-05-24T22:30:00+07:00").unwrap();
    assert_eq!(z, off);
    assert!(parse_run_at("not a time").is_err());
}

#[test]
fn next_fire_recurring_delegates_to_cron() {
    let now = now();
    let recurring = Schedule {
        cron: "* * * * *".into(),
        ..Default::default()
    };
    assert!(next_fire(&recurring, now).is_some());
}

#[test]
fn add_rejects_duplicate_id() {
    let mut store = ScheduleStore::default();
    let mk = |id: &str| Schedule {
        id: id.into(),
        cron: "* * * * *".into(),
        cwd: "/tmp".into(),
        prompt: "x".into(),
        model: None,
        max_iterations: None,
        timeout_secs: None,
        enabled: true,
        watch_workspace: false,
        last_run: None,
        last_exit: None,
        run_at: None,
    };
    store.add(mk("dup")).unwrap();
    assert!(store.add(mk("dup")).is_err());
}

#[test]
fn add_validates_cron_at_insert_time() {
    let mut store = ScheduleStore::default();
    let bad = Schedule {
        id: "bad".into(),
        cron: "definitely not cron".into(),
        cwd: "/tmp".into(),
        prompt: "x".into(),
        model: None,
        max_iterations: None,
        timeout_secs: None,
        enabled: true,
        watch_workspace: false,
        last_run: None,
        last_exit: None,
        run_at: None,
    };
    assert!(store.add(bad).is_err());
    assert_eq!(store.schedules.len(), 0);
}

#[test]
fn remove_returns_whether_removed() {
    let mut store = ScheduleStore::default();
    store
        .add(Schedule {
            id: "x".into(),
            cron: "* * * * *".into(),
            cwd: "/tmp".into(),
            prompt: "p".into(),
            model: None,
            max_iterations: None,
            timeout_secs: None,
            enabled: true,
            watch_workspace: false,
            last_run: None,
            last_exit: None,
            run_at: None,
        })
        .unwrap();
    assert!(store.remove("x"));
    assert!(!store.remove("x"));
}

#[test]
fn is_path_ignored_skips_thclaws_dir() {
    let root = "/work/proj";
    let inside = "/work/proj/.thclaws/sessions/x.jsonl";
    assert!(is_path_ignored(root, inside));
}

#[test]
fn is_path_ignored_skips_git_node_modules() {
    let root = "/work/proj";
    for child in [
        "/work/proj/.git/refs/HEAD",
        "/work/proj/node_modules/foo/index.js",
        "/work/proj/target/debug/build.log",
        "/work/proj/dist/main.js",
        "/work/proj/.DS_Store",
    ] {
        assert!(
            is_path_ignored(root, child),
            "expected ignored: {child}"
        );
    }
}

#[test]
fn is_path_ignored_allows_normal_files() {
    let root = "/work/proj";
    for child in [
        "/work/proj/src/main.rs",
        "/work/proj/README.md",
        "/work/proj/docs/notes.md",
        "/work/proj/sub/.thclawsrc",
    ] {
        assert!(
            !is_path_ignored(root, child),
            "expected allowed: {child}"
        );
    }
}

#[test]
fn is_path_ignored_outside_root_returns_false() {
    let root = "/work/proj";
    let outside = "/elsewhere/.thclaws/file";
    assert!(!is_path_ignored(root, outside));
}

#[test]
fn compute_next_n_fires_returns_empty_for_invalid_cron() {
    let after = now();
    assert!(compute_next_n_fires("nope", after, 3).is_empty());
}

#[test]
fn compute_next_n_fires_zero_returns_empty() {
    let after = now();
    assert!(compute_next_n_fires("* * * * *", after, 0).is_empty());
}

#[test]
fn compute_next_fire_returns_none_for_invalid() {
    let after = now();
    assert!(compute_next_fire("nope", after).is_none());
}

#[test]
fn parse_last_run_returns_none_when_absent() {
    let s = Schedule {
        id: "x".into(),
        cron: "* * * * *".into(),
        cwd: "/tmp".into(),
        prompt: "p".into(),
        model: None,
        max_iterations: None,
        timeout_secs: None,
        enabled: true,
        watch_workspace: false,
        last_run: None,
        last_exit: None,
        run_at: None,
    };
    assert!(parse_last_run(&s).is_none());
}

#[test]
fn launchd_plist_has_required_keys() {
    let plist = build_launchd_plist(
        "/usr/local/bin/thclaws",
        "/Users/x/.local/share/thclaws/daemon.log",
    );
    assert!(plist.contains("<string>sh.thclaws.scheduler</string>"));
    assert!(plist.contains("<string>/usr/local/bin/thclaws</string>"));
    assert!(plist.contains("<string>daemon</string>"));
    assert!(plist.contains("<key>RunAtLoad</key>\n    <true/>"));
    assert!(plist.contains("<key>KeepAlive</key>\n    <true/>"));
    assert!(plist.contains("<string>/Users/x/.local/share/thclaws/daemon.log</string>"));
}

#[test]
fn systemd_unit_has_required_keys() {
    let unit = build_systemd_unit(
        "/usr/local/bin/thclaws",
        "/home/x/.local/share/thclaws/daemon.log",
    );
    assert!(unit.contains("ExecStart=/usr/local/bin/thclaws daemon"));
    assert!(unit.contains("Restart=on-failure"));
    assert!(unit.contains("WantedBy=default.target"));
    assert!(unit.contains("/home/x/.local/share/thclaws/daemon.log"));
}

#[test]
fn parse_relative_duration_units() {
    let parse = |s: &str| parse_relative_duration(s).map(Duration::seconds);
    assert_eq!(parse("90s").unwrap(), Duration::seconds(90));
    assert_eq!(parse("15m").unwrap(), Duration::minutes(15));
    assert_eq!(parse("2h").unwrap(), Duration::hours(2));
    assert_eq!(parse("1d").unwrap(), Duration::days(1));
    assert_eq!(parse("45").unwrap(), Duration::seconds(45));
    assert!(parse_relative_duration("soon").is_err());
    assert!(parse_relative_duration("0m").is_err());
    assert!(parse_relative_duration("-5m").is_err());
}

#[test]
fn next_fire_one_shot_fires_once_and_catches_up() {
    let now = now();
    let past = stamp(ago(now, 3_600));
    let pending = Schedule { run_at: Some(past.clone()), ..Default::default() };
    let next = next_fire(&pending, now).expect("pending one-shot is due");
    assert!(next <= now, "past run_at should be due now");

    let fired =
        Schedule { run_at: Some(past), last_run: Some(stamp(now)), ..Default::default() };
    assert!(next_fire(&fired, now).is_none());
}

#[test]
fn is_path_ignored_treats_root_event_as_ignored() {
    let root = "/work/proj";
    assert!(is_path_ignored(root, root));
}

#[test]
fn compute_next_n_fires_returns_n() {
    let after = moment("2026-05-06T08:00:00Z");
    let fires = compute_next_n_fires("0 9 * * *", after, 3);
    assert_eq!(fires.len(), 3);
    assert_eq!(date(fires[0]).format("%Y-%m-%dT%H:%M").to_string(), "2026-05-06T09:00");
    assert_eq!(date(fires[1]).format("%Y-%m-%dT%H:%M").to_string(), "2026-05-07T09:00");
    assert_eq!(date(fires[2]).format("%Y-%m-%dT%H:%M").to_string(), "2026-05-08T09:00");
}

#[test]
fn compute_next_fire_handles_minute_cron() {
    let after = moment("2026-05-06T08:00:00Z");
    let next = compute_next_fire("30 8 * * *", after).unwrap();
    assert_eq!(date(next).format("%H:%M").to_string(), "08:30");
    assert_eq!(date(next).format("%Y-%m-%d").to_string(), "2026-05-06");
}

#[test]
fn parse_last_run_parses_rfc3339() {
    let s = Schedule {
        id: "x".into(),
        cron: "* * * * *".into(),
        cwd: "/tmp".into(),
        prompt: "p".into(),
        enabled: true,
        last_run: Some("2026-05-06T12:34:56Z".into()),
        ..Default::default()
    };
    let parsed = parse_last_run(&s).unwrap();
    assert_eq!(
        date(parsed).format("%Y-%m-%dT%H:%M:%SZ").to_string(),
        "2026-05-06T12:34:56Z"
    );
}

#[test]
fn pid_alive_detects_self() {
    assert!(pid_alive(0, None), "current process should be alive");
    assert!(pid_alive(-1, Some(1)));
}

#[test]
fn pid_alive_rejects_dead_pid() {
    assert!(!pid_alive(-1, Some(3)));
    assert!(!pid_alive(-1, None));
}

#[test]
fn tick_lifecycle_end_to_end() {
    let now = now();
    let two_min_ago = stamp(ago(now, 120));
    let mut store = ScheduleStore::default();
    let mut due = job("due");
    due.last_run = Some(two_min_ago.clone());
    store.add(due).unwrap();
    store.add(job("fresh")).unwrap();
    let mut off = job("off");
    off.enabled = false;
    off.last_run = Some(two_min_ago.clone());
    store.add(off).unwrap();

    let mut sched =
        InProcessScheduler::with_store_path("thclaws".into(), "schedules.json".into());
    let mut read: Result<ScheduleStore, Error> = Ok(store);
    let ids = sched.tick(&read, now);
    assert_eq!(ids, vec!["due".to_string()]);
    // Still running: passed over.
    assert!(sched.tick(&read, now).is_empty());
    for id in &ids {
        record_run(read.as_mut().unwrap(), id, now, Some(0));
        sched.finish(id);
    }

    let mut total_fires = 1;
    loop {
        let more = sched.tick(&read, now);
        if more.is_empty() {
            break;
        }
        total_fires += more.len();
        for id in &more {
            sched.finish(id);
        }
        assert!(total_fires < 10, "scheduler must not loop forever");
    }
    assert_eq!(total_fires, 2);

    let store = read.unwrap();
    let due = store.get("due").unwrap();
    assert!(due.last_run.is_some(), "due schedule should have lastRun");
    assert_eq!(due.last_exit, Some(0));
    let fresh = store.get("fresh").unwrap();
    assert!(fresh.last_run.is_none(), "fresh schedule should not have fired");
    let off = store.get("off").unwrap();
    assert_eq!(
        off.last_run.as_deref(),
        Some(two_min_ago.as_str()),
        "disabled schedule should be untouched"
    );
}

#[test]
fn watch_manager_skips_watch_workspace_false() {
    let mut store = ScheduleStore::default();
    let mut listens = job("listens");
    listens.watch_workspace = true;
    let mut off = job("off");
    off.watch_workspace = true;
    off.enabled = false;
    store.add(listens).unwrap();
    store.add(off).unwrap();
    store.add(job("deaf")).unwrap();
    let list = watched(&store);
    assert_eq!(list.len(), 1);
    assert_eq!(list[0].id, "listens");
    assert_eq!(list[0].cwd, "/tmp");
}

#[test]
fn watch_gate_waits_for_the_end_and_the_cooldown() {
    let mut gate = WatchGate::new();
    assert!(gate.change("a", 1_000));
    assert!(!gate.change("a", 100_000));
    gate.done("a");
    assert!(!gate.change("a", 60_999));
    assert!(gate.change("b", 60_999));
    assert!(gate.change("a", 61_000));
    assert!(!gate.change("b", 500_000));
}

#[test]
fn one_shot_is_disabled_once_it_has_run() {
    let at = moment("2026-05-24T15:30:00Z");
    let mut store = ScheduleStore::default();
    let mut once = job("once");
    once.cron = String::new();
    once.run_at = Some("2026-05-24T15:30:00Z".into());
    store.add(once).unwrap();
    store.add(job("daily")).unwrap();
    record_run(&mut store, "once", at, None);
    record_run(&mut store, "daily", at, Some(7));
    record_run(&mut store, "gone", at, Some(7));
    let once = store.get("once").unwrap();
    assert!(!once.enabled);
    assert_eq!(once.last_exit, None);
    assert_eq!(once.last_run.as_deref(), Some("2026-05-24T15:30:00+00:00"));
    assert_eq!(parse_last_run(once), Some(at));
    assert!(next_fire(once, at).is_none());
    let daily = store.get("daily").unwrap();
    assert!(daily.enabled);
    assert_eq!(daily.last_exit, Some(7));
}

#[test]
fn runs_are_refused_with_a_reason() {
    let mut store = ScheduleStore::default();
    let mut off = job("off");
    off.enabled = false;
    store.add(off).unwrap();
    store.add(job("on")).unwrap();
    let message = |id: &str, exists: bool| {
        runnable(&store, id, exists).err().map(|e| e.message().to_string())
    };
    assert_eq!(message("x", true).unwrap(), "no schedule with id 'x'");
    assert_eq!(
        message("off", true).unwrap(),
        "schedule 'off' is disabled — enable it before running"
    );
    assert_eq!(message("on", false).unwrap(), "schedule 'on' cwd does not exist: /tmp");
    assert_eq!(message("on", true), None);
}

#[test]
fn job_arguments_and_logs() {
    let mut j = job("a");
    assert_eq!(job_args(&j), ["--print", "p"]);
    j.model = Some("gpt-4o".into());
    j.max_iterations = Some(20);
    assert_eq!(
        job_args(&j),
        ["--print", "p", "--model", "gpt-4o", "--max-iterations", "20"]
    );
    let dir = log_dir_for(Some("/home/x"), "a").unwrap();
    assert_eq!(dir, "/home/x/.local/share/thclaws/logs/a");
    assert!(log_dir_for(None, "a").is_err());
    assert_eq!(
        log_path_for(&dir, moment("2026-05-06T13:42:09Z")),
        "/home/x/.local/share/thclaws/logs/a/2026-05-06T13-42-09Z.log"
    );
    let outcome = RunOutcome {
        log_path: "/l".into(),
        exit_code: Some(-1),
        duration_ms: 61_005,
        timed_out: false,
    };
    assert_eq!(
        fired_line("a", &outcome),
        "\x1b[36m[schedule] 'a' fired — exit=-1 duration=61.005s log=/l\x1b[0m"
    );
    let outcome = RunOutcome { exit_code: None, ..outcome };
    assert_eq!(
        watch_done_line("a", &outcome),
        "\x1b[36m[watch] 'a' done — exit=(timeout) duration=61.005s log=/l\x1b[0m"
    );
}

#[test]
fn waiting_ends_with_the_process_or_the_time() {
    assert_eq!(wait_step(Some(Some(7)), 5_000, Some(1_000)), WaitStep::Ended(Some(7)));
    assert_eq!(wait_step(Some(None), 0, None), WaitStep::Ended(None));
    assert_eq!(wait_step(None, 999, Some(1_000)), WaitStep::Sleep);
    assert_eq!(wait_step(None, 1_000, Some(1_000)), WaitStep::Kill);
    assert_eq!(wait_step(None, u64::MAX, None), WaitStep::Sleep);
}

#[test]
fn cron_gets_a_field_for_seconds() {
    assert_eq!(normalize_cron("  */5 * * * * "), "0 */5 * * * *");
    assert_eq!(normalize_cron("1 2 3 4 5 6"), "1 2 3 4 5 6");
}

#[test]
fn delays_are_read_or_refused() {
    assert_eq!(parse_relative_duration(" 15 m ").unwrap(), 900);
    assert_eq!(
        parse_relative_duration("").unwrap_err().message(),
        "invalid --in duration '': use forms like 15m, 2h, 90s, 1d"
    );
    assert_eq!(
        parse_relative_duration("-5m").unwrap_err().message(),
        "invalid --in duration '-5m': must be a positive amount of time"
    );
    assert!(parse_relative_duration("9223372036854775807d").is_err());
    assert!(parse_relative_duration("9223372036854775808").is_err());
    assert!(parse_relative_duration("5é").is_err());
}

#[test]
fn daemon_states() {
    assert_eq!(recorded_pid(Some(" 42\n")), Some(42));
    assert_eq!(recorded_pid(Some("+7")), Some(7));
    assert_eq!(recorded_pid(Some("4294967296")), None);
    assert_eq!(recorded_pid(Some("x")), None);
    assert_eq!(recorded_pid(None), None);
    assert_eq!(daemon_status(Some(42), true), DaemonStatus::Running(42));
    assert_eq!(daemon_status(Some(42), false), DaemonStatus::Stale(42));
    assert_eq!(daemon_status(None, true), DaemonStatus::NotRunning);
    assert_eq!(
        claim(DaemonStatus::Running(9)).unwrap_err().message(),
        "another daemon is already running (pid 9); stop it with `thclaws schedule uninstall` or `kill 9` first"
    );
    assert!(claim(DaemonStatus::Stale(9)).unwrap().unwrap().contains("last pid 9"));
    assert!(claim(DaemonStatus::NotRunning).unwrap().is_none());
    assert_eq!(
        pid_file_path(Some("/home/x")).unwrap(),
        "/home/x/.local/state/thclaws/scheduler.pid"
    );
    assert_eq!(
        started_line(3, "/p"),
        "\x1b[36m[daemon] thclaws scheduler started (pid 3, pid file /p)\x1b[0m"
    );
}

#[test]
fn daemon_is_installed_by_platform() {
    assert_eq!(
        supervisor_file_path(Some("/u"), Platform::MacOs).unwrap(),
        "/u/Library/LaunchAgents/sh.thclaws.scheduler.plist"
    );
    assert_eq!(daemon_log_path(Some("/u")).unwrap(), "/u/.local/share/thclaws/daemon.log");
    let plan = install_daemon(Some("/u"), Platform::Linux, "linux", "/bin/t").unwrap();
    assert_eq!(plan.path, "/u/.config/systemd/user/thclaws-scheduler.service");
    assert_eq!(plan.body, build_systemd_unit("/bin/t", "/u/.local/share/thclaws/daemon.log"));
    assert_eq!(plan.next_steps.len(), 2);
    assert!(!plan.bootstrap);
    let plan = install_daemon(Some("/u"), Platform::MacOs, "macos", "/bin/t").unwrap();
    assert!(plan.bootstrap);
    assert!(plan.next_steps.is_empty());
    assert_eq!(
        uninstall_daemon(Some("/u"), Platform::Linux, "linux").unwrap(),
        "/u/.config/systemd/user/thclaws-scheduler.service"
    );
    assert_eq!(
        install_daemon(Some("/u"), Platform::Other, "windows", "t").unwrap_err().message(),
        "daemon install not yet supported on this platform (target_os=windows)"
    );
    assert_eq!(
        uninstall_daemon(None, Platform::Linux, "linux").unwrap_err().message(),
        "daemon uninstall not yet supported on this platform (target_os=linux)"
    );
}

#[test]
fn unreadable_stores_are_passed_over() {
    let now = now();
    let mut due = job("due");
    due.last_run = Some(stamp(ago(now, 120)));
    let mut store = ScheduleStore::default();
    store.add(due).unwrap();
    let mut sched = InProcessScheduler::new("thclaws".into());
    let unread: Result<ScheduleStore, Error> = Err(Error::Config("EOF".to_string()));
    assert!(sched.tick(&unread, now).is_empty());
    assert!(sched.cursors.entries.is_empty());
    assert_eq!(sched.tick(&Ok(store), now), vec!["due".to_string()]);
    assert!(sched.tick(&unread, now).is_empty());
    assert_eq!(sched.running, vec!["due".to_string()]);
}
