//! The command line, and what stands between it and the rest.

use thclaws_core::clock::{later, UtcTime};
use thclaws_core::daemon::{DaemonStatus, InstallReport};
use thclaws_core::history::{exceeds_context_limit, truncate_result, SavedOutput};
use thclaws_core::keyed::Keyed;
use thclaws_core::launch::{
    detaches, opens_loopback, permissions, print_prompt, runs_scheduler, stray_copies, stray_lines,
    surface, tool_names, Surface, Switches,
};
use thclaws_core::paths::{components, is_path_ignored, join};
use thclaws_core::remote_agent::{
    clear_token, keychain_writable, set_token, token, token_store, url, with_variable,
    without_variable, TokenClear, TokenStore, TokenWrite, KEYCHAIN_KEY,
};
use thclaws_core::schedule::{
    finish_run, log_dir_for, parse_run_at, seconds_text, validate_trigger, RunOutcome, Schedule, ScheduleStore,
};
use thclaws_core::schedule_cli::{
    add_schedule, error_line, install_lines, list_line, list_lines, missing_line, new_entry,
    remove_schedule, resolve_run_at, run_report, run_result, status_lines,
    uninstall_report, AddArgs,
};
use thclaws_core::schedule_presets::{find, format_preset_list, preset_job, render_description};
use thclaws_core::secrets::{
    backend_path, bundle_text, legacy_names, migrate, parse_bundle, resolved_backend, Backend,
    ClearStep, Export, KeySource, Vault, MANAGED,
};
use thclaws_core::text;
use thclaws_core::types::Error;

const NOW: UtcTime = UtcTime { secs: 1_777_000_000, nanos: 0 };

fn add_args() -> AddArgs {
    AddArgs {
        id: "job".to_string(),
        cron: None,
        at: None,
        in_delay: None,
        prompt: "go".to_string(),
        cwd: Ok("/work".to_string()),
        model: None,
        max_iterations: None,
        timeout: 600,
        disabled: false,
        watch: false,
    }
}

// ---------------------------------------------------------------------------
// schedule add
// ---------------------------------------------------------------------------

#[test]
fn jobs_are_made_from_arguments() {
    let job = new_entry(
        AddArgs { cron: Some("0 9 * * *".to_string()), watch: true, ..add_args() },
        true,
        NOW,
    )
    .unwrap();
    assert_eq!(job.cron, "0 9 * * *");
    assert_eq!(job.run_at, None);
    assert_eq!(job.timeout_secs, Some(600));
    assert!(job.enabled && job.watch_workspace);
    let job = new_entry(
        AddArgs {
            in_delay: Some("90s".to_string()),
            timeout: 0,
            disabled: true,
            ..add_args()
        },
        true,
        NOW,
    )
    .unwrap();
    assert_eq!(job.cron, "");
    assert_eq!(job.timeout_secs, None);
    assert!(!job.enabled);
    assert_eq!(parse_run_at(&job.run_at.unwrap()).unwrap(), later(NOW, 90).unwrap());
}

#[test]
fn moments_of_one_shot_jobs_are_resolved() {
    let at = Some("2026-05-01T09:00:00+02:00".to_string());
    let r = resolve_run_at(&at, &None, NOW).unwrap().unwrap();
    assert_eq!(r, "2026-05-01T07:00:00+00:00");
    assert_eq!(resolve_run_at(&None, &None, NOW), Ok(None));
    assert!(matches!(
        resolve_run_at(&Some("tomorrow".to_string()), &None, NOW),
        Err(Error::Config(_)) | Err(Error::Tool(_)) | Err(Error::Agent(_))
    ));
    assert!(resolve_run_at(&None, &Some("soon".to_string()), NOW).is_err());
}

#[test]
fn jobs_without_trigger_or_directory_are_refused() {
    let e = new_entry(add_args(), true, NOW).unwrap_err();
    assert_eq!(e, error_line("a schedule needs a trigger — pass --cron for recurring, or --at/--in for a one-shot"));
    let e = new_entry(AddArgs { cron: Some("* * * * *".to_string()), ..add_args() }, false, NOW)
        .unwrap_err();
    assert_eq!(e, "\x1b[31merror: cwd does not exist: /work\x1b[0m");
    let e = new_entry(
        AddArgs {
            cron: Some("* * * * *".to_string()),
            cwd: Err("gone".to_string()),
            ..add_args()
        },
        false,
        NOW,
    )
    .unwrap_err();
    assert_eq!(e, "\x1b[31merror: cannot read current dir: gone\x1b[0m");
    let e = new_entry(AddArgs { cwd: Err("gone".to_string()), ..add_args() }, false, NOW);
    assert!(e.unwrap_err().contains("needs a trigger"));
}

#[test]
fn stores_are_changed_by_name() {
    let mut store = ScheduleStore::default();
    let job = || Schedule {
        id: "a".to_string(),
        cron: "* * * * *".to_string(),
        cwd: "/w".to_string(),
        prompt: "p".to_string(),
        ..Default::default()
    };
    assert_eq!(add_schedule(&mut store, job()), Ok("added schedule 'a'".to_string()));
    assert!(add_schedule(&mut store, job()).unwrap_err().contains("a"));
    assert_eq!(store.schedules.len(), 1);
    assert_eq!(remove_schedule(&mut store, "b"), Err(missing_line("b")));
    assert_eq!(remove_schedule(&mut store, "a"), Ok("removed schedule 'a'".to_string()));
    assert!(store.schedules.is_empty());
    assert_eq!(missing_line("b"), "\x1b[31merror: no schedule with id 'b'\x1b[0m");
}

// ---------------------------------------------------------------------------
// schedule list, status, run
// ---------------------------------------------------------------------------

#[test]
fn lists_are_aligned() {
    let store = ScheduleStore::default();
    assert_eq!(
        list_lines(&store),
        vec!["no schedules — `thclaws schedule add <id> --cron \"...\" --prompt \"...\"`"]
    );
    let s = Schedule {
        id: "a".to_string(),
        cron: "0 9 * * *".to_string(),
        cwd: "/w".to_string(),
        prompt: "p".to_string(),
        enabled: true,
        watch_workspace: true,
        last_exit: Some(2),
        ..Default::default()
    };
    assert_eq!(
        list_line(&s),
        "on   err +watch  a                         0 9 * * *                       never  /w"
    );
    let once = Schedule {
        run_at: Some("T".to_string()),
        last_run: Some("L".to_string()),
        enabled: false,
        watch_workspace: false,
        last_exit: Some(0),
        ..s
    };
    let line = list_line(&once);
    assert!(line.starts_with("off  ok          a "), "{line:?}");
    assert!(line.contains("once@T (fired)"));
}

#[test]
fn the_status_names_the_last_runs() {
    let mut store = ScheduleStore::default();
    assert_eq!(
        status_lines(DaemonStatus::Running(7), Some(&store)),
        vec!["daemon: \x1b[32mrunning\x1b[0m (pid 7)"]
    );
    store.schedules.push(Schedule { id: "a".to_string(), ..Default::default() });
    let lines = status_lines(DaemonStatus::NotRunning, Some(&store));
    assert_eq!(lines[1], "\nrecent fires:");
    assert_eq!(lines[2], "  —    a                         never");
    assert_eq!(status_lines(DaemonStatus::Stale(7), None).len(), 1);
}

#[test]
fn installations_say_what_is_left_to_do() {
    let report = InstallReport {
        supervisor_path: "/x.service".to_string(),
        next_steps: vec!["systemctl --user daemon-reload".to_string()],
    };
    assert_eq!(
        install_lines(&report),
        vec!["wrote /x.service", "\nnext steps:", "  $ systemctl --user daemon-reload"]
    );
    let report = InstallReport { next_steps: Vec::new(), ..report };
    assert_eq!(install_lines(&report)[1], "daemon bootstrapped — `thclaws schedule status` to verify");
    assert_eq!(uninstall_report("/x", false), ("daemon uninstalled".to_string(), 0));
    assert_eq!(uninstall_report("/x", true).1, 1);
}

#[test]
fn runs_report_their_exit_code() {
    let outcome = |exit_code, timed_out| RunOutcome {
        log_path: "/log".to_string(),
        exit_code,
        duration_ms: 1250,
        timed_out,
    };
    let (lines, code) = run_report("a", &outcome(Some(3), false));
    assert_eq!(code, 3);
    assert_eq!(
        lines,
        vec![format!("\x1b[36m[schedule] 'a' ran in {}s, log: /log\x1b[0m", seconds_text(1250))]
    );
    assert_eq!(run_report("a", &outcome(None, false)).1, 1);
    let (lines, code) = run_report("a", &outcome(None, true));
    assert_eq!(code, 124);
    assert_eq!(lines[1], "\x1b[33m[schedule] 'a' timed out\x1b[0m");
    assert_eq!(run_result("a", Ok(&outcome(None, true))).1, 124);
    assert_eq!(run_result("a", Ok(&outcome(Some(3), false))).1, 3);
    assert_eq!(run_result("a", Ok(&outcome(None, false))).1, 1);
    let failed = Error::Config("no schedule with id 'a'".to_string());
    assert_eq!(
        run_result("a", Err(&failed)),
        (vec![error_line("config error: no schedule with id 'a'")], 1)
    );
}

#[test]
fn runs_that_fail_are_recorded_too() {
    let store = || ScheduleStore {
        version: 1,
        schedules: vec![Schedule {
            id: "a".to_string(),
            run_at: Some("2026-04-24T00:00:00Z".to_string()),
            enabled: true,
            last_exit: Some(7),
            ..Default::default()
        }],
    };
    let mut failed = store();
    finish_run(&mut failed, "a", NOW, &Err(Error::Tool("spawn: gone".to_string())));
    assert_eq!(parse_run_at(failed.schedules[0].last_run.as_deref().unwrap()), Ok(NOW));
    assert_eq!(failed.schedules[0].last_exit, None);
    assert!(!failed.schedules[0].enabled);
    let mut ended = store();
    let run = RunOutcome {
        log_path: "/log".to_string(),
        exit_code: Some(0),
        duration_ms: 1,
        timed_out: false,
    };
    finish_run(&mut ended, "a", NOW, &Ok(run));
    assert_eq!(ended.schedules[0].last_exit, Some(0));
}

#[test]
fn stores_are_found_and_read() {
    assert_eq!(
        ScheduleStore::save_path(Some("/h")),
        Ok("/h/.config/thclaws/schedules.json".to_string())
    );
    assert_eq!(
        ScheduleStore::save_path(None),
        Err(Error::Config("no home directory found — cannot locate schedule store".to_string()))
    );
    let empty = ScheduleStore::load_from("/s", None).unwrap();
    assert_eq!(empty.version, 1);
    assert!(empty.schedules.is_empty());
    let one = ScheduleStore { version: 1, schedules: vec![Schedule::default()] };
    assert_eq!(ScheduleStore::load_from("/s", Some(Ok(one))).unwrap().schedules.len(), 1);
    match ScheduleStore::load_from("/s", Some(Err("EOF".to_string()))) {
        Err(e) => assert_eq!(e, Error::Config("/s: EOF".to_string())),
        Ok(_) => panic!("read"),
    }
}

#[test]
fn log_directories_are_named_after_jobs() {
    assert_eq!(
        log_dir_for(Some("/home/u"), "a"),
        Ok("/home/u/.local/share/thclaws/logs/a".to_string())
    );
    assert!(log_dir_for(None, "a").is_err());
}

// ---------------------------------------------------------------------------
// Ready-made schedules
// ---------------------------------------------------------------------------

#[test]
fn ready_made_schedules_are_listed_and_made() {
    let list = format_preset_list();
    assert!(list.starts_with("schedule presets:\n  ID                     CRON           DESCRIPTION\n"));
    assert!(list.ends_with("\nadd via: /schedule preset add <id> --kms <name> [--cwd <path>]\n"));
    let p = find("nightly-close").unwrap();
    assert!(list.contains(p.id));
    assert!(render_description(&p, "notes").contains("(KMS 'notes')"));
    let job = preset_job("nightly-close", "notes", "/w".to_string()).unwrap();
    assert_eq!(job.id, "nightly-close-notes");
    assert!(validate_trigger(&job).is_ok());
}

// ---------------------------------------------------------------------------
// Starting up
// ---------------------------------------------------------------------------

#[test]
fn surfaces_follow_the_switches() {
    let none = Switches { cli: false, print: false, serve: false, gui: false, no_scheduler: false };
    assert_eq!(surface(none), Surface::Window);
    assert_eq!(surface(Switches { print: true, ..none }), Surface::Print);
    assert_eq!(surface(Switches { serve: true, ..none }), Surface::Serve);
    assert_eq!(surface(Switches { serve: true, gui: true, ..none }), Surface::ServeWithWindow);
    assert_eq!(
        surface(Switches { serve: true, gui: true, cli: true, ..none }),
        Surface::WindowRefused
    );
    assert!(detaches(none));
    assert!(!detaches(Switches { cli: true, ..none }));
    assert!(!detaches(Switches { serve: true, ..none }));
    assert!(runs_scheduler(none));
    assert!(!runs_scheduler(Switches { print: true, ..none }));
    assert!(!runs_scheduler(Switches { no_scheduler: true, ..none }));
    assert!(opens_loopback(none));
    assert!(!opens_loopback(Switches { serve: true, ..none }));
}

#[test]
fn settings_of_the_command_line_come_first() {
    assert_eq!(permissions("ask".to_string(), false, None), "ask");
    assert_eq!(permissions("ask".to_string(), true, None), "auto");
    assert_eq!(permissions("ask".to_string(), true, Some("plan".to_string())), "plan");
    assert_eq!(tool_names("Read, Write,,Ls"), tool_names("Read,Write,,Ls"));
    assert_eq!(
        print_prompt(&vec!["say".to_string(), "hi".to_string()]),
        Ok("say hi".to_string())
    );
    assert_eq!(
        print_prompt(&Vec::new()),
        Err("\x1b[31m--print requires a prompt argument\x1b[0m".to_string())
    );
}

#[test]
fn stray_copies_are_named_once() {
    let found: Vec<String> =
        ["/a/thclaws", "/b/thclaws", "/a/thclaws", "/b/thclaws"].iter().map(|s| s.to_string()).collect();
    let strays = stray_copies(Some("/a/thclaws"), &found);
    assert_eq!(strays, vec!["/b/thclaws".to_string()]);
    let lines = stray_lines("thclaws", "rm", "/a/thclaws", &strays);
    assert_eq!(lines[1], "  running:  /a/thclaws");
    assert_eq!(lines[2], "  also at:  /b/thclaws");
    assert!(stray_lines("thclaws", "rm", "/a/thclaws", &Vec::new()).is_empty());
}

// ---------------------------------------------------------------------------
// Keys
// ---------------------------------------------------------------------------

fn vault(chosen: Option<Backend>) -> Vault {
    let mut bundle = Keyed::new();
    bundle.set("openai", "sk-1".to_string());
    Vault { disabled: false, chosen, bundle }
}

#[test]
fn the_keychain_is_read_only_by_choice() {
    assert_eq!(vault(None).get("openai"), None);
    assert_eq!(vault(Some(Backend::Dotenv)).get("openai"), None);
    let mut v = vault(Some(Backend::Keychain));
    assert_eq!(v.get("openai"), Some("sk-1".to_string()));
    v.disabled = true;
    assert_eq!(v.get("openai"), None);
    assert!(!Vault::may_read(true, Some(Backend::Keychain)));
    assert_eq!(resolved_backend(None), Backend::Dotenv);
    assert_eq!(Backend::Keychain.as_str(), "keychain");
    assert_eq!(
        backend_path(Some("/h")),
        Some("/h/.config/thclaws/secrets.json".to_string())
    );
}

#[test]
fn keys_are_set_and_cleared() {
    let mut v = vault(Some(Backend::Keychain));
    v.set("gemini", "g").unwrap();
    assert_eq!(v.get("gemini"), Some("g".to_string()));
    assert_eq!(v.clear("gemini"), ClearStep::Write);
    assert_eq!(v.get("gemini"), None);
    assert_eq!(v.clear("openai"), ClearStep::Remove);
    let mut v = vault(Some(Backend::Dotenv));
    assert_eq!(
        v.set("x", "y"),
        Err(Error::Config("keychain disabled by user preference".to_string()))
    );
    assert_eq!(v.clear("openai"), ClearStep::Nothing);
}

#[test]
fn bundles_read_back() {
    let mut keys: Keyed<String> = Keyed::new();
    keys.set("openai", "sk-\"1\"".to_string());
    keys.set("anthropic", "é".to_string());
    let back = parse_bundle(Some(&bundle_text(&keys)));
    assert_eq!(back.get("openai"), Some(&"sk-\"1\"".to_string()));
    assert_eq!(back.get("anthropic"), Some(&"é".to_string()));
    assert!(parse_bundle(None).entries.is_empty());
    assert!(parse_bundle(Some("not json")).entries.is_empty());
}

#[test]
fn the_environment_comes_first() {
    let mut v = vault(Some(Backend::Keychain));
    v.set("tavily", "tv").unwrap();
    let mut env: Keyed<String> = Keyed::new();
    assert_eq!(
        v.load_into_env(false, &env).unwrap(),
        vec![
            Export { env_var: "OPENAI_API_KEY".to_string(), value: "sk-1".to_string() },
            Export { env_var: "TAVILY_API_KEY".to_string(), value: "tv".to_string() },
        ]
    );
    env.set("OPENAI_API_KEY", "mine".to_string());
    assert_eq!(v.load_into_env(false, &env).unwrap().len(), 1);
    assert!(v.load_into_env(true, &env).is_none());
    assert!(vault(None).load_into_env(false, &env).is_none());
    let status = v.status(&env);
    let openai = status.iter().find(|s| s.provider == "openai").unwrap();
    assert!(openai.configured_in_keychain);
    assert_eq!(openai.env_source, KeySource::Environment);
    assert_eq!(openai.key_length, 4);
}

#[test]
fn single_entries_are_taken_over() {
    let mut bundle: Keyed<String> = Keyed::new();
    bundle.set("openai", "sk-1".to_string());
    let names = legacy_names(&bundle);
    assert_eq!(names.len(), MANAGED.len() - 1);
    assert!(!names.contains(&"openai"));
    let mut found: Keyed<String> = Keyed::new();
    assert!(!migrate(&mut bundle, &found));
    found.set("gemini", "g".to_string());
    assert!(migrate(&mut bundle, &found));
    assert_eq!(bundle.get("gemini"), Some(&"g".to_string()));
    assert_eq!(bundle.get("openai"), Some(&"sk-1".to_string()));
}

#[test]
fn remote_tokens_are_resolved() {
    assert_eq!(url(Some("  https://pod.test ")), Some("https://pod.test".to_string()));
    assert_eq!(url(Some("  ")), None);
    assert_eq!(url(None), None);
    assert_eq!(token(Some(" env "), Some("kept".to_string())), Some("env".to_string()));
    assert_eq!(token(Some(" "), Some("kept".to_string())), Some("kept".to_string()));
    assert_eq!(token(None, None), None);
    assert_eq!(token_store(None), TokenStore::Keychain);
    assert_eq!(token_store(Some(Backend::Dotenv)), TokenStore::Dotenv);
    assert!(keychain_writable(Some(Backend::Keychain)));
    assert!(keychain_writable(Some(Backend::Dotenv)));
    assert!(!keychain_writable(None));
}

#[test]
fn remote_tokens_are_kept_and_cleared() {
    let mut v = vault(Some(Backend::Keychain));
    assert_eq!(set_token(&mut v, "", "abc"), Ok(TokenWrite::Bundle));
    assert_eq!(token(None, v.get(KEYCHAIN_KEY)), Some("abc".to_string()));
    assert_eq!(clear_token(&mut v, ""), TokenClear::Bundle(ClearStep::Write));
    assert_eq!(v.get(KEYCHAIN_KEY), None);
    assert_eq!(token(None, v.get(KEYCHAIN_KEY)), None);
    assert_eq!(v.get("openai"), Some("sk-1".to_string()));
    let before = v.bundle.entries.clone();
    assert_eq!(clear_token(&mut v, ""), TokenClear::Bundle(ClearStep::Write));
    assert_eq!(v.bundle.entries, before);
    let mut v = vault(Some(Backend::Dotenv));
    assert_eq!(
        set_token(&mut v, "A=1\n", "abc"),
        Ok(TokenWrite::Variables("A=1\nTHCLAWS_REMOTE_AGENT_TOKEN=abc\n".to_string()))
    );
    assert_eq!(
        clear_token(&mut v, "A=1\nTHCLAWS_REMOTE_AGENT_TOKEN=abc\n"),
        TokenClear::Variables(Some("A=1\n".to_string()))
    );
    assert_eq!(clear_token(&mut v, "A=1\n"), TokenClear::Variables(None));
    let mut v = vault(None);
    assert_eq!(
        set_token(&mut v, "", "abc"),
        Err(Error::Config("keychain disabled by user preference".to_string()))
    );
    assert_eq!(clear_token(&mut v, ""), TokenClear::Bundle(ClearStep::Nothing));
}

#[test]
fn variables_are_dropped_from_their_file() {
    assert_eq!(without_variable("A=0\nB=2\nA=3\n", "A"), Some("B=2\n".to_string()));
    assert_eq!(without_variable("A=0\n", "A"), Some(String::new()));
    assert_eq!(without_variable("AB=0\n", "A"), None);
}

#[test]
fn variables_stand_once_in_their_file() {
    assert_eq!(with_variable("", "A", "1"), "A=1\n");
    assert_eq!(with_variable("A=0\nB=2\nA=3\nAB=4\n", "A", "1"), "B=2\nAB=4\nA=1\n");
    assert_eq!(with_variable("A=1\n", "A", ""), "A=\n");
}

// ---------------------------------------------------------------------------
// Texts and paths
// ---------------------------------------------------------------------------

#[test]
fn long_results_are_cut() {
    let long = "é".repeat(30_000);
    assert!(exceeds_context_limit(&long));
    assert!(!exceeds_context_limit("short"));
    let cut = truncate_result(&long, &SavedOutput::File("/tmp/x".to_string()));
    assert_eq!(
        cut,
        format!("{}\n\n... [truncated: 60000 total bytes — full output saved to /tmp/x]", "é".repeat(2000))
    );
    let cut = truncate_result(&long, &SavedOutput::Failed("full".to_string()));
    assert!(cut.ends_with("could not save full output to disk (full); preview only]"));
}

#[test]
fn paths_are_joined_and_taken_apart() {
    assert_eq!(join("/a", "b"), "/a/b");
    assert_eq!(join("/a/", "b"), "/a/b");
    assert_eq!(join("/a", "/b"), "/b");
    assert_eq!(components("/a//b/"), components("/a/b"));
    assert!(is_path_ignored("/w", "/w/.thclaws/logs/x"));
    assert!(!is_path_ignored("/w", "/w/src/main.rs"));
}

#[test]
fn texts_agree_with_std() {
    for s in ["", "  a b \n", "a/b/c", "ÄÖ é", "x\r\ny\n", "\u{3000}wide\u{3000}"] {
        assert_eq!(text::trim(s), s.trim());
        assert_eq!(text::trim_start(s), s.trim_start());
        assert_eq!(text::trim_end(s), s.trim_end());
        assert_eq!(text::lines(s), s.lines().map(|l| l.to_string()).collect::<Vec<_>>());
        assert_eq!(text::split(s, '/'), s.split('/').map(|l| l.to_string()).collect::<Vec<_>>());
        assert_eq!(text::replace(s, "b", "::"), s.replace("b", "::"));
        assert_eq!(text::contains(s, "b"), s.contains("b"));
        assert_eq!(text::ascii_lower(s), s.to_ascii_lowercase());
        assert_eq!(text::count_words(s), s.split_whitespace().count());
    }
    for s in ["0", "-12", "+7", "", "-", "9223372036854775807", "9223372036854775808", "1x"] {
        assert_eq!(text::parse_i64(s), s.parse::<i64>().ok());
        assert_eq!(text::parse_u32(s), s.parse::<u32>().ok());
    }
    assert_eq!(text::decimal(u64::MAX), u64::MAX.to_string());
    assert_eq!(text::signed_decimal(i32::MIN), i32::MIN.to_string());
    assert_eq!(text::pad_right("ab", 4), "ab  ");
    assert_eq!(text::pad_left("7", '0', 2), "07");
    let list = vec!["b".to_string(), "a".to_string(), "é".to_string(), "ab".to_string()];
    let mut sorted = list.clone();
    sorted.sort();
    assert_eq!(text::sort(list), sorted);
}
