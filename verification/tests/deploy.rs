//! Deployments, from the files on the laptop to the answer of the pod.

use serde_json::Value;

use thclaws_core::archive::{build_archive, TarFile};
use thclaws_core::deploy_client::{
    filter_stdio_mcp, render_sse, root_documents, scan_mcp_json, scan_stdio_mcp_names, summarize,
    top_level, Bundle, DeployArgs, DeployLog,
};
use thclaws_core::deploy_run::{
    shipped_file, Deploy, DeployAction, DeployEvent, DeployStep, PackFrom, PackItem, Scan,
    UploadReply,
};

fn args() -> DeployArgs {
    DeployArgs {
        pod: "https://pod.test/".to_string(),
        token: Some("secret".to_string()),
        include_memory: false,
        allow_stdio_mcp: false,
        dry_run: false,
        full: false,
        restart: false,
    }
}

fn bundle(files: &[(&str, &str)]) -> Bundle {
    let mut b = Bundle::new();
    for (path, body) in files {
        assert!(b.offer(path, &body.as_bytes().to_vec(), false));
    }
    b
}

fn found(b: Bundle) -> DeployEvent {
    DeployEvent::Scanned(Scan::Found(b))
}

fn texts(step: &DeployStep) -> Vec<String> {
    step.lines.iter().map(|l| l.text.clone()).collect()
}

const MIXED: &str = r#"{"mcpServers":{"local":{"command":"npx"},"remote":{"url":"https://x.test","transport":"http"}}}"#;

// ---------------------------------------------------------------------------
// What is shipped
// ---------------------------------------------------------------------------

#[test]
fn private_files_stay_home() {
    let mut b = Bundle::new();
    let body = b"x".to_vec();
    for path in ["sessions/a.json", "team/x", ".env", "memory/notes.md", "random.txt"] {
        assert!(!b.offer(path, &body, false), "{path}");
    }
    assert!(b.files.is_empty());
    for path in ["settings.json", "mcp.json", "AGENTS.md", "skills\\a\\SKILL.md", "kms/x.md"] {
        assert!(b.offer(path, &body, false), "{path}");
    }
    assert!(b.offer("memory/notes.md", &body, true));
    assert!(b.find("skills/a/SKILL.md").is_some());
    assert!(b.find("skills\\a\\SKILL.md").is_none());
}

#[test]
fn files_come_in_order_with_their_hashes() {
    let b = bundle(&[("skills/b", "hello"), ("agents/a", ""), ("skills/a", "x")]);
    let paths: Vec<&str> = b.files.iter().map(|f| f.path.as_str()).collect();
    assert_eq!(paths, vec!["agents/a", "skills/a", "skills/b"]);
    let f = b.find("skills/b").unwrap();
    assert_eq!(f.size, 5);
    assert_eq!(f.sha256, "2cf24dba5fb0a30e26e83b2ac5b9e29e1b161e5c1fa7425e73043362938b9824");
    assert_eq!(
        b.find("agents/a").unwrap().sha256,
        "e3b0c44298fc1c149afbf4c8996fb92427ae41e4649b934ca495991b7852b855"
    );
}

#[test]
fn a_file_offered_twice_is_there_once() {
    let mut b = bundle(&[("settings.json", "one")]);
    assert!(b.offer("settings.json", &b"longer".to_vec(), false));
    assert_eq!(b.files.len(), 1);
    assert_eq!(b.find("settings.json").unwrap().size, 6);
}

#[test]
fn documents_beside_the_settings_come_second() {
    let docs = vec!["AGENTS.md".to_string(), "OTHER.md".to_string()];
    let mut b = bundle(&[("AGENTS.md", "inside")]);
    assert!(!b.offer_beside("AGENTS.md", &b"root".to_vec(), &docs));
    assert!(b.offer_beside("OTHER.md", &b"root".to_vec(), &docs));
    assert!(!b.offer_beside("README.md", &b"root".to_vec(), &docs));
    assert!(!b.find("AGENTS.md").unwrap().beside);
    assert!(b.find("OTHER.md").unwrap().beside);
    assert_eq!(b.files.len(), 2);
}

// ---------------------------------------------------------------------------
// Servers
// ---------------------------------------------------------------------------

#[test]
fn programs_on_this_machine_are_found() {
    assert_eq!(scan_stdio_mcp_names(MIXED), Ok(vec!["local".to_string()]));
    assert_eq!(
        scan_mcp_json(MIXED),
        Err("mcp.json contains stdio MCP servers that won't resolve on the pod: local (each spawns a local binary)".to_string())
    );
    assert_eq!(scan_mcp_json(r#"{"mcpServers":{}}"#), Ok(()));
    assert_eq!(scan_stdio_mcp_names("{}"), Ok(Vec::new()));
    assert!(scan_stdio_mcp_names("{").is_err());
}

#[test]
fn stripping_leaves_remote_servers() {
    let (bytes, names) = filter_stdio_mcp(MIXED).unwrap().unwrap();
    assert_eq!(names, vec!["local".to_string()]);
    let v: Value = serde_json::from_slice(&bytes).unwrap();
    assert!(v["mcpServers"].get("local").is_none());
    assert_eq!(v["mcpServers"]["remote"]["url"], "https://x.test");
    let text = String::from_utf8(bytes).unwrap();
    assert_eq!(scan_stdio_mcp_names(&text), Ok(Vec::new()));
    assert_eq!(filter_stdio_mcp(r#"{"mcpServers":{}}"#), Ok(None));
    assert!(filter_stdio_mcp("[").is_err());
}

// ---------------------------------------------------------------------------
// The pod's answer
// ---------------------------------------------------------------------------

#[test]
fn answers_are_told_event_by_event() {
    assert_eq!(summarize(r#"{"a":1,"b":null,"c":"x"}"#), "a=1 c=\"x\"");
    assert_eq!(summarize("plain"), "plain");
    assert_eq!(summarize("[1]"), "[1]");
    let lines = render_sse(
        "event: extracted\ndata: {\"files\":3}\n\n: comment\nevent: lonely\n\nevent: error\ndata: boom",
    );
    assert_eq!(lines.len(), 2);
    assert_eq!(lines[0].text, "[deploy] extracted: files=3");
    assert_eq!(lines[0].level, DeployLog::Info);
    assert_eq!(lines[1].text, "[deploy] error: boom");
    assert_eq!(lines[1].level, DeployLog::Error);
}

// ---------------------------------------------------------------------------
// The archive
// ---------------------------------------------------------------------------

#[test]
fn archives_hold_the_files() {
    let files = vec![
        shipped_file("settings.json", 1_700_000_000, b"{}".to_vec()),
        shipped_file("skills/a/SKILL.md", 0, b"hello".to_vec()),
    ];
    let bytes = build_archive(&files).unwrap();
    assert_eq!(bytes.len() % 512, 0);
    let mut seen: Vec<(String, u32, u64, u64)> = Vec::new();
    let mut reader = tar::Archive::new(bytes.as_slice());
    for entry in reader.entries().unwrap() {
        let entry = entry.unwrap();
        let header = entry.header();
        seen.push((
            entry.path().unwrap().display().to_string(),
            header.mode().unwrap(),
            header.mtime().unwrap(),
            header.size().unwrap(),
        ));
    }
    assert_eq!(
        seen,
        vec![
            ("settings.json".to_string(), 0o644, 1_700_000_000, 2),
            ("skills/a/SKILL.md".to_string(), 0o644, 0, 5),
        ]
    );
    let none: Vec<TarFile> = Vec::new();
    assert_eq!(build_archive(&none).unwrap(), vec![0u8; 1024]);
}

#[test]
fn archives_take_ordinary_names_of_any_length() {
    let deep = format!("skills/{}x.md", "directory/".repeat(30));
    let cut = format!("a{}/..x", "é".repeat(60));
    let edge = format!("{}/..{}", "a".repeat(97), "tail");
    for path in [deep.as_str(), "kms/ein Blatt, größer.md", cut.as_str(), edge.as_str(), "a/..b/c."] {
        let bytes = build_archive(&vec![shipped_file(path, 7, b"x".to_vec())]).unwrap();
        let mut reader = tar::Archive::new(bytes.as_slice());
        let seen: Vec<String> = reader
            .entries()
            .unwrap()
            .map(|e| e.unwrap().path().unwrap().display().to_string())
            .collect();
        assert_eq!(seen, vec![path.to_string()]);
    }
}

#[test]
fn archives_refuse_what_leaves_them() {
    let long = format!("/{}", "a".repeat(200));
    for path in ["", "/etc/passwd", "../x", "a/../b", "a\0b", long.as_str()] {
        let files = vec![
            shipped_file("settings.json", 0, Vec::new()),
            shipped_file(path, 0, Vec::new()),
        ];
        assert!(build_archive(&files).is_err(), "{path:?}");
    }
}

// ---------------------------------------------------------------------------
// Whole deployments
// ---------------------------------------------------------------------------

#[test]
fn only_missing_files_are_shipped() {
    let mut d = Deploy::new(args(), None);
    let step = d.advance(found(bundle(&[("settings.json", "{}"), ("skills/a", "x")])));
    let (url, token, body) = match step.action {
        DeployAction::AskManifest { url, token, body } => (url, token, body),
        other => panic!("{other:?}"),
    };
    assert_eq!(url, "https://pod.test/v1/deploy/manifest");
    assert_eq!(token, "secret");
    let v: Value = serde_json::from_str(&body).unwrap();
    assert_eq!(v["files"][0]["path"], "settings.json");
    assert_eq!(v["files"].as_array().unwrap().len(), 2);
    let step = d.advance(DeployEvent::ManifestAnswered(Ok(
        r#"{"missing":["skills/a","sessions/secret.json"]}"#.to_string(),
    )));
    assert_eq!(texts(&step), vec!["[deploy] diff: pod is missing 2/2 file(s)"]);
    assert_eq!(
        step.action,
        DeployAction::Pack(vec![PackItem {
            path: "skills/a".to_string(),
            from: PackFrom::Settings
        }])
    );
    let step = d.advance(DeployEvent::Packed(Ok(vec![0; 7])));
    assert_eq!(
        texts(&step),
        vec!["[deploy] bundled 2 file(s), 7 bytes — uploading to https://pod.test"]
    );
    assert_eq!(
        step.action,
        DeployAction::Upload {
            url: "https://pod.test/v1/deploy".to_string(),
            token: "secret".to_string(),
            body: vec![0; 7],
        }
    );
    let step = d.advance(DeployEvent::Uploaded(UploadReply::Told(
        "event: done\ndata: ok\n\n".to_string(),
    )));
    assert_eq!(texts(&step), vec!["[deploy] done: ok"]);
    assert_eq!(step.action, DeployAction::Exit(0));
}

#[test]
fn a_pod_that_is_up_to_date_gets_nothing() {
    let mut d = Deploy::new(args(), None);
    d.advance(found(bundle(&[("settings.json", "{}")])));
    let step = d.advance(DeployEvent::ManifestAnswered(Ok(r#"{"missing":[]}"#.to_string())));
    assert_eq!(step.action, DeployAction::Exit(0));
    assert_eq!(
        texts(&step),
        vec![
            "[deploy] diff: pod is missing 0/1 file(s)",
            "[deploy] pod is already up to date — nothing to ship"
        ]
    );
}

#[test]
fn a_failed_handshake_ships_everything() {
    for answer in [Err("HTTP 404".to_string()), Ok("{}".to_string()), Ok("{".to_string())] {
        let mut d = Deploy::new(args(), None);
        d.advance(found(bundle(&[("settings.json", "{}"), ("skills/a", "x")])));
        let step = d.advance(DeployEvent::ManifestAnswered(answer));
        assert!(texts(&step)[0].ends_with("falling back to full upload"));
        match step.action {
            DeployAction::Pack(items) => assert_eq!(items.len(), 2),
            other => panic!("{other:?}"),
        }
    }
}

#[test]
fn a_full_upload_asks_nothing() {
    let mut d = Deploy::new(DeployArgs { full: true, ..args() }, None);
    let step = d.advance(found(bundle(&[("settings.json", "{}")])));
    assert!(matches!(step.action, DeployAction::Pack(_)));
}

#[test]
fn a_dry_run_sends_nothing() {
    let mut d = Deploy::new(DeployArgs { dry_run: true, token: None, ..args() }, None);
    let step = d.advance(found(bundle(&[("settings.json", "{}"), ("skills/a", "x")])));
    assert_eq!(step.action, DeployAction::Exit(0));
    assert_eq!(
        texts(&step),
        vec![
            "[deploy] dry run — would ship 2 file(s), 3 bytes:",
            "  settings.json (2 bytes)",
            "  skills/a (1 bytes)"
        ]
    );
}

#[test]
fn tokens_come_from_the_user_or_the_environment() {
    let start = |token: Option<&str>, env: Option<&str>| {
        let args = DeployArgs { token: token.map(|t| t.to_string()), ..args() };
        let mut d = Deploy::new(args, env.map(|t| t.to_string()));
        d.advance(found(bundle(&[("settings.json", "{}")]))).action
    };
    match start(None, Some("env")) {
        DeployAction::AskManifest { token, .. } => assert_eq!(token, "env"),
        other => panic!("{other:?}"),
    }
    match start(Some("own"), Some("env")) {
        DeployAction::AskManifest { token, .. } => assert_eq!(token, "own"),
        other => panic!("{other:?}"),
    }
    assert_eq!(start(None, None), DeployAction::Exit(1));
    assert_eq!(start(Some("  "), Some("env")), DeployAction::Exit(1));
}

#[test]
fn stdio_servers_stay_home() {
    let mut d = Deploy::new(DeployArgs { full: true, ..args() }, None);
    let step = d.advance(found(bundle(&[("mcp.json", MIXED)])));
    assert_eq!(step.action, DeployAction::ReadMcp);
    let step = d.advance(DeployEvent::McpRead(Ok(MIXED.to_string())));
    assert!(texts(&step)[0].starts_with("[deploy] stripping 1 stdio MCP entry from mcp.json: local"));
    match step.action {
        DeployAction::Pack(items) => match &items[0].from {
            PackFrom::Bytes(b) => {
                assert!(!String::from_utf8(b.clone()).unwrap().contains("npx"));
                assert_eq!(d.bundle.find("mcp.json").unwrap().size, b.len() as u64);
            }
            other => panic!("{other:?}"),
        },
        other => panic!("{other:?}"),
    }
}

#[test]
fn stdio_servers_can_be_kept() {
    let mut d = Deploy::new(DeployArgs { full: true, allow_stdio_mcp: true, ..args() }, None);
    d.advance(found(bundle(&[("mcp.json", MIXED)])));
    let step = d.advance(DeployEvent::McpRead(Ok(MIXED.to_string())));
    assert_eq!(step.lines[0].level, DeployLog::Warn);
    assert_eq!(
        step.action,
        DeployAction::Pack(vec![PackItem {
            path: "mcp.json".to_string(),
            from: PackFrom::Settings
        }])
    );
}

#[test]
fn every_failure_is_told_and_ends_with_one() {
    let fail = |event: DeployEvent| {
        let mut d = Deploy::new(args(), None);
        let step = d.advance(event);
        assert_eq!(step.action, DeployAction::Exit(1));
        step.lines[0].text.clone()
    };
    assert_eq!(
        fail(DeployEvent::Scanned(Scan::NoCwd("gone".to_string()))),
        "[deploy] cannot resolve current dir: gone"
    );
    assert_eq!(
        fail(DeployEvent::Scanned(Scan::NoRoot("/x".to_string()))),
        "[deploy] no .thclaws/ in /x: run thclaws here first to create one"
    );
    assert_eq!(
        fail(DeployEvent::Scanned(Scan::Failed("denied".to_string()))),
        "[deploy] scan failed: denied"
    );
    assert_eq!(fail(found(Bundle::new())), "[deploy] nothing to ship under .thclaws/ — bundle is empty");

    let mut d = Deploy::new(args(), None);
    d.advance(found(bundle(&[("mcp.json", "{")])));
    let step = d.advance(DeployEvent::McpRead(Ok("{".to_string())));
    assert!(texts(&step)[0].starts_with("[deploy] mcp.json filter: "));
    assert_eq!(step.action, DeployAction::Exit(1));

    let uploading = || {
        let mut d = Deploy::new(DeployArgs { full: true, restart: true, ..args() }, None);
        d.advance(found(bundle(&[("settings.json", "{}")])));
        d.advance(DeployEvent::Packed(Ok(Vec::new())));
        d
    };
    let mut d = Deploy::new(DeployArgs { full: true, ..args() }, None);
    d.advance(found(bundle(&[("settings.json", "{}")])));
    let step = d.advance(DeployEvent::Packed(Err("io".to_string())));
    assert_eq!(texts(&step), vec!["[deploy] tar build failed: io"]);
    let step = uploading().advance(DeployEvent::Uploaded(UploadReply::Failed("dns".to_string())));
    assert_eq!(texts(&step), vec!["[deploy] upload failed: dns"]);
    let step = uploading().advance(DeployEvent::Uploaded(UploadReply::Rejected {
        status: "401 Unauthorized".to_string(),
        body: "é".repeat(600),
    }));
    assert_eq!(
        texts(&step),
        vec![format!("[deploy] pod rejected upload: HTTP 401 Unauthorized: {}", "é".repeat(500))]
    );
    let step = uploading().advance(DeployEvent::Uploaded(UploadReply::Unread("cut".to_string())));
    assert_eq!(texts(&step), vec!["[deploy] read SSE body failed: cut"]);

    let mut d = uploading();
    let step = d.advance(DeployEvent::Uploaded(UploadReply::Told(String::new())));
    assert_eq!(
        step.action,
        DeployAction::Restart {
            url: "https://pod.test/v1/restart".to_string(),
            token: "secret".to_string()
        }
    );
    let step = d.advance(DeployEvent::Restarted(Err("503".to_string())));
    assert_eq!(step.lines[0].level, DeployLog::Warn);
    assert_eq!(step.action, DeployAction::Exit(0));
}

#[test]
fn deployments_ignore_events_they_do_not_wait_for() {
    let mut d = Deploy::new(args(), None);
    let step = d.advance(DeployEvent::Packed(Ok(Vec::new())));
    assert_eq!(step.action, DeployAction::Wait);
    assert!(step.lines.is_empty());
    let step = d.advance(found(bundle(&[("settings.json", "{}")])));
    assert!(matches!(step.action, DeployAction::AskManifest { .. }));
}

#[test]
fn lines_hold_no_escapes() {
    let body = "event: done\u{1b}[31m\ndata: \u{1b}]0;t\u{7}all\u{1b}[0m well\u{1b}\n\n";
    let lines = render_sse(body);
    assert_eq!(lines.len(), 1);
    assert_eq!(lines[0].text, "[deploy] done: all well");
    let mut d = Deploy::new(DeployArgs { full: true, ..args() }, None);
    d.advance(found(bundle(&[("settings.json", "{}")])));
    d.advance(DeployEvent::Packed(Ok(Vec::new())));
    let step = d.advance(DeployEvent::Uploaded(UploadReply::Rejected {
        status: "500".to_string(),
        body: "\u{1b}[1mno\u{1b}".to_string(),
    }));
    assert_eq!(texts(&step), vec!["[deploy] pod rejected upload: HTTP 500: no"]);
}

#[test]
fn unreadable_manifests_are_told() {
    let mut d = Deploy::new(args(), None);
    d.advance(found(bundle(&[("settings.json", "{}")])));
    let step = d.advance(DeployEvent::ManifestAnswered(Ok("<html>".to_string())));
    assert_eq!(
        texts(&step),
        vec!["[deploy] manifest handshake failed (decode: error decoding response body); falling back to full upload"]
    );
    assert!(matches!(step.action, DeployAction::Pack(_)));
}

#[test]
fn the_places_to_look_are_listed() {
    let names = top_level(false);
    assert_eq!(names.len(), 11);
    assert_eq!(names[0], "settings.json");
    assert!(!names.contains(&"sessions") && !names.contains(&"memory"));
    assert_eq!(top_level(true).last(), Some(&"memory"));
    assert_eq!(root_documents(""), vec!["AGENTS.md"]);
    assert_eq!(root_documents(" NOTES.md ,, B.md"), vec!["AGENTS.md", "NOTES.md", "B.md"]);
}
