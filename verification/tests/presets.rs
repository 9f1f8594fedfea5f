use thclaws_core::schedule::{validate_cron, ScheduleStore};
use thclaws_core::schedule_presets::{
    add_from_preset_with_store, find, list_ids, presets, render_prompt,
};

#[test]
fn all_presets_have_validatable_cron() {
    for preset in presets() {
        assert!(
            validate_cron(preset.cron).is_ok(),
            "preset '{}' has invalid cron '{}'",
            preset.id,
            preset.cron
        );
    }
}

#[test]
fn render_prompt_substitutes_kms() {
    let p = find("nightly-close").unwrap();
    let rendered = render_prompt(&p, "mynotes");
    assert!(rendered.contains("KMS 'mynotes'"));
    assert!(rendered.contains("kms: \"mynotes\""));
    assert!(!rendered.contains("{kms}"));
}

#[test]
fn render_prompt_substitutes_multiple_occurrences() {
    let p = find("weekly-review").unwrap();
    let rendered = render_prompt(&p, "notes");
    assert!(rendered.contains("KMS 'notes'"));
    assert!(rendered.contains("kms: \"notes\""));
    assert!(!rendered.contains("{kms}"));
}

#[test]
fn presets_are_natural_language_not_slash_commands() {
    for preset in presets() {
        let rendered = render_prompt(&preset, "k");
        for line in rendered.lines() {
            let trimmed = line.trim_start();
            assert!(
                !trimmed.starts_with("/kms ") && !trimmed.starts_with("/dream"),
                "preset '{}' contains a slash-command line: {trimmed:?}",
                preset.id
            );
        }
        assert!(
            rendered.contains("kms: \"k\""),
            "preset '{}' missing `kms: \"<name>\"` directive",
            preset.id
        );
    }
}

#[test]
fn find_returns_none_for_unknown_id() {
    assert!(find("does-not-exist").is_none());
}

#[test]
fn list_ids_includes_all_presets() {
    let ids = list_ids();
    assert!(ids.contains(&"nightly-close"));
    assert!(ids.contains(&"weekly-review"));
    assert!(ids.contains(&"contradiction-sweep"));
    assert!(ids.contains(&"vault-health"));
    assert_eq!(ids.len(), 4);
}

#[test]
fn add_from_preset_rejects_unknown() {
    let mut store = ScheduleStore::default();
    let err = add_from_preset_with_store("nope", "k", "/tmp".to_string(), &mut store).unwrap_err();
    let msg = err.message();
    assert!(msg.contains("unknown preset"));
    assert!(msg.contains("nightly-close"));
    assert!(store.schedules.is_empty());
}

#[test]
fn add_from_preset_rejects_empty_kms() {
    let mut store = ScheduleStore::default();
    let err = add_from_preset_with_store("nightly-close", "", "/tmp".to_string(), &mut store)
        .unwrap_err();
    let msg = err.message();
    assert!(msg.contains("KMS name"));
    assert!(store.schedules.is_empty());
}

#[test]
fn add_from_preset_with_store_round_trips_to_disk() {
    let mut store = ScheduleStore::default();
    let cwd = "/work".to_string();

    let schedule =
        add_from_preset_with_store("nightly-close", "mynotes", cwd.clone(), &mut store).unwrap();

    assert_eq!(schedule.id, "nightly-close-mynotes");
    assert_eq!(schedule.cron, "0 23 * * *");
    assert_eq!(schedule.cwd, cwd);
    assert!(schedule.enabled);
    assert!(schedule.prompt.contains("KMS 'mynotes'"));
    assert!(!schedule.prompt.contains("{kms}"));

    assert_eq!(store.schedules.len(), 1);
    assert_eq!(store.schedules[0].id, "nightly-close-mynotes");
}

#[test]
fn add_from_preset_with_store_assigns_unique_ids_per_kms() {
    let mut store = ScheduleStore::default();
    let cwd = "/work".to_string();

    add_from_preset_with_store("vault-health", "notes-a", cwd.clone(), &mut store).unwrap();
    add_from_preset_with_store("vault-health", "notes-b", cwd.clone(), &mut store).unwrap();

    let ids: Vec<&str> = store.schedules.iter().map(|s| s.id.as_str()).collect();
    assert!(ids.contains(&"vault-health-notes-a"));
    assert!(ids.contains(&"vault-health-notes-b"));
    assert_eq!(store.schedules.len(), 2);
}

#[test]
fn add_from_preset_with_store_rejects_duplicate_id() {
    let mut store = ScheduleStore::default();
    let cwd = "/work".to_string();

    add_from_preset_with_store("nightly-close", "notes", cwd.clone(), &mut store).unwrap();
    let err = add_from_preset_with_store("nightly-close", "notes", cwd.clone(), &mut store)
        .unwrap_err();
    let msg = err.message();
    assert!(
        msg.contains("nightly-close-notes") || msg.contains("already exists"),
        "expected duplicate-id error, got: {msg}"
    );
    assert_eq!(store.schedules.len(), 1);
}
