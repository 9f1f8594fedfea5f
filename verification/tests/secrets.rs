use thclaws_core::keyed::Keyed;
use thclaws_core::secrets::{service_env_var, Backend, KeyStatus, Vault};

fn status() -> Vec<KeyStatus> {
    let vault = Vault { disabled: false, chosen: Some(Backend::Keychain), bundle: Keyed::new() };
    vault.status(&Keyed::new())
}

#[test]
fn status_lists_known_providers() {
    let s = status();
    let names: Vec<_> = s.iter().map(|k| k.provider).collect();
    assert!(names.contains(&"agentic-press"));
    assert!(names.contains(&"anthropic"));
    assert!(names.contains(&"openai"));
    assert!(names.contains(&"gemini"));
    assert!(names.contains(&"dashscope"));
    assert!(names.contains(&"openai-compat"));
    assert!(names.contains(&"tavily"));
    assert!(names.contains(&"brave-search"));
}

#[test]
fn status_marks_kind_per_entry() {
    let s = status();
    let tavily = s.iter().find(|k| k.provider == "tavily").unwrap();
    assert_eq!(tavily.kind, "service");
    assert_eq!(tavily.env_var, "TAVILY_API_KEY");
    let brave = s.iter().find(|k| k.provider == "brave-search").unwrap();
    assert_eq!(brave.kind, "service");
    assert_eq!(brave.env_var, "BRAVE_SEARCH_API_KEY");
    let anthropic = s.iter().find(|k| k.provider == "anthropic").unwrap();
    assert_eq!(anthropic.kind, "provider");
}

#[test]
fn service_env_var_resolves_known_services() {
    assert_eq!(service_env_var("tavily"), Some("TAVILY_API_KEY"));
    assert_eq!(
        service_env_var("brave-search"),
        Some("BRAVE_SEARCH_API_KEY")
    );
    assert_eq!(service_env_var("anthropic"), None);
    assert_eq!(service_env_var(""), None);
}

