//! The model catalogue and how it is filled.

use thclaws_core::calendar::{civil_from_days, today_iso};
use thclaws_core::catalogue::{
    bare, is_dashscope_chat, merge_discovered, merge_gemini, merge_openrouter, mirror, Catalogue,
    GeminiModel, ModelEntry, OpenRouterArchitecture, OpenRouterModel, OpenRouterPricing,
    ProviderCatalogue, TopProvider, ANTHROPIC_URL, MAX_LIST_IDS,
};
use thclaws_core::keyed::{has_name, take_out, Keyed};
use thclaws_core::seed::{
    models_url, run, schema_error, seed_agent_sdk, seed_gemini, summary, GeminiProbe, Probe,
    Replies,
};

fn catalogue() -> Catalogue {
    Catalogue {
        schema: 2,
        source: String::new(),
        fetched_at: String::new(),
        providers: Keyed::new(),
    }
}

fn row(id: &str, context: Option<u32>, max: Option<u32>) -> OpenRouterModel {
    OpenRouterModel {
        id: id.to_string(),
        context_length: context,
        top_provider: Some(TopProvider { max_completion_tokens: max }),
        pricing: None,
        architecture: None,
    }
}

fn entry<'a>(cat: &'a Catalogue, provider: &str, id: &str) -> &'a ModelEntry {
    cat.providers.get(provider).unwrap().models.get(id).unwrap()
}

fn replies() -> Replies {
    Replies {
        openrouter: Ok(Vec::new()),
        anthropic: Probe::NoKey,
        openai: Probe::NoKey,
        gemini: GeminiProbe::NoKey,
        ollama_cloud: Probe::NoKey,
        deepseek: Probe::NoKey,
        thaillm: Probe::NoKey,
        nvidia: Probe::NoKey,
        minimax: Probe::NoKey,
        dashscope: Probe::NoKey,
        dashscope_url: "https://ds.test/models".to_string(),
        qwen_cloud: Probe::NoKey,
        qwen_cloud_url: "https://qc.test/models".to_string(),
    }
}

// ---------------------------------------------------------------------------
// Dates
// ---------------------------------------------------------------------------

#[test]
fn leap_days_and_year_ends() {
    assert_eq!(civil_from_days(11_016), (2000, 2, 29));
    assert_eq!(civil_from_days(11_017), (2000, 3, 1));
    assert_eq!(civil_from_days(10_956), (1999, 12, 31));
    assert_eq!(civil_from_days(-1), (1969, 12, 31));
    assert_eq!(civil_from_days(-25_509), (1900, 2, 28));
    assert_eq!(civil_from_days(-25_508), (1900, 3, 1));
    assert_eq!(civil_from_days(-719_468), (0, 3, 1));
}

#[test]
fn dates_are_padded() {
    assert_eq!(today_iso(0), "1970-01-01");
    assert_eq!(today_iso(20_567 * 86_400 + 86_399), "2026-04-24");
}

// ---------------------------------------------------------------------------
// Merging
// ---------------------------------------------------------------------------

#[test]
fn qwen_models_that_chat() {
    assert!(is_dashscope_chat("qwen3-max"));
    assert!(!is_dashscope_chat("qwen3-embedding"));
    assert!(!is_dashscope_chat("wan2-image"));
    assert!(!is_dashscope_chat("qwen-mt-turbo"));
}

#[test]
fn free_and_chat_are_told_from_the_listing() {
    let mut m = row("a/b", Some(1), None);
    assert!(!m.is_free());
    assert_eq!(m.is_chat(), None);
    m.pricing = Some(OpenRouterPricing { prompt_is_zero: true, completion_is_zero: false });
    assert!(!m.is_free());
    m.pricing = Some(OpenRouterPricing { prompt_is_zero: true, completion_is_zero: true });
    assert!(m.is_free());
    m.architecture = Some(OpenRouterArchitecture {
        modality: Some("text+image->text".to_string()),
        output_modalities: None,
    });
    assert_eq!(m.is_chat(), Some(true));
    m.architecture = Some(OpenRouterArchitecture {
        modality: None,
        output_modalities: Some(vec!["image".to_string()]),
    });
    assert_eq!(m.is_chat(), Some(false));
}

#[test]
fn openrouter_rows_are_entered_and_kept() {
    let mut cat = catalogue();
    let stats = merge_openrouter(
        &mut cat,
        vec![row("a/one", Some(1000), Some(10)), row("a/two", None, None)],
        "2026-04-24",
    );
    assert_eq!(stats.added, vec!["a/one".to_string()]);
    assert_eq!(stats.skipped_no_context, 1);
    assert_eq!(entry(&cat, "openrouter", "a/one").context, Some(1000));
    assert_eq!(entry(&cat, "openrouter", "a/one").max_output, Some(10));
    let again = merge_openrouter(&mut cat, vec![row("a/one", Some(5), None)], "2026-04-25");
    assert!(again.added.is_empty());
    assert_eq!(again.unchanged, 1);
    assert_eq!(entry(&cat, "openrouter", "a/one").context, Some(1000));
    let mut freed = row("a/one", Some(5), None);
    freed.pricing = Some(OpenRouterPricing { prompt_is_zero: true, completion_is_zero: true });
    merge_openrouter(&mut cat, vec![freed], "2026-04-26");
    assert_eq!(entry(&cat, "openrouter", "a/one").free, Some(false));
}

#[test]
fn gemini_rows_lose_their_prefix() {
    let mut cat = catalogue();
    let stats = merge_gemini(
        &mut cat,
        vec![GeminiModel {
            name: "models/gemini-2.5-pro".to_string(),
            input_token_limit: Some(1_048_576),
            output_token_limit: Some(65_536),
        }],
        "2026-04-24",
    );
    assert_eq!(stats.added, vec!["gemini-2.5-pro".to_string()]);
    assert_eq!(entry(&cat, "gemini", "gemini-2.5-pro").max_output, Some(65_536));
}

#[test]
fn ids_are_looked_up_without_their_vendor() {
    assert_eq!(bare("nvidia/meta/llama"), "llama");
    assert_eq!(bare("llama"), "llama");
    let m = mirror(&vec![row("meta/llama", Some(8), Some(2)), row("x/llama", Some(9), None)]);
    assert_eq!(m.contexts.get("llama"), Some(&9));
    assert_eq!(m.outputs.get("llama"), Some(&2));
}

#[test]
fn second_discovery_adds_nothing() {
    let mut cat = catalogue();
    let m = mirror(&vec![row("meta/llama", Some(8), Some(2))]);
    let ids = || vec!["nvidia/meta/llama".to_string(), "nvidia/unknown".to_string()];
    let first = merge_discovered(&mut cat, "nvidia", "https://n.test", ids(), &m, "2026-04-24");
    assert_eq!(first.added, vec!["nvidia/meta/llama".to_string()]);
    assert_eq!(first.skipped_no_context, 1);
    assert_eq!(entry(&cat, "nvidia", "nvidia/meta/llama").context, Some(8));
    let second = merge_discovered(&mut cat, "nvidia", "https://n.test", ids(), &m, "2026-04-25");
    assert!(second.added.is_empty());
    assert_eq!(second.unchanged, 1);
    assert_eq!(
        entry(&cat, "nvidia", "nvidia/meta/llama").verified_at.as_deref(),
        Some("2026-04-24")
    );
}

#[test]
fn a_default_context_stands_in() {
    let mut cat = catalogue();
    cat.providers.set(
        "p",
        ProviderCatalogue { list_url: None, default_context: Some(77), models: Keyed::new() },
    );
    let m = mirror(&Vec::new());
    merge_discovered(&mut cat, "p", "u", vec!["x".to_string()], &m, "2026-04-24");
    assert_eq!(entry(&cat, "p", "x").context, Some(77));
}

// ---------------------------------------------------------------------------
// A whole run
// ---------------------------------------------------------------------------

#[test]
fn a_run_reports_on_every_provider() {
    let mut cat = catalogue();
    let mut r = replies();
    r.openrouter = Ok(vec![row("openai/gpt-4o", Some(128_000), Some(16_384))]);
    r.openai = Probe::Listed(vec!["gpt-4o".to_string(), "dall-e-3".to_string()]);
    r.anthropic = Probe::Failed("http 500".to_string());
    r.dashscope = Probe::Listed(vec!["qwen3-max".to_string(), "wan2-image".to_string()]);
    let report = run(&mut cat, r, "2026-04-24");
    assert_eq!(cat.source, "baseline 2026-04-24");
    assert_eq!(cat.fetched_at, "2026-04-24T00:00:00Z");
    assert_eq!(cat.schema, 2);
    assert_eq!(entry(&cat, "openai", "gpt-4o").context, Some(128_000));
    assert_eq!(entry(&cat, "dashscope", "dashscope/qwen3-max").context, Some(32_768));
    assert!(cat.providers.get("deepseek").is_none());
    let text = report.join("\n");
    assert!(text.contains("  openai:      +1 new, 0 unchanged (1 filtered: fine-tunes/audio/image/embedding)"), "{text}");
    assert!(text.contains("http 500"), "{text}");
    assert!(text.contains("DEEPSEEK_API_KEY"), "{text}");
    assert!(text.contains("                 · gpt-4o"), "{text}");
}

#[test]
fn a_failed_openrouter_lists_nothing() {
    let mut cat = catalogue();
    let mut r = replies();
    r.openrouter = Err("timeout".to_string());
    r.openai = Probe::Listed(vec!["gpt-4o".to_string()]);
    let report = run(&mut cat, r, "2026-04-24");
    assert!(report[0].contains("timeout"));
    assert!(report.join("\n").contains("1 skipped (no context)"));
}

#[test]
fn long_lists_are_cut() {
    let mut cat = catalogue();
    let mut r = replies();
    let ids: Vec<String> = (0..MAX_LIST_IDS + 5).map(|i| format!("m{i:03}")).collect();
    r.deepseek = Probe::Listed(ids);
    let report = run(&mut cat, r, "2026-04-24");
    let shown = report.iter().filter(|l| l.contains("· m")).count();
    assert_eq!(shown, MAX_LIST_IDS);
    assert!(report.iter().any(|l| l.ends_with("… (+5 more)")));
}

#[test]
fn gemini_noise_is_filtered() {
    let mut cat = catalogue();
    let mut report = Vec::new();
    let model = |name: &str| GeminiModel {
        name: format!("models/{name}"),
        input_token_limit: Some(10),
        output_token_limit: None,
    };
    seed_gemini(
        &mut cat,
        &mut report,
        GeminiProbe::Listed(vec![model("gemini-2.5-pro"), model("gemini-embedding-001")]),
        "2026-04-24",
    );
    let models = &cat.providers.get("gemini").unwrap().models;
    assert!(models.get("gemini-2.5-pro").is_some());
    assert!(models.get("gemini-embedding-001").is_none());
    assert!(report[0].contains("+1 new"), "{report:?}");
}

#[test]
fn derived_rows_follow_the_rows_they_derive_from() {
    let mut cat = catalogue();
    let m = mirror(&vec![row("anthropic/sonnet", Some(200_000), Some(64_000))]);
    merge_discovered(
        &mut cat,
        "anthropic",
        ANTHROPIC_URL,
        vec!["sonnet".to_string()],
        &m,
        "2026-04-24",
    );
    let mut report = Vec::new();
    seed_agent_sdk(&mut cat, &mut report, "2026-04-24");
    let derived = cat.providers.get("agent-sdk").unwrap();
    assert_eq!(derived.models.entries.len(), 1);
    assert_eq!(derived.models.entries[0].1.context, Some(200_000));
    assert_eq!(entry(&cat, "anthropic", "sonnet").context, Some(200_000));
}

#[test]
fn schemas_have_to_match() {
    assert_eq!(schema_error(2, 2), None);
    assert_eq!(schema_error(1, 2), Some("target has schema 1, expected 2".to_string()));
}

#[test]
fn summaries_count_rows() {
    let mut cat = catalogue();
    merge_openrouter(&mut cat, vec![row("a/one", Some(1), None)], "2026-04-24");
    assert_eq!(
        summary("out.json", &cat, &vec!["x".to_string(), "y".to_string()]),
        "wrote out.json (1 total rows):\nx\ny"
    );
}

#[test]
fn base_addresses_override_the_default() {
    assert_eq!(models_url(Some("https://x.test/v1/"), "d"), "https://x.test/v1/models");
    assert_eq!(models_url(None, "d"), "d");
}

// ---------------------------------------------------------------------------
// Maps
// ---------------------------------------------------------------------------

#[test]
fn keyed_entries_are_set_found_and_removed() {
    let mut k: Keyed<u32> = Keyed::new();
    k.set("a", 1);
    k.set("b", 2);
    k.set("a", 3);
    assert_eq!(k.entries.len(), 2);
    assert_eq!(k.get("a"), Some(&3));
    *k.get_mut("b").unwrap() += 5;
    assert_eq!(k.get("b"), Some(&7));
    *k.entry_or("c", 9) += 1;
    *k.entry_or("c", 9) += 1;
    assert_eq!(k.get("c"), Some(&11));
    k.remove("a");
    assert_eq!(k.get("a"), None);
    assert_eq!(k.entries.len(), 2);
    let mut names = vec!["x".to_string(), "y".to_string(), "x".to_string()];
    assert!(has_name(&names, "x"));
    take_out(&mut names, "x");
    assert!(!has_name(&names, "x"));
    assert!(has_name(&names, "y"));
}
