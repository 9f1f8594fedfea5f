use thclaws_core::calendar::civil_from_days;
use thclaws_core::catalogue::{is_gemini_chat, is_openai_chat, is_retired_gemini};

#[test]
fn civil_from_days_known_dates() {
    assert_eq!(civil_from_days(20_567), (2026, 4, 24));
    assert_eq!(civil_from_days(0), (1970, 1, 1));
}

#[test]
fn openai_filter_keeps_chat_drops_noise() {
    assert!(is_openai_chat("gpt-4o"));
    assert!(is_openai_chat("gpt-4o-mini"));
    assert!(is_openai_chat("gpt-4.1-2025-04-14"));
    assert!(is_openai_chat("o3"));
    assert!(is_openai_chat("o3-mini"));
    assert!(is_openai_chat("o4-mini"));
    assert!(is_openai_chat("chatgpt-4o-latest"));
    assert!(!is_openai_chat("ft:gpt-3.5-turbo-0613:org::abc"));
    assert!(!is_openai_chat("dall-e-3"));
    assert!(!is_openai_chat("davinci-002"));
    assert!(!is_openai_chat("babbage-002"));
    assert!(!is_openai_chat("whisper-1"));
    assert!(!is_openai_chat("tts-1"));
    assert!(!is_openai_chat("text-embedding-3-small"));
    assert!(!is_openai_chat("computer-use-preview"));
    assert!(!is_openai_chat("gpt-image-1"));
    assert!(!is_openai_chat("chatgpt-image-latest"));
    assert!(!is_openai_chat("gpt-4o-audio-preview"));
    assert!(!is_openai_chat("gpt-4o-realtime-preview"));
    assert!(!is_openai_chat("gpt-4o-transcribe"));
    assert!(!is_openai_chat("gpt-4o-search-preview"));
    assert!(!is_openai_chat("gpt-4o-mini-tts"));
}

#[test]
fn gemini_filter_keeps_chat_drops_noise() {
    assert!(is_gemini_chat("gemini-2.5-pro"));
    assert!(is_gemini_chat("gemini-2.5-flash"));
    assert!(is_gemini_chat("gemini-3.1-pro-preview"));
    assert!(is_gemini_chat("gemini-3-flash-preview"));
    assert!(is_gemini_chat("gemini-flash-latest"));
    assert!(!is_gemini_chat("imagen-4.0-generate-001"));
    assert!(!is_gemini_chat("veo-3.0-generate-001"));
    assert!(!is_gemini_chat("lyria-3-pro-preview"));
    assert!(!is_gemini_chat("gemma-3-27b-it"));
    assert!(!is_gemini_chat("aqa"));
    assert!(!is_gemini_chat("nano-banana-pro-preview"));
    assert!(!is_gemini_chat("gemini-embedding-001"));
    assert!(!is_gemini_chat("gemini-2.5-flash-image"));
    assert!(!is_gemini_chat("gemini-3-pro-image-preview"));
    assert!(!is_gemini_chat("gemini-2.5-flash-preview-tts"));
    assert!(!is_gemini_chat("gemini-robotics-er-1.5-preview"));
    assert!(!is_gemini_chat("gemini-2.5-computer-use-preview-10-2025"));
}

#[test]
fn gemini_filter_drops_retired_models() {
    assert!(is_retired_gemini("gemini-1.5-flash"));
    assert!(is_retired_gemini("gemini-1.5-pro"));
    assert!(is_retired_gemini("gemini-1.0-pro"));
    assert!(is_retired_gemini("gemini-pro"));
    assert!(is_retired_gemini("gemini-pro-vision"));
    assert!(is_retired_gemini("gemini-2.0-flash"));
    assert!(is_retired_gemini("gemini-2.0-flash-001"));
    assert!(is_retired_gemini("gemini-2.0-flash-lite"));
    assert!(is_retired_gemini("gemini-2.0-flash-lite-001"));
    assert!(is_retired_gemini("gemini-3-pro-preview"));
    assert!(!is_retired_gemini("gemini-2.5-flash"));
    assert!(!is_retired_gemini("gemini-2.5-pro"));
    assert!(!is_retired_gemini("gemini-3.1-pro-preview"));
    assert!(!is_retired_gemini("gemini-3-flash-preview"));
    assert!(!is_retired_gemini("gemini-flash-latest"));
    assert!(!is_gemini_chat("gemini-2.0-flash"));
    assert!(!is_gemini_chat("gemini-3-pro-preview"));
    assert!(!is_gemini_chat("gemini-1.5-flash"));
}

