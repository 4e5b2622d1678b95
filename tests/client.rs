use gojira_bridge::client::{
    decide_backend, extract_json_like, group_key, normalize_provider, parse_arg_value, provider_key,
    truncate_chars, vertex_model_candidates, Backoff, GeminiBackend,
};
use gojira_bridge::value_resolver::eq_ignore_case;

#[test]
fn backend_setting_wins() {
    assert_eq!(decide_backend(Some(" Vertex "), true, false), GeminiBackend::VertexAi);
    assert_eq!(decide_backend(Some("oauth"), true, true), GeminiBackend::GoogleAiOauth);
    assert_eq!(decide_backend(Some("apikey"), false, true), GeminiBackend::AiStudioApiKey);
}

#[test]
fn backend_auto() {
    assert_eq!(decide_backend(None, true, true), GeminiBackend::AiStudioApiKey);
    assert_eq!(decide_backend(Some("auto"), false, true), GeminiBackend::VertexAi);
    assert_eq!(decide_backend(Some("bogus"), false, false), GeminiBackend::GoogleAiOauth);
}

#[test]
fn truncation() {
    assert_eq!(truncate_chars("hello", 5), "hello");
    assert_eq!(truncate_chars("héllo world", 3), "hél\n\u{2026}(truncated)\n");
}

#[test]
fn model_candidates() {
    assert_eq!(
        vertex_model_candidates(" gemini-1.5-flash "),
        vec!["gemini-1.5-flash", "gemini-1.5-flash-002", "gemini-1.5-flash-001", "gemini-1.5-flash@002", "gemini-1.5-flash@001"]
    );
    assert_eq!(vertex_model_candidates("gemini-pro-002"), vec!["gemini-pro-002"]);
    assert_eq!(vertex_model_candidates("m@1"), vec!["m@1"]);
    assert!(vertex_model_candidates("  ").is_empty());
}

#[test]
fn provider_names() {
    assert_eq!(normalize_provider("  OpenAI!! "), "openai");
    assert_eq!(normalize_provider("***"), "gemini");
    assert_eq!(provider_key("Gemini"), b"api_key::gemini".to_vec());
}

#[test]
fn backoff_sequence() {
    let mut b = Backoff::default();
    let got: Vec<u64> = (0..6).map(|_| b.next_delay()).collect();
    assert_eq!(got, vec![1, 2, 5, 10, 10, 10]);
    b.reset();
    assert_eq!(b.next_delay(), 1);
}

#[test]
fn groups() {
    assert_eq!(group_key(1), "global");
    assert_eq!(group_key(14), "pedals_pre");
    assert_eq!(group_key(60), "amp_eq");
    assert_eq!(group_key(90), "cab");
    assert_eq!(group_key(105), "delay");
    assert_eq!(group_key(115), "reverb");
    assert_eq!(group_key(500), "midi_or_other");
    assert_eq!(group_key(-3), "other");
}

#[test]
fn arg_values() {
    let args: Vec<String> = ["prog", "--addr", "127.0.0.1:9001", "--run-for-ms"].iter().map(|s| s.to_string()).collect();
    assert_eq!(parse_arg_value(&args, "--addr"), Some("127.0.0.1:9001".to_string()));
    assert_eq!(parse_arg_value(&args, "--run-for-ms"), None);
    assert_eq!(parse_arg_value(&args, "--nope"), None);
}

#[test]
fn json_extraction() {
    assert_eq!(extract_json_like("  {\"a\":1} "), Some("{\"a\":1}".to_string()));
    assert_eq!(extract_json_like("```json\n{\"a\":1}\n```"), Some("{\"a\":1}".to_string()));
    assert_eq!(extract_json_like("Here you go: {\"a\": {\"b\": 2}} thanks"), Some("{\"a\": {\"b\": 2}}".to_string()));
    assert_eq!(extract_json_like("no json } here {"), None);
    assert_eq!(extract_json_like(""), None);
}

#[test]
fn case_insensitive_equality() {
    assert!(eq_ignore_case(" Cab 1 ", "cab 1"));
    assert!(!eq_ignore_case("Cab 1", "Cab1"));
}

#[test]
fn whitespace_normalization() {
    assert_eq!(gojira_bridge::text::normalize_ws("  the \t lead\n "), "the lead");
    assert_eq!(gojira_bridge::text::normalize_ws(""), "");
}

#[test]
fn cli_labels() {
    assert_eq!(gojira_bridge::client::label_for_index(0), "Input Gain");
    assert_eq!(gojira_bridge::client::label_for_index(113), "Reverb Mode");
    assert_eq!(gojira_bridge::client::label_for_index(100), "FX Section Active");
    assert_eq!(gojira_bridge::client::label_for_index(12), "Param");
}
