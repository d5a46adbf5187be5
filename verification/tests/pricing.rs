//! The pricing loader: document-level failure, per-record filtering, and
//! exact decoding of rates into picodollars.

use llm_cost_estimator::models::ModelPricing;
use llm_cost_estimator::pricing::{parse_model_prices, FetchError, PricingTable};

fn table(body: &str) -> PricingTable {
    parse_model_prices(body).expect("document should parse")
}

fn record<'a>(t: &'a PricingTable, name: &str) -> &'a ModelPricing {
    t.get(name).expect("model should be present")
}

#[test]
fn non_json_body_is_a_fetch_error() {
    let r = parse_model_prices("not json");
    assert_eq!(r.err(), Some(FetchError::InvalidJson));
}

#[test]
fn non_object_document_is_a_fetch_error() {
    assert_eq!(parse_model_prices("[1, 2]").err(), Some(FetchError::InvalidJson));
    assert_eq!(parse_model_prices("42").err(), Some(FetchError::InvalidJson));
    assert_eq!(parse_model_prices("\"text\"").err(), Some(FetchError::InvalidJson));
}

#[test]
fn empty_document_gives_empty_mapping() {
    let t = table("{}");
    assert_eq!(t.len(), 0);
    assert!(t.get("anything").is_none());
}

#[test]
fn sample_spec_is_always_excluded() {
    let t = table(
        r#"{
            "sample_spec": {"input_cost_per_token": 0.1, "output_cost_per_token": 0.2, "mode": "chat"},
            "good-model": {"input_cost_per_token": 0.1, "output_cost_per_token": 0.2, "mode": "chat"}
        }"#,
    );
    assert_eq!(t.len(), 1);
    assert!(t.get("sample_spec").is_none());
    assert!(t.get("good-model").is_some());
}

#[test]
fn sample_spec_is_excluded_whatever_its_shape() {
    let t = table(r#"{"sample_spec": "just a string"}"#);
    assert_eq!(t.len(), 0);
}

#[test]
fn record_missing_input_rate_is_excluded() {
    let t = table(r#"{"m": {"output_cost_per_token": 0.2}}"#);
    assert!(t.get("m").is_none());
}

#[test]
fn record_missing_output_rate_is_excluded() {
    let t = table(r#"{"m": {"input_cost_per_token": 0.2}}"#);
    assert!(t.get("m").is_none());
}

#[test]
fn record_missing_both_rates_is_excluded() {
    let t = table(r#"{"m": {"mode": "chat", "max_tokens": 100}}"#);
    assert!(t.get("m").is_none());
}

#[test]
fn embedding_mode_is_excluded() {
    let t = table(
        r#"{"m": {"input_cost_per_token": 0.1, "output_cost_per_token": 0.2, "mode": "embedding"}}"#,
    );
    assert!(t.get("m").is_none());
}

#[test]
fn chat_completion_and_absent_modes_are_included() {
    let t = table(
        r#"{
            "a": {"input_cost_per_token": 0.1, "output_cost_per_token": 0.2, "mode": "chat"},
            "b": {"input_cost_per_token": 0.1, "output_cost_per_token": 0.2, "mode": "completion"},
            "c": {"input_cost_per_token": 0.1, "output_cost_per_token": 0.2}
        }"#,
    );
    assert!(t.get("a").is_some());
    assert!(t.get("b").is_some());
    assert!(t.get("c").is_some());
    assert_eq!(t.len(), 3);
}

#[test]
fn non_object_record_is_silently_dropped() {
    let t = table(
        r#"{
            "bad": 7,
            "worse": [1, 2],
            "good": {"input_cost_per_token": 0.1, "output_cost_per_token": 0.2}
        }"#,
    );
    assert_eq!(t.len(), 1);
    assert!(t.get("good").is_some());
}

#[test]
fn malformed_field_degrades_to_absent() {
    // A wrong-shaped rate resolves to absent, which here fails inclusion.
    let t = table(r#"{"m": {"input_cost_per_token": "cheap", "output_cost_per_token": 0.2}}"#);
    assert!(t.get("m").is_none());
    // A wrong-shaped secondary field leaves the record usable.
    let t = table(
        r#"{"m": {"input_cost_per_token": 0.1, "output_cost_per_token": 0.2, "max_tokens": "many"}}"#,
    );
    let r = record(&t, "m");
    assert_eq!(r.max_tokens, None);
}

#[test]
fn rates_decode_to_exact_picodollars() {
    let t = table(
        r#"{"m": {"input_cost_per_token": 0.00000025, "output_cost_per_token": 2.5e-7}}"#,
    );
    let r = record(&t, "m");
    assert_eq!(r.input_cost_per_token, Some(250_000));
    assert_eq!(r.output_cost_per_token, Some(250_000));
}

#[test]
fn rate_beyond_picodollar_precision_is_absent() {
    let t = table(r#"{"m": {"input_cost_per_token": 1e-13, "output_cost_per_token": 0.2}}"#);
    assert!(t.get("m").is_none());
}

#[test]
fn negative_rate_is_absent() {
    let t = table(r#"{"m": {"input_cost_per_token": -0.1, "output_cost_per_token": 0.2}}"#);
    assert!(t.get("m").is_none());
}

#[test]
fn secondary_fields_decode() {
    let t = table(
        r#"{"m": {
            "input_cost_per_token": 0.001,
            "output_cost_per_token": 0.002,
            "cache_read_input_token_cost": 0.0001,
            "max_tokens": 8192,
            "max_input_tokens": 4096,
            "max_output_tokens": 4.096e3,
            "litellm_provider": "openai",
            "mode": "chat",
            "deprecation_date": "2026-01-01",
            "source": "https://example.test/pricing",
            "supports_function_calling": true,
            "supports_vision": false,
            "supported_regions": ["us-east-1", "eu-west-1"],
            "search_context_cost_per_query": {
                "search_context_size_low": 0.01,
                "search_context_size_medium": 0.02,
                "search_context_size_high": 0.03
            }
        }}"#,
    );
    let r = record(&t, "m");
    assert_eq!(r.input_cost_per_token, Some(1_000_000_000));
    assert_eq!(r.output_cost_per_token, Some(2_000_000_000));
    assert_eq!(r.cache_read_input_token_cost, Some(100_000_000));
    assert_eq!(r.max_tokens, Some(8192));
    assert_eq!(r.max_input_tokens, Some(4096));
    assert_eq!(r.max_output_tokens, Some(4096));
    assert_eq!(r.litellm_provider.as_deref(), Some("openai"));
    assert_eq!(r.mode.as_deref(), Some("chat"));
    assert_eq!(r.deprecation_date.as_deref(), Some("2026-01-01"));
    assert_eq!(r.source.as_deref(), Some("https://example.test/pricing"));
    assert_eq!(r.supports_function_calling, Some(true));
    assert_eq!(r.supports_vision, Some(false));
    assert_eq!(r.supports_audio_input, None);
    let regions = r.supported_regions.as_ref().expect("regions should decode");
    assert_eq!(regions, &vec!["us-east-1".to_string(), "eu-west-1".to_string()]);
    let scc = r.search_context_cost_per_query.expect("nested costs should decode");
    assert_eq!(scc.search_context_size_low, Some(10_000_000_000));
    assert_eq!(scc.search_context_size_medium, Some(20_000_000_000));
    assert_eq!(scc.search_context_size_high, Some(30_000_000_000));
}

#[test]
fn regions_with_a_non_string_are_absent() {
    let t = table(
        r#"{"m": {"input_cost_per_token": 0.1, "output_cost_per_token": 0.2,
                  "supported_regions": ["us-east-1", 3]}}"#,
    );
    assert_eq!(record(&t, "m").supported_regions, None);
}

#[test]
fn fetch_example_keeps_only_the_good_model() {
    let t = table(
        r#"{
            "sample_spec": {"anything": [1, 2, 3]},
            "good-model": {"input_cost_per_token": 0.1, "output_cost_per_token": 0.2, "mode": "chat"}
        }"#,
    );
    assert_eq!(t.len(), 1);
    let r = record(&t, "good-model");
    assert_eq!(r.input_cost_per_token, Some(100_000_000_000));
    assert_eq!(r.output_cost_per_token, Some(200_000_000_000));
    assert_eq!(r.mode.as_deref(), Some("chat"));
}

#[test]
fn duplicate_keys_keep_one_record() {
    // A repeated key collapses to a single entry before filtering.
    let t = table(
        r#"{
            "m": {"output_cost_per_token": 0.9},
            "m": {"input_cost_per_token": 0.1, "output_cost_per_token": 0.2}
        }"#,
    );
    assert_eq!(t.len(), 1);
    let r = record(&t, "m");
    assert_eq!(r.input_cost_per_token, Some(100_000_000_000));
    assert_eq!(r.output_cost_per_token, Some(200_000_000_000));
}

#[test]
fn empty_table_from_new() {
    let t = PricingTable::new();
    assert_eq!(t.len(), 0);
    assert!(t.get("m").is_none());
}
