//! Model listing: search filtering and code-point ordering.

use llm_cost_estimator::pricing::{parse_model_prices, PricingTable};
use llm_cost_estimator::tokens::preload_tokenizer;

fn table() -> PricingTable {
    parse_model_prices(
        r#"{
            "gpt-4": {"input_cost_per_token": 0.00003, "output_cost_per_token": 0.00006},
            "gpt-3.5-turbo": {"input_cost_per_token": 0.0000015, "output_cost_per_token": 0.000002},
            "sonnet-large-4-5": {"input_cost_per_token": 0.000003, "output_cost_per_token": 0.000015},
            "Mixtral-8x7B": {"input_cost_per_token": 0.0000006, "output_cost_per_token": 0.0000006},
            "text-embedding-3-small": {"input_cost_per_token": 0.00000002, "output_cost_per_token": 0.0, "mode": "embedding"}
        }"#,
    )
    .expect("document should parse")
}

#[test]
fn empty_search_lists_every_model_sorted() {
    let t = table();
    let names = t.matching_models("");
    assert_eq!(
        names,
        vec![
            "Mixtral-8x7B".to_string(),
            "gpt-3.5-turbo".to_string(),
            "gpt-4".to_string(),
            "sonnet-large-4-5".to_string(),
        ]
    );
}

#[test]
fn search_is_case_insensitive_on_both_sides() {
    let t = table();
    assert_eq!(t.matching_models("GPT"), vec![
        "gpt-3.5-turbo".to_string(),
        "gpt-4".to_string(),
    ]);
    assert_eq!(t.matching_models("mixtral"), vec!["Mixtral-8x7B".to_string()]);
}

#[test]
fn search_matches_substrings_only() {
    let t = table();
    assert_eq!(t.matching_models("sonnet"), vec!["sonnet-large-4-5".to_string()]);
    assert!(t.matching_models("nonexistent").is_empty());
}

#[test]
fn excluded_models_never_appear() {
    let t = table();
    assert!(t.matching_models("embedding").is_empty());
}

#[test]
fn preload_is_harmless() {
    preload_tokenizer();
    preload_tokenizer();
}
