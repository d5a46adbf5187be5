//! The cost estimator: token counts, per-call costs and projections.

use llm_cost_estimator::costs::{compute_costs, costs_from_counts, projected_cost};
use llm_cost_estimator::pricing::{parse_model_prices, PricingTable};
use llm_cost_estimator::tokens::estimate_tokens;

fn table(body: &str) -> PricingTable {
    parse_model_prices(body).expect("document should parse")
}

#[test]
fn empty_texts_cost_nothing_for_any_mapping() {
    let t = table(r#"{"model-a": {"input_cost_per_token": 0.01, "output_cost_per_token": 0.02}}"#);
    let b = compute_costs("", "", "model-a", &t).expect("within machine bounds");
    assert_eq!(b.input_tokens, 0);
    assert_eq!(b.output_tokens, 0);
    assert_eq!(b.total_tokens, 0);
    assert_eq!(b.input_cost, 0);
    assert_eq!(b.output_cost, 0);
    assert_eq!(b.total_cost, 0);

    let empty = PricingTable::new();
    let b = compute_costs("", "", "model-a", &empty).expect("within machine bounds");
    assert_eq!(b.total_tokens, 0);
    assert_eq!(b.total_cost, 0);
}

#[test]
fn unknown_model_costs_zero_whatever_the_tokens() {
    let t = table(r#"{"model-a": {"input_cost_per_token": 0.01, "output_cost_per_token": 0.02}}"#);
    let b = compute_costs("some prompt text", "some completion", "model-b", &t)
        .expect("within machine bounds");
    assert!(b.input_tokens > 0);
    assert_eq!(b.input_cost, 0);
    assert_eq!(b.output_cost, 0);
    assert_eq!(b.total_cost, 0);
}

#[test]
fn example_five_and_three_tokens_at_known_rates() {
    // Two texts the fixed encoding splits into five and three tokens.
    let prompt = "a b c d e";
    let completion = "a b c";
    assert_eq!(estimate_tokens(prompt), 5);
    assert_eq!(estimate_tokens(completion), 3);

    let t = table(r#"{"model-a": {"input_cost_per_token": 0.01, "output_cost_per_token": 0.02}}"#);
    let b = compute_costs(prompt, completion, "model-a", &t).expect("within machine bounds");
    assert_eq!(b.input_tokens, 5);
    assert_eq!(b.output_tokens, 3);
    assert_eq!(b.total_tokens, 8);
    // 0.05, 0.06 and 0.11 dollars, in picodollars.
    assert_eq!(b.input_cost, 50_000_000_000);
    assert_eq!(b.output_cost, 60_000_000_000);
    assert_eq!(b.total_cost, 110_000_000_000);
    // 1,000 requests come to 110 dollars.
    assert_eq!(projected_cost(b.total_cost, 1000), Some(110_000_000_000_000));
}

#[test]
fn total_is_always_input_plus_output() {
    let t = table(r#"{"m": {"input_cost_per_token": 0.003, "output_cost_per_token": 0.015}}"#);
    for (p, c) in [("", ""), ("one", "two three"), ("a b c d e", "x")] {
        let b = compute_costs(p, c, "m", &t).expect("within machine bounds");
        assert_eq!(b.total_tokens, b.input_tokens + b.output_tokens);
        assert_eq!(b.total_cost, b.input_cost + b.output_cost);
    }
}

#[test]
fn computation_is_pure() {
    let t = table(r#"{"m": {"input_cost_per_token": 0.004, "output_cost_per_token": 0.001}}"#);
    let first = compute_costs("repeatable prompt", "repeatable output", "m", &t);
    let second = compute_costs("repeatable prompt", "repeatable output", "m", &t);
    assert_eq!(first, second);
}

#[test]
fn missing_rate_counts_as_zero_in_costs() {
    // Inclusion demands both rates, but the arithmetic itself treats a
    // missing rate as zero; exercise it on counts directly.
    let b = costs_from_counts(7, 9, None).expect("within machine bounds");
    assert_eq!(b.total_tokens, 16);
    assert_eq!(b.input_cost, 0);
    assert_eq!(b.output_cost, 0);
    assert_eq!(b.total_cost, 0);
}

#[test]
fn costs_from_counts_multiplies_exactly() {
    let t = table(r#"{"m": {"input_cost_per_token": 0.5, "output_cost_per_token": 0.25}}"#);
    let rec = t.get("m").expect("model should be present");
    let b = costs_from_counts(10, 4, Some(rec)).expect("within machine bounds");
    assert_eq!(b.input_cost, 5_000_000_000_000);
    assert_eq!(b.output_cost, 1_000_000_000_000);
    assert_eq!(b.total_cost, 6_000_000_000_000);
}

#[test]
fn projections_are_exact_multiples() {
    let total: u128 = 110_000_000_000;
    for n in [100u64, 1_000, 10_000, 100_000] {
        assert_eq!(projected_cost(total, n), Some(total * n as u128));
    }
    assert_eq!(projected_cost(7, 0), Some(0));
    assert_eq!(projected_cost(u128::MAX, 1), Some(u128::MAX));
    assert_eq!(projected_cost(u128::MAX, 2), None);
}
