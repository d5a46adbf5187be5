//! Token estimation through the fixed byte-pair encoding.

use llm_cost_estimator::tokens::{estimate_tokens, preload_tokenizer};

#[test]
fn empty_text_has_no_tokens() {
    assert_eq!(estimate_tokens(""), 0);
}

#[test]
fn nonempty_text_has_tokens() {
    assert!(estimate_tokens("hello world") > 0);
    assert!(estimate_tokens("a") >= 1);
}

#[test]
fn estimation_is_stable_across_calls() {
    let text = "The quick brown fox jumps over the lazy dog.";
    let first = estimate_tokens(text);
    let second = estimate_tokens(text);
    assert_eq!(first, second);
    assert!(first > 0);
}

#[test]
fn estimation_works_after_preload() {
    preload_tokenizer();
    let n = estimate_tokens("hello world");
    assert_eq!(n, estimate_tokens("hello world"));
}

#[test]
fn longer_text_never_counts_fewer_tokens_in_practice() {
    let short = estimate_tokens("hello");
    let long = estimate_tokens("hello hello hello hello");
    assert!(long > short);
}
