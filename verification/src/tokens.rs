//! Token estimation.
//!
//! Counting is delegated to the `cl100k` byte-pair encoding and is an
//! approximation: the same encoding is applied whatever model is selected.
//! The encoder is a process-wide, lazily built singleton; building it from
//! its embedded data is assumed to succeed, and a failure there is fatal.

use vstd::prelude::*;

verus! {

/// How many tokens the fixed byte-pair encoding splits the text into.
pub uninterp spec fn token_count_of(text: Seq<char>) -> nat;

/// Relies on `tiktoken_rs::cl100k_base_singleton` (a `LazyLock` built once
/// per process from embedded data) and `CoreBPE::encode_with_special_tokens`:
/// the token split is a function of the text alone, and empty text yields no
/// tokens.
#[verifier::external_body]
pub fn estimate_tokens(text: &str) -> (r: usize)
    ensures
        r == token_count_of(text@),
        text@.len() == 0 ==> r == 0,
{
    tiktoken_rs::cl100k_base_singleton().encode_with_special_tokens(text).len()
}

/// Relies on `tiktoken_rs::cl100k_base_singleton`: touching the singleton
/// builds the encoder, so later counts need not pay for construction.
#[verifier::external_body]
fn warm_up() {
    let _ = tiktoken_rs::cl100k_base_singleton();
}

/// Build the shared tokenizer eagerly, so that the first estimate does not
/// pay its construction cost. Estimation does not depend on this having run.
pub fn preload_tokenizer() {
    warm_up();
}

} // verus!
