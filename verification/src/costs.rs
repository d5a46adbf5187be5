//! The cost estimator: token counts for prompt and completion text, the
//! picodollar cost of one call, and request-volume projections.

use vstd::prelude::*;

verus! {

use vstd::arithmetic::mul::lemma_mul_upper_bound;
use crate::models::{ModelPricing, ModelPricingV};
use crate::pricing::PricingTable;
use crate::tokens::{estimate_tokens, token_count_of};

/// Token counts and picodollar costs of one estimated call.
#[derive(Debug, Clone, Copy, PartialEq, Eq, Structural)]
pub struct CostBreakdown {
    pub input_tokens: usize,
    pub output_tokens: usize,
    pub total_tokens: usize,
    pub input_cost: u128,
    pub output_cost: u128,
    pub total_cost: u128,
}

/// A missing rate counts as zero.
pub open spec fn rate_or_zero(r: Option<u64>) -> int {
    match r {
        Some(x) => x as int,
        None => 0,
    }
}

/// The record the mapping holds for the selected model, if any.
pub open spec fn spec_record_for(
    t: Map<Seq<char>, ModelPricingV>,
    model: Seq<char>,
) -> Option<ModelPricingV> {
    if t.dom().contains(model) {
        Some(t[model])
    } else {
        None
    }
}

/// Input cost: tokens times the input rate; zero without a record.
pub open spec fn spec_input_cost(tokens: nat, rec: Option<ModelPricingV>) -> int {
    match rec {
        Some(r) => tokens * rate_or_zero(r.input_cost_per_token),
        None => 0,
    }
}

/// Output cost: tokens times the output rate; zero without a record.
pub open spec fn spec_output_cost(tokens: nat, rec: Option<ModelPricingV>) -> int {
    match rec {
        Some(r) => tokens * rate_or_zero(r.output_cost_per_token),
        None => 0,
    }
}

/// The whole contract of the cost computation, as a relation between the
/// views of the inputs and the result.
pub open spec fn costs_post(
    prompt: Seq<char>,
    completion: Seq<char>,
    model: Seq<char>,
    t: Map<Seq<char>, ModelPricingV>,
    r: Option<CostBreakdown>,
) -> bool {
    let it = token_count_of(prompt);
    let ot = token_count_of(completion);
    let rv = spec_record_for(t, model);
    let ic = spec_input_cost(it, rv);
    let oc = spec_output_cost(ot, rv);
    &&& (r is Some <==> it + ot <= usize::MAX && ic + oc <= u128::MAX)
    &&& (r matches Some(b) ==> {
        &&& b.input_tokens == it
        &&& b.output_tokens == ot
        &&& b.total_tokens == it + ot
        &&& b.input_cost == ic
        &&& b.output_cost == oc
        &&& b.total_cost == ic + oc
    })
}

/// Multiply a token count by an optional rate, exactly.
fn cost_part(tokens: usize, rate: Option<u64>) -> (r: u128)
    ensures
        r == (tokens as nat) * rate_or_zero(rate),
{
    match rate {
        Some(x) => {
            proof {
                lemma_mul_upper_bound(tokens as int, u64::MAX as int, x as int, u64::MAX as int);
            }
            (tokens as u128) * (x as u128)
        },
        None => 0u128,
    }
}

/// Derive the cost breakdown from already-known token counts.
///
/// `None` only where a machine bound is passed: the token total does not fit
/// `usize`, or the picodollar total does not fit `u128`.
pub fn costs_from_counts(
    input_tokens: usize,
    output_tokens: usize,
    record: Option<&ModelPricing>,
) -> (r: Option<CostBreakdown>)
    ensures
        ({
            let rv = match record {
                Some(p) => Some(p@),
                None => None,
            };
            let ic = spec_input_cost(input_tokens as nat, rv);
            let oc = spec_output_cost(output_tokens as nat, rv);
            &&& (r is Some <==> input_tokens + output_tokens <= usize::MAX && ic + oc
                <= u128::MAX)
            &&& (r matches Some(b) ==> {
                &&& b.input_tokens == input_tokens
                &&& b.output_tokens == output_tokens
                &&& b.total_tokens == input_tokens + output_tokens
                &&& b.input_cost == ic
                &&& b.output_cost == oc
                &&& b.total_cost == ic + oc
            })
        }),
{
    let total_tokens = match input_tokens.checked_add(output_tokens) {
        Some(t) => t,
        None => {
            return None;
        },
    };
    let (input_cost, output_cost) = match record {
        Some(p) => (
            cost_part(input_tokens, p.input_cost_per_token),
            cost_part(output_tokens, p.output_cost_per_token),
        ),
        None => (0u128, 0u128),
    };
    let total_cost = match input_cost.checked_add(output_cost) {
        Some(t) => t,
        None => {
            return None;
        },
    };
    Some(
        CostBreakdown {
            input_tokens,
            output_tokens,
            total_tokens,
            input_cost,
            output_cost,
            total_cost,
        },
    )
}

/// Estimate tokens and costs for the selected model.
///
/// Token counts come from the fixed encoding; costs are zero where the
/// mapping has no record for the model, and a missing rate counts as zero.
/// `None` only where a machine bound is passed (see `costs_from_counts`).
pub fn compute_costs(
    prompt: &str,
    completion: &str,
    model: &str,
    pricing: &PricingTable,
) -> (r: Option<CostBreakdown>)
    ensures
        costs_post(prompt@, completion@, model@, pricing@, r),
        r matches Some(b) ==> b.total_tokens == b.input_tokens + b.output_tokens,
        !pricing@.dom().contains(model@) ==> (r matches Some(b) ==> b.input_cost == 0
            && b.output_cost == 0 && b.total_cost == 0),
{
    let input_tokens = estimate_tokens(prompt);
    let output_tokens = estimate_tokens(completion);
    let record = pricing.get(model);
    costs_from_counts(input_tokens, output_tokens, record)
}

/// Law: the cost computation is pure. Its contract pins every field of the
/// result, so any two results it allows for the same input views are equal.
pub proof fn lemma_compute_costs_pure(
    prompt: Seq<char>,
    completion: Seq<char>,
    model: Seq<char>,
    t: Map<Seq<char>, ModelPricingV>,
    r1: Option<CostBreakdown>,
    r2: Option<CostBreakdown>,
)
    requires
        costs_post(prompt, completion, model, t, r1),
        costs_post(prompt, completion, model, t, r2),
    ensures
        r1 == r2,
{
}

/// Law: texts that tokenize to nothing cost nothing, whatever the mapping
/// and selection: the estimate exists and every count and cost in it is zero.
pub proof fn lemma_empty_texts_cost_nothing(
    prompt: Seq<char>,
    completion: Seq<char>,
    model: Seq<char>,
    t: Map<Seq<char>, ModelPricingV>,
    r: Option<CostBreakdown>,
)
    requires
        token_count_of(prompt) == 0,
        token_count_of(completion) == 0,
        costs_post(prompt, completion, model, t, r),
    ensures
        r is Some,
        r->0.input_tokens == 0,
        r->0.output_tokens == 0,
        r->0.total_tokens == 0,
        r->0.input_cost == 0,
        r->0.output_cost == 0,
        r->0.total_cost == 0,
{
}

/// The projected cost of `requests` calls: an exact multiple of the
/// per-call total, or `None` where that multiple does not fit `u128`.
pub fn projected_cost(total_cost: u128, requests: u64) -> (r: Option<u128>)
    ensures
        r is Some <==> total_cost * requests <= u128::MAX,
        r matches Some(p) ==> p == total_cost * requests,
{
    total_cost.checked_mul(requests as u128)
}

} // verus!
