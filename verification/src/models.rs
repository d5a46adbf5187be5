//! The normalized per-model pricing record.
//!
//! Dollar rates are exact picodollar (`10^-12` dollar) integers; a rate the
//! document writes with more than twelve decimal places, a negative rate, or
//! one at or above `2^64` picodollars does not fit this representation and
//! degrades to absent, as any field of an unexpected shape does.

use vstd::prelude::*;

verus! {

use crate::text::str_eq;

/// Cost tiers of a web-search query, by context size, in picodollars.
#[derive(Debug, Clone, Copy, PartialEq, Eq)]
pub struct SearchContextCost {
    pub search_context_size_high: Option<u64>,
    pub search_context_size_low: Option<u64>,
    pub search_context_size_medium: Option<u64>,
}

/// A model's pricing facts. Rates are picodollars per unit; every field is
/// absent when the document does not carry it in a usable shape.
#[derive(Debug, Clone)]
pub struct ModelPricing {
    pub input_cost_per_token: Option<u64>,
    pub output_cost_per_token: Option<u64>,
    pub input_cost_per_audio_token: Option<u64>,
    pub output_cost_per_reasoning_token: Option<u64>,
    pub cache_creation_input_token_cost: Option<u64>,
    pub cache_read_input_token_cost: Option<u64>,
    pub input_cost_per_pixel: Option<u64>,
    pub output_cost_per_pixel: Option<u64>,
    pub output_cost_per_image: Option<u64>,
    pub code_interpreter_cost_per_session: Option<u64>,
    pub computer_use_input_cost_per_1k_tokens: Option<u64>,
    pub computer_use_output_cost_per_1k_tokens: Option<u64>,
    pub file_search_cost_per_1k_calls: Option<u64>,
    pub file_search_cost_per_gb_per_day: Option<u64>,
    pub vector_store_cost_per_gb_per_day: Option<u64>,
    pub search_context_cost_per_query: Option<SearchContextCost>,
    pub max_tokens: Option<i64>,
    pub max_input_tokens: Option<i64>,
    pub max_output_tokens: Option<i64>,
    pub litellm_provider: Option<String>,
    pub mode: Option<String>,
    pub deprecation_date: Option<String>,
    pub source: Option<String>,
    pub supports_function_calling: Option<bool>,
    pub supports_parallel_function_calling: Option<bool>,
    pub supports_vision: Option<bool>,
    pub supports_audio_input: Option<bool>,
    pub supports_audio_output: Option<bool>,
    pub supports_prompt_caching: Option<bool>,
    pub supports_reasoning: Option<bool>,
    pub supports_response_schema: Option<bool>,
    pub supports_system_messages: Option<bool>,
    pub supports_web_search: Option<bool>,
    pub supports_assistant_prefill: Option<bool>,
    pub supports_pdf_input: Option<bool>,
    pub supports_tool_choice: Option<bool>,
    pub supported_regions: Option<Vec<String>>,
}

/// The mathematical view of a [`ModelPricing`] record.
pub ghost struct ModelPricingV {
    pub input_cost_per_token: Option<u64>,
    pub output_cost_per_token: Option<u64>,
    pub input_cost_per_audio_token: Option<u64>,
    pub output_cost_per_reasoning_token: Option<u64>,
    pub cache_creation_input_token_cost: Option<u64>,
    pub cache_read_input_token_cost: Option<u64>,
    pub input_cost_per_pixel: Option<u64>,
    pub output_cost_per_pixel: Option<u64>,
    pub output_cost_per_image: Option<u64>,
    pub code_interpreter_cost_per_session: Option<u64>,
    pub computer_use_input_cost_per_1k_tokens: Option<u64>,
    pub computer_use_output_cost_per_1k_tokens: Option<u64>,
    pub file_search_cost_per_1k_calls: Option<u64>,
    pub file_search_cost_per_gb_per_day: Option<u64>,
    pub vector_store_cost_per_gb_per_day: Option<u64>,
    pub search_context_cost_per_query: Option<SearchContextCost>,
    pub max_tokens: Option<i64>,
    pub max_input_tokens: Option<i64>,
    pub max_output_tokens: Option<i64>,
    pub litellm_provider: Option<Seq<char>>,
    pub mode: Option<Seq<char>>,
    pub deprecation_date: Option<Seq<char>>,
    pub source: Option<Seq<char>>,
    pub supports_function_calling: Option<bool>,
    pub supports_parallel_function_calling: Option<bool>,
    pub supports_vision: Option<bool>,
    pub supports_audio_input: Option<bool>,
    pub supports_audio_output: Option<bool>,
    pub supports_prompt_caching: Option<bool>,
    pub supports_reasoning: Option<bool>,
    pub supports_response_schema: Option<bool>,
    pub supports_system_messages: Option<bool>,
    pub supports_web_search: Option<bool>,
    pub supports_assistant_prefill: Option<bool>,
    pub supports_pdf_input: Option<bool>,
    pub supports_tool_choice: Option<bool>,
    pub supported_regions: Option<Seq<Seq<char>>>,
}

/// View of an optional string.
pub open spec fn view_opt_text(s: Option<String>) -> Option<Seq<char>> {
    match s {
        Some(t) => Some(t@),
        None => None,
    }
}

/// View of an optional list of strings.
pub open spec fn view_opt_texts(s: Option<Vec<String>>) -> Option<Seq<Seq<char>>> {
    match s {
        Some(v) => Some(v@.map_values(|t: String| t@)),
        None => None,
    }
}

impl View for ModelPricing {
    type V = ModelPricingV;

    open spec fn view(&self) -> ModelPricingV {
        ModelPricingV {
            input_cost_per_token: self.input_cost_per_token,
            output_cost_per_token: self.output_cost_per_token,
            input_cost_per_audio_token: self.input_cost_per_audio_token,
            output_cost_per_reasoning_token: self.output_cost_per_reasoning_token,
            cache_creation_input_token_cost: self.cache_creation_input_token_cost,
            cache_read_input_token_cost: self.cache_read_input_token_cost,
            input_cost_per_pixel: self.input_cost_per_pixel,
            output_cost_per_pixel: self.output_cost_per_pixel,
            output_cost_per_image: self.output_cost_per_image,
            code_interpreter_cost_per_session: self.code_interpreter_cost_per_session,
            computer_use_input_cost_per_1k_tokens: self.computer_use_input_cost_per_1k_tokens,
            computer_use_output_cost_per_1k_tokens: self.computer_use_output_cost_per_1k_tokens,
            file_search_cost_per_1k_calls: self.file_search_cost_per_1k_calls,
            file_search_cost_per_gb_per_day: self.file_search_cost_per_gb_per_day,
            vector_store_cost_per_gb_per_day: self.vector_store_cost_per_gb_per_day,
            search_context_cost_per_query: self.search_context_cost_per_query,
            max_tokens: self.max_tokens,
            max_input_tokens: self.max_input_tokens,
            max_output_tokens: self.max_output_tokens,
            litellm_provider: view_opt_text(self.litellm_provider),
            mode: view_opt_text(self.mode),
            deprecation_date: view_opt_text(self.deprecation_date),
            source: view_opt_text(self.source),
            supports_function_calling: self.supports_function_calling,
            supports_parallel_function_calling: self.supports_parallel_function_calling,
            supports_vision: self.supports_vision,
            supports_audio_input: self.supports_audio_input,
            supports_audio_output: self.supports_audio_output,
            supports_prompt_caching: self.supports_prompt_caching,
            supports_reasoning: self.supports_reasoning,
            supports_response_schema: self.supports_response_schema,
            supports_system_messages: self.supports_system_messages,
            supports_web_search: self.supports_web_search,
            supports_assistant_prefill: self.supports_assistant_prefill,
            supports_pdf_input: self.supports_pdf_input,
            supports_tool_choice: self.supports_tool_choice,
            supported_regions: view_opt_texts(self.supported_regions),
        }
    }
}

/// Is the mode usable for chat or completion cost estimation?
pub open spec fn mode_ok(m: Option<Seq<char>>) -> bool {
    match m {
        None => true,
        Some(s) => s == "chat"@ || s == "completion"@,
    }
}

/// A record enters the working pricing mapping only with both per-token rates
/// present and a mode of absent, `chat` or `completion`.
pub open spec fn spec_included(r: ModelPricingV) -> bool {
    &&& r.input_cost_per_token is Some
    &&& r.output_cost_per_token is Some
    &&& mode_ok(r.mode)
}

/// Does this record qualify for the working pricing mapping?
pub fn included(r: &ModelPricing) -> (b: bool)
    ensures
        b == spec_included(r@),
{
    if r.input_cost_per_token.is_none() {
        return false;
    }
    if r.output_cost_per_token.is_none() {
        return false;
    }
    match &r.mode {
        None => true,
        Some(m) => str_eq(m.as_str(), "chat") || str_eq(m.as_str(), "completion"),
    }
}

} // verus!
