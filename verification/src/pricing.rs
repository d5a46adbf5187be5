//! The pricing loader: decoding a fetched pricing document into the working
//! pricing mapping.
//!
//! Decoding a record is lenient: a field that is absent or of an unexpected
//! shape resolves to absent, and a value that is no JSON object at all fails
//! only that record. The whole fetch fails only when the document itself is
//! not a JSON object.

use vstd::prelude::*;

verus! {

use crate::json::{
    Json,
    entries_match,
    json_doc,
    json_model,
    obj_entries,
    parse_json,
    val_bool,
    val_items,
    val_number_text,
    val_text,
};
use crate::models::{ModelPricing, ModelPricingV, SearchContextCost, included, mode_ok, spec_included};
use crate::numerals::{int_of, parse_int64, parse_pico, pico_of};
use crate::text::{has_sub, lemma_lex_total, lemma_lex_trans, lex_le, lowercased, str_contains, str_eq, str_le, to_lower};

/// Why a fetch of the pricing document failed.
#[derive(Debug, Clone, Copy, PartialEq, Eq, Structural)]
pub enum FetchError {
    /// The request itself failed.
    Network,
    /// The response carried a non-success status.
    Status,
    /// The response body is not a JSON object.
    InvalidJson,
}

/// The field `k` of the object `m`, if present.
pub open spec fn jfield(m: Map<Seq<char>, Json>, k: Seq<char>) -> Option<Json> {
    if m.dom().contains(k) {
        Some(m[k])
    } else {
        None
    }
}

/// A rate field: the picodollar value of a number field, when exact.
pub open spec fn money_field(m: Map<Seq<char>, Json>, k: Seq<char>) -> Option<u64> {
    match jfield(m, k) {
        Some(Json::Num(t)) => pico_of(t),
        _ => None,
    }
}

/// An integer field, when the numeral denotes an `i64`.
pub open spec fn int_field(m: Map<Seq<char>, Json>, k: Seq<char>) -> Option<i64> {
    match jfield(m, k) {
        Some(Json::Num(t)) => int_of(t),
        _ => None,
    }
}

/// A string field.
pub open spec fn text_field(m: Map<Seq<char>, Json>, k: Seq<char>) -> Option<Seq<char>> {
    match jfield(m, k) {
        Some(Json::Text(s)) => Some(s),
        _ => None,
    }
}

/// A boolean field.
pub open spec fn bool_field(m: Map<Seq<char>, Json>, k: Seq<char>) -> Option<bool> {
    match jfield(m, k) {
        Some(Json::Bool(b)) => Some(b),
        _ => None,
    }
}

/// A field holding an array of strings.
pub open spec fn texts_field(m: Map<Seq<char>, Json>, k: Seq<char>) -> Option<Seq<Seq<char>>> {
    match jfield(m, k) {
        Some(Json::Arr(items)) => if forall|i: int| 0 <= i < items.len() ==> (#[trigger] items[i]) is Text {
            Some(items.map_values(|j: Json| j->Text_0))
        } else {
            None
        },
        _ => None,
    }
}

/// A nested search-context cost object.
pub open spec fn scc_field(m: Map<Seq<char>, Json>, k: Seq<char>) -> Option<SearchContextCost> {
    match jfield(m, k) {
        Some(Json::Obj(mm)) => Some(
            SearchContextCost {
                search_context_size_high: money_field(mm, "search_context_size_high"@),
                search_context_size_low: money_field(mm, "search_context_size_low"@),
                search_context_size_medium: money_field(mm, "search_context_size_medium"@),
            },
        ),
        _ => None,
    }
}

/// Lenient decoding of one pricing record: every field degrades to absent,
/// and only a value that is no object fails the record.
pub open spec fn spec_decode(j: Json) -> Option<ModelPricingV> {
    match j {
        Json::Obj(m) => Some(
            ModelPricingV {
                input_cost_per_token: money_field(m, "input_cost_per_token"@),
                output_cost_per_token: money_field(m, "output_cost_per_token"@),
                input_cost_per_audio_token: money_field(m, "input_cost_per_audio_token"@),
                output_cost_per_reasoning_token: money_field(
                    m,
                    "output_cost_per_reasoning_token"@,
                ),
                cache_creation_input_token_cost: money_field(
                    m,
                    "cache_creation_input_token_cost"@,
                ),
                cache_read_input_token_cost: money_field(m, "cache_read_input_token_cost"@),
                input_cost_per_pixel: money_field(m, "input_cost_per_pixel"@),
                output_cost_per_pixel: money_field(m, "output_cost_per_pixel"@),
                output_cost_per_image: money_field(m, "output_cost_per_image"@),
                code_interpreter_cost_per_session: money_field(
                    m,
                    "code_interpreter_cost_per_session"@,
                ),
                computer_use_input_cost_per_1k_tokens: money_field(
                    m,
                    "computer_use_input_cost_per_1k_tokens"@,
                ),
                computer_use_output_cost_per_1k_tokens: money_field(
                    m,
                    "computer_use_output_cost_per_1k_tokens"@,
                ),
                file_search_cost_per_1k_calls: money_field(m, "file_search_cost_per_1k_calls"@),
                file_search_cost_per_gb_per_day: money_field(
                    m,
                    "file_search_cost_per_gb_per_day"@,
                ),
                vector_store_cost_per_gb_per_day: money_field(
                    m,
                    "vector_store_cost_per_gb_per_day"@,
                ),
                search_context_cost_per_query: scc_field(m, "search_context_cost_per_query"@),
                max_tokens: int_field(m, "max_tokens"@),
                max_input_tokens: int_field(m, "max_input_tokens"@),
                max_output_tokens: int_field(m, "max_output_tokens"@),
                litellm_provider: text_field(m, "litellm_provider"@),
                mode: text_field(m, "mode"@),
                deprecation_date: text_field(m, "deprecation_date"@),
                source: text_field(m, "source"@),
                supports_function_calling: bool_field(m, "supports_function_calling"@),
                supports_parallel_function_calling: bool_field(
                    m,
                    "supports_parallel_function_calling"@,
                ),
                supports_vision: bool_field(m, "supports_vision"@),
                supports_audio_input: bool_field(m, "supports_audio_input"@),
                supports_audio_output: bool_field(m, "supports_audio_output"@),
                supports_prompt_caching: bool_field(m, "supports_prompt_caching"@),
                supports_reasoning: bool_field(m, "supports_reasoning"@),
                supports_response_schema: bool_field(m, "supports_response_schema"@),
                supports_system_messages: bool_field(m, "supports_system_messages"@),
                supports_web_search: bool_field(m, "supports_web_search"@),
                supports_assistant_prefill: bool_field(m, "supports_assistant_prefill"@),
                supports_pdf_input: bool_field(m, "supports_pdf_input"@),
                supports_tool_choice: bool_field(m, "supports_tool_choice"@),
                supported_regions: texts_field(m, "supported_regions"@),
            },
        ),
        _ => None,
    }
}

/// The value of the field named `key`, if the entry list has it.
fn find_field<'a>(es: &'a Vec<(String, serde_json::Value)>, key: &str) -> (r: Option<
    &'a serde_json::Value,
>)
    ensures
        r is Some <==> exists|i: int| 0 <= i < es@.len() && (#[trigger] es@[i].0@) == key@,
        r matches Some(v) ==> exists|i: int|
            0 <= i < es@.len() && (#[trigger] es@[i].0@) == key@ && *v == es@[i].1,
{
    let n = es.len();
    let mut i: usize = 0;
    while i < n
        invariant
            n == es@.len(),
            i <= n,
            forall|j: int| 0 <= j < i ==> (#[trigger] es@[j].0@) != key@,
        decreases n - i,
    {
        if str_eq(es[i].0.as_str(), key) {
            return Some(&es[i].1);
        }
        i = i + 1;
    }
    None
}

/// The `jfield` of the object carried by `es`, as the model of the found
/// entry, for contract chaining.
proof fn lemma_found_field(
    es: Seq<(String, serde_json::Value)>,
    m: Map<Seq<char>, Json>,
    k: Seq<char>,
)
    requires
        entries_match(es, m),
    ensures
        (exists|i: int| 0 <= i < es.len() && (#[trigger] es[i].0@) == k) <==> m.dom().contains(k),
        forall|i: int|
            0 <= i < es.len() && (#[trigger] es[i].0@) == k ==> jfield(m, k) == Some(
                json_model(es[i].1),
            ),
{
}

/// A rate field of the record carried by `es`.
fn money_of(
    es: &Vec<(String, serde_json::Value)>,
    key: &str,
    Ghost(m): Ghost<Map<Seq<char>, Json>>,
) -> (r: Option<u64>)
    requires
        entries_match(es@, m),
    ensures
        r == money_field(m, key@),
{
    proof {
        lemma_found_field(es@, m, key@);
    }
    match find_field(es, key) {
        Some(v) => match val_number_text(v) {
            Some(s) => parse_pico(s.as_str()),
            None => None,
        },
        None => None,
    }
}

/// An integer field of the record carried by `es`.
fn int_of_field(
    es: &Vec<(String, serde_json::Value)>,
    key: &str,
    Ghost(m): Ghost<Map<Seq<char>, Json>>,
) -> (r: Option<i64>)
    requires
        entries_match(es@, m),
    ensures
        r == int_field(m, key@),
{
    proof {
        lemma_found_field(es@, m, key@);
    }
    match find_field(es, key) {
        Some(v) => match val_number_text(v) {
            Some(s) => parse_int64(s.as_str()),
            None => None,
        },
        None => None,
    }
}

/// A string field of the record carried by `es`.
fn text_of(
    es: &Vec<(String, serde_json::Value)>,
    key: &str,
    Ghost(m): Ghost<Map<Seq<char>, Json>>,
) -> (r: Option<String>)
    requires
        entries_match(es@, m),
    ensures
        crate::models::view_opt_text(r) == text_field(m, key@),
{
    proof {
        lemma_found_field(es@, m, key@);
    }
    match find_field(es, key) {
        Some(v) => val_text(v),
        None => None,
    }
}

/// A boolean field of the record carried by `es`.
fn bool_of(
    es: &Vec<(String, serde_json::Value)>,
    key: &str,
    Ghost(m): Ghost<Map<Seq<char>, Json>>,
) -> (r: Option<bool>)
    requires
        entries_match(es@, m),
    ensures
        r == bool_field(m, key@),
{
    proof {
        lemma_found_field(es@, m, key@);
    }
    match find_field(es, key) {
        Some(v) => val_bool(v),
        None => None,
    }
}

/// An array-of-strings field of the record carried by `es`.
fn texts_of(
    es: &Vec<(String, serde_json::Value)>,
    key: &str,
    Ghost(m): Ghost<Map<Seq<char>, Json>>,
) -> (r: Option<Vec<String>>)
    requires
        entries_match(es@, m),
    ensures
        crate::models::view_opt_texts(r) == texts_field(m, key@),
{
    proof {
        lemma_found_field(es@, m, key@);
    }
    match find_field(es, key) {
        Some(v) => {
            match val_items(v) {
                Some(items) => {
                    let ghost s = json_model(*v)->Arr_0;
                    let n = items.len();
                    let mut out: Vec<String> = Vec::new();
                    let mut i: usize = 0;
                    while i < n
                        invariant
                            jfield(m, key@) == Some(Json::Arr(s)),
                            n == items@.len(),
                            s.len() == items@.len(),
                            forall|q: int|
                                0 <= q < n ==> s[q] == json_model(#[trigger] items@[q]),
                            i <= n,
                            out@.len() == i,
                            forall|q: int| 0 <= q < i ==> (#[trigger] s[q]) is Text,
                            forall|q: int| 0 <= q < i ==> (#[trigger] out@[q])@ == s[q]->Text_0,
                        decreases n - i,
                    {
                        match val_text(&items[i]) {
                            Some(t) => {
                                out.push(t);
                            },
                            None => {
                                proof {
                                    assert(!(s[i as int] is Text));
                                }
                                return None;
                            },
                        }
                        i = i + 1;
                    }
                    proof {
                        assert(out@.map_values(|t: String| t@) =~= s.map_values(
                            |j: Json| j->Text_0,
                        ));
                    }
                    Some(out)
                },
                None => None,
            }
        },
        None => None,
    }
}

/// A nested search-context cost field of the record carried by `es`.
fn scc_of(
    es: &Vec<(String, serde_json::Value)>,
    key: &str,
    Ghost(m): Ghost<Map<Seq<char>, Json>>,
) -> (r: Option<SearchContextCost>)
    requires
        entries_match(es@, m),
    ensures
        r == scc_field(m, key@),
{
    proof {
        lemma_found_field(es@, m, key@);
    }
    match find_field(es, key) {
        Some(v) => {
            match obj_entries(v) {
                Some(inner) => {
                    let ghost mm = json_model(*v)->Obj_0;
                    let high = money_of(&inner, "search_context_size_high", Ghost(mm));
                    let low = money_of(&inner, "search_context_size_low", Ghost(mm));
                    let medium = money_of(&inner, "search_context_size_medium", Ghost(mm));
                    Some(
                        SearchContextCost {
                            search_context_size_high: high,
                            search_context_size_low: low,
                            search_context_size_medium: medium,
                        },
                    )
                },
                None => None,
            }
        },
        None => None,
    }
}

/// Decode one record value, leniently.
pub fn decode_record(v: &serde_json::Value) -> (r: Option<ModelPricing>)
    ensures
        r is Some <==> spec_decode(json_model(*v)) is Some,
        r matches Some(p) ==> spec_decode(json_model(*v)) == Some(p@),
{
    match obj_entries(v) {
        Some(es) => {
            let ghost m = json_model(*v)->Obj_0;
            let rec = ModelPricing {
                input_cost_per_token: money_of(&es, "input_cost_per_token", Ghost(m)),
                output_cost_per_token: money_of(&es, "output_cost_per_token", Ghost(m)),
                input_cost_per_audio_token: money_of(&es, "input_cost_per_audio_token", Ghost(m)),
                output_cost_per_reasoning_token: money_of(
                    &es,
                    "output_cost_per_reasoning_token",
                    Ghost(m),
                ),
                cache_creation_input_token_cost: money_of(
                    &es,
                    "cache_creation_input_token_cost",
                    Ghost(m),
                ),
                cache_read_input_token_cost: money_of(
                    &es,
                    "cache_read_input_token_cost",
                    Ghost(m),
                ),
                input_cost_per_pixel: money_of(&es, "input_cost_per_pixel", Ghost(m)),
                output_cost_per_pixel: money_of(&es, "output_cost_per_pixel", Ghost(m)),
                output_cost_per_image: money_of(&es, "output_cost_per_image", Ghost(m)),
                code_interpreter_cost_per_session: money_of(
                    &es,
                    "code_interpreter_cost_per_session",
                    Ghost(m),
                ),
                computer_use_input_cost_per_1k_tokens: money_of(
                    &es,
                    "computer_use_input_cost_per_1k_tokens",
                    Ghost(m),
                ),
                computer_use_output_cost_per_1k_tokens: money_of(
                    &es,
                    "computer_use_output_cost_per_1k_tokens",
                    Ghost(m),
                ),
                file_search_cost_per_1k_calls: money_of(
                    &es,
                    "file_search_cost_per_1k_calls",
                    Ghost(m),
                ),
                file_search_cost_per_gb_per_day: money_of(
                    &es,
                    "file_search_cost_per_gb_per_day",
                    Ghost(m),
                ),
                vector_store_cost_per_gb_per_day: money_of(
                    &es,
                    "vector_store_cost_per_gb_per_day",
                    Ghost(m),
                ),
                search_context_cost_per_query: scc_of(
                    &es,
                    "search_context_cost_per_query",
                    Ghost(m),
                ),
                max_tokens: int_of_field(&es, "max_tokens", Ghost(m)),
                max_input_tokens: int_of_field(&es, "max_input_tokens", Ghost(m)),
                max_output_tokens: int_of_field(&es, "max_output_tokens", Ghost(m)),
                litellm_provider: text_of(&es, "litellm_provider", Ghost(m)),
                mode: text_of(&es, "mode", Ghost(m)),
                deprecation_date: text_of(&es, "deprecation_date", Ghost(m)),
                source: text_of(&es, "source", Ghost(m)),
                supports_function_calling: bool_of(&es, "supports_function_calling", Ghost(m)),
                supports_parallel_function_calling: bool_of(
                    &es,
                    "supports_parallel_function_calling",
                    Ghost(m),
                ),
                supports_vision: bool_of(&es, "supports_vision", Ghost(m)),
                supports_audio_input: bool_of(&es, "supports_audio_input", Ghost(m)),
                supports_audio_output: bool_of(&es, "supports_audio_output", Ghost(m)),
                supports_prompt_caching: bool_of(&es, "supports_prompt_caching", Ghost(m)),
                supports_reasoning: bool_of(&es, "supports_reasoning", Ghost(m)),
                supports_response_schema: bool_of(&es, "supports_response_schema", Ghost(m)),
                supports_system_messages: bool_of(&es, "supports_system_messages", Ghost(m)),
                supports_web_search: bool_of(&es, "supports_web_search", Ghost(m)),
                supports_assistant_prefill: bool_of(&es, "supports_assistant_prefill", Ghost(m)),
                supports_pdf_input: bool_of(&es, "supports_pdf_input", Ghost(m)),
                supports_tool_choice: bool_of(&es, "supports_tool_choice", Ghost(m)),
                supported_regions: texts_of(&es, "supported_regions", Ghost(m)),
            };
            proof {
                assert(spec_decode(json_model(*v)) == Some(rec@));
            }
            Some(rec)
        },
        None => None,
    }
}

/// The keys of an entry list, pairwise distinct.
pub open spec fn keys_distinct(s: Seq<(String, ModelPricing)>) -> bool {
    forall|p: int, q: int| 0 <= p < q < s.len() ==> (#[trigger] s[p].0@) != (#[trigger] s[q].0@)
}

/// The mapping carried by an entry list.
pub open spec fn kv_map(s: Seq<(String, ModelPricing)>) -> Map<Seq<char>, ModelPricingV>
    decreases s.len(),
{
    if s.len() == 0 {
        Map::empty()
    } else {
        kv_map(s.drop_last()).insert(s.last().0@, s.last().1@)
    }
}

/// The domain of `kv_map` is exactly the set of listed keys.
pub proof fn lemma_kv_dom(s: Seq<(String, ModelPricing)>)
    ensures
        forall|k: Seq<char>|
            #[trigger] kv_map(s).dom().contains(k) <==> exists|i: int|
                0 <= i < s.len() && (#[trigger] s[i].0@) == k,
    decreases s.len(),
{
    if s.len() > 0 {
        let d = s.drop_last();
        lemma_kv_dom(d);
        assert forall|k: Seq<char>| #[trigger] kv_map(s).dom().contains(k) implies exists|i: int|
            0 <= i < s.len() && (#[trigger] s[i].0@) == k by {
            if k == s.last().0@ {
                assert(s[s.len() - 1].0@ == k);
            } else {
                assert(kv_map(d).dom().contains(k));
                let i = choose|i: int| 0 <= i < d.len() && (#[trigger] d[i].0@) == k;
                assert(s[i].0@ == k);
            }
        }
        assert forall|k: Seq<char>|
            (exists|i: int| 0 <= i < s.len() && (#[trigger] s[i].0@) == k) implies #[trigger] kv_map(
            s,
        ).dom().contains(k) by {
            let i = choose|i: int| 0 <= i < s.len() && (#[trigger] s[i].0@) == k;
            if i < s.len() - 1 {
                assert(d[i].0@ == k);
            }
        }
    }
}

/// With distinct keys, `kv_map` maps each listed key to its listed record.
pub proof fn lemma_kv_val(s: Seq<(String, ModelPricing)>, i: int)
    requires
        keys_distinct(s),
        0 <= i < s.len(),
    ensures
        kv_map(s).dom().contains(s[i].0@),
        kv_map(s)[s[i].0@] == s[i].1@,
    decreases s.len(),
{
    let d = s.drop_last();
    if i == s.len() - 1 {
    } else {
        assert(keys_distinct(d)) by {
            assert(forall|p: int, q: int|
                0 <= p < q < d.len() ==> (#[trigger] d[p].0@) == s[p].0@ && (#[trigger] d[q].0@)
                    == s[q].0@);
        }
        lemma_kv_val(d, i);
        assert(s[i].0@ != s.last().0@);
    }
}

/// The working pricing mapping: model name to pricing record, each name once.
pub struct PricingTable {
    entries: Vec<(String, ModelPricing)>,
}

impl View for PricingTable {
    type V = Map<Seq<char>, ModelPricingV>;

    closed spec fn view(&self) -> Map<Seq<char>, ModelPricingV> {
        kv_map(self.entries@)
    }
}

impl PricingTable {
    #[verifier::type_invariant]
    spec fn wf(self) -> bool {
        keys_distinct(self.entries@)
    }

    /// The empty mapping.
    pub fn new() -> (r: PricingTable)
        ensures
            r@ == Map::<Seq<char>, ModelPricingV>::empty(),
    {
        PricingTable { entries: Vec::new() }
    }

    /// How many models the mapping holds.
    pub fn len(&self) -> (n: usize)
        ensures
            n == self@.dom().len(),
    {
        proof {
            use_type_invariant(self);
            lemma_kv_len(self.entries@);
        }
        self.entries.len()
    }

    /// The pricing record of `model`, if the mapping has one.
    pub fn get<'a>(&'a self, model: &str) -> (r: Option<&'a ModelPricing>)
        ensures
            r is Some <==> self@.dom().contains(model@),
            r matches Some(p) ==> self@[model@] == p@,
    {
        let n = self.entries.len();
        let mut i: usize = 0;
        while i < n
            invariant
                n == self.entries@.len(),
                i <= n,
                forall|j: int| 0 <= j < i ==> (#[trigger] self.entries@[j].0@) != model@,
            decreases n - i,
        {
            if str_eq(self.entries[i].0.as_str(), model) {
                proof {
                    use_type_invariant(self);
                    lemma_kv_val(self.entries@, i as int);
                }
                return Some(&self.entries[i].1);
            }
            i = i + 1;
        }
        proof {
            lemma_kv_dom(self.entries@);
        }
        None
    }

    /// The model names matching the search text, each once, in code-point
    /// order. An empty search matches every model; otherwise a name matches
    /// when its lowercase form contains the lowercase search text.
    pub fn matching_models(&self, query: &str) -> (r: Vec<String>)
        ensures
            sorted_names(r@),
            distinct_names(r@),
            forall|i: int|
                0 <= i < r@.len() ==> self@.dom().contains((#[trigger] r@[i])@) && name_matches(
                    r@[i]@,
                    query@,
                ),
            forall|k: Seq<char>|
                self@.dom().contains(k) && name_matches(k, query@) ==> seq_has(r@, k),
    {
        proof {
            use_type_invariant(self);
            lemma_kv_dom(self.entries@);
        }
        let ghost es = self.entries@;
        let empty_query = query.is_empty();
        let lowered_query = to_lower(query);
        let n = self.entries.len();
        let mut out: Vec<String> = Vec::new();
        let mut i: usize = 0;
        while i < n
            invariant
                n == es.len(),
                es == self.entries@,
                i <= n,
                empty_query == (query@.len() == 0),
                lowered_query@ == lowercased(query@),
                sorted_names(out@),
                distinct_names(out@),
                forall|x: Seq<char>|
                    #[trigger] seq_has(out@, x) ==> (exists|j: int|
                        0 <= j < i && (#[trigger] es[j].0@) == x) && name_matches(x, query@),
                forall|j: int|
                    0 <= j < i && name_matches((#[trigger] es[j].0@), query@) ==> seq_has(
                        out@,
                        es[j].0@,
                    ),
                keys_distinct(es),
            decreases n - i,
        {
            let name = &self.entries[i].0;
            let keep = if empty_query {
                true
            } else {
                let lowered = to_lower(name.as_str());
                str_contains(lowered.as_str(), lowered_query.as_str())
            };
            proof {
                assert(keep == name_matches(es[i as int].0@, query@));
            }
            if keep {
                proof {
                    if seq_has(out@, name@) {
                        let j = choose|j: int| 0 <= j < i && (#[trigger] es[j].0@) == name@;
                        assert(es[j].0@ == es[i as int].0@);
                        assert(false);
                    }
                }
                let ghost ob = out@;
                insert_sorted(&mut out, name.clone());
                proof {
                    assert forall|x: Seq<char>| #[trigger] seq_has(out@, x) implies (exists|j: int|
                        0 <= j <= i && (#[trigger] es[j].0@) == x) && name_matches(x, query@) by {
                        if seq_has(ob, x) {
                            let j = choose|j: int| 0 <= j < i && (#[trigger] es[j].0@) == x;
                            assert(es[j].0@ == x);
                        } else {
                            assert(x == es[i as int].0@);
                        }
                    }
                    assert forall|j: int|
                        0 <= j <= i && name_matches((#[trigger] es[j].0@), query@) implies seq_has(
                        out@,
                        es[j].0@,
                    ) by {
                        if j < i {
                            assert(seq_has(ob, es[j].0@));
                        }
                    }
                }
            }
            i = i + 1;
        }
        proof {
            lemma_kv_dom(es);
            assert forall|q: int| 0 <= q < out@.len() implies self@.dom().contains(
                (#[trigger] out@[q])@,
            ) && name_matches(out@[q]@, query@) by {
                assert(seq_has(out@, out@[q]@));
            }
        }
                proof {
            lemma_kv_dom(es);
        }
        out
    }
}

/// The number of entries equals the size of the mapping's domain.
proof fn lemma_kv_len(s: Seq<(String, ModelPricing)>)
    requires
        keys_distinct(s),
    ensures
        kv_map(s).dom().finite(),
        kv_map(s).dom().len() == s.len(),
    decreases s.len(),
{
    if s.len() > 0 {
        let d = s.drop_last();
        assert(keys_distinct(d)) by {
            assert(forall|p: int, q: int|
                0 <= p < q < d.len() ==> (#[trigger] d[p].0@) == s[p].0@ && (#[trigger] d[q].0@)
                    == s[q].0@);
        }
        lemma_kv_len(d);
        lemma_kv_dom(d);
        if kv_map(d).dom().contains(s.last().0@) {
            let i = choose|i: int| 0 <= i < d.len() && (#[trigger] d[i].0@) == s.last().0@;
            assert(s[i].0@ == s[s.len() - 1].0@);
            assert(false);
        }
        assert(kv_map(s).dom() =~= kv_map(d).dom().insert(s.last().0@));
    } else {
        assert(kv_map(s).dom() =~= Set::<Seq<char>>::empty());
    }
}

/// Are the names sorted in code-point order?
pub open spec fn sorted_names(v: Seq<String>) -> bool {
    forall|i: int, j: int| 0 <= i < j < v.len() ==> lex_le((#[trigger] v[i])@, (#[trigger] v[j])@)
}

/// Are the names pairwise distinct?
pub open spec fn distinct_names(v: Seq<String>) -> bool {
    forall|i: int, j: int| 0 <= i < j < v.len() ==> (#[trigger] v[i])@ != (#[trigger] v[j])@
}

/// Does the list carry the name `x`?
pub open spec fn seq_has(v: Seq<String>, x: Seq<char>) -> bool {
    exists|i: int| 0 <= i < v.len() && (#[trigger] v[i])@ == x
}

/// Does the model name match the search text?
pub open spec fn name_matches(k: Seq<char>, query: Seq<char>) -> bool {
    query.len() == 0 || has_sub(lowercased(k), lowercased(query))
}

/// Insert a new name into a sorted list, keeping it sorted.
fn insert_sorted(out: &mut Vec<String>, s: String)
    requires
        sorted_names(old(out)@),
        distinct_names(old(out)@),
        !seq_has(old(out)@, s@),
    ensures
        sorted_names(final(out)@),
        distinct_names(final(out)@),
        final(out)@.len() == old(out)@.len() + 1,
        forall|x: Seq<char>| seq_has(final(out)@, x) <==> (seq_has(old(out)@, x) || x == s@),
{
    let n = out.len();
    let mut pos: usize = 0;
    while pos < n && !str_le(s.as_str(), out[pos].as_str())
        invariant
            n == out@.len(),
            out@ == old(out)@,
            pos <= n,
            forall|k: int| 0 <= k < pos ==> !lex_le(s@, (#[trigger] out@[k])@),
        decreases n - pos,
    {
        pos = pos + 1;
    }
    let ghost before = out@;
    out.insert(pos, s);
    proof {
        assert(out@ == before.insert(pos as int, s));
        assert forall|i: int, j: int| 0 <= i < j < out@.len() implies lex_le(
            (#[trigger] out@[i])@,
            (#[trigger] out@[j])@,
        ) by {
            let a = out@[i];
            let b = out@[j];
            if i < pos && j == pos {
                lemma_lex_total(s@, before[i]@);
            } else if i == pos && j > pos {
                if pos < before.len() && j - 1 > pos {
                    lemma_lex_trans(s@, before[pos as int]@, before[j - 1]@);
                }
            } else if i < pos && j > pos {
            }
        }
        assert forall|i: int, j: int| 0 <= i < j < out@.len() implies (#[trigger] out@[i])@ != (
        #[trigger] out@[j])@ by {
            if i == pos {
                assert(out@[j]@ == before[j - 1]@);
                if out@[i]@ == out@[j]@ {
                    assert(before[j - 1]@ == s@);
                    assert(seq_has(before, s@));
                }
            } else if j == pos {
                assert(out@[i]@ == before[i]@);
                if out@[i]@ == out@[j]@ {
                    assert(seq_has(before, s@));
                }
            }
        }
        assert forall|x: Seq<char>| seq_has(out@, x) implies (seq_has(before, x) || x == s@) by {
            let q = choose|q: int| 0 <= q < out@.len() && (#[trigger] out@[q])@ == x;
            if q < pos {
                assert(before[q]@ == x);
            } else if q > pos {
                assert(before[q - 1]@ == x);
            }
        }
        assert forall|x: Seq<char>| (seq_has(before, x) || x == s@) implies seq_has(out@, x) by {
            if x == s@ {
                assert(out@[pos as int]@ == x);
            } else {
                let q = choose|q: int| 0 <= q < before.len() && (#[trigger] before[q])@ == x;
                if q < pos {
                    assert(out@[q]@ == x);
                } else {
                    assert(out@[q + 1]@ == x);
                }
            }
        }
    }
}

/// Does the key `k` of the document object survive filtering: not the
/// metadata key, decodable, and within the inclusion invariant?
pub open spec fn table_has(m: Map<Seq<char>, Json>, k: Seq<char>) -> bool {
    &&& m.dom().contains(k)
    &&& k != "sample_spec"@
    &&& spec_decode(m[k]) is Some
    &&& spec_included(spec_decode(m[k])->0)
}

/// The working mapping a parsed pricing document yields.
pub open spec fn table_of(m: Map<Seq<char>, Json>) -> Map<Seq<char>, ModelPricingV> {
    Map::new(|k: Seq<char>| table_has(m, k), |k: Seq<char>| spec_decode(m[k])->0)
}

/// Does the entry list carry the key `k`?
pub open spec fn out_has(v: Seq<(String, ModelPricing)>, k: Seq<char>) -> bool {
    exists|q: int| 0 <= q < v.len() && (#[trigger] v[q].0@) == k
}

/// Parse a fetched pricing document into the working mapping.
///
/// The whole parse fails only when the body is not a JSON object; a record
/// that fails to decode, the `sample_spec` metadata entry, and records
/// outside the inclusion invariant are dropped silently.
pub fn parse_model_prices(body: &str) -> (r: Result<PricingTable, FetchError>)
    ensures
        r is Ok <==> (json_doc(body@) matches Some(j) && j is Obj),
        r matches Ok(t) ==> t@ == table_of(json_doc(body@)->0->Obj_0),
        r matches Err(e) ==> e == FetchError::InvalidJson,
{
    let doc = match parse_json(body) {
        Some(d) => d,
        None => {
            return Err(FetchError::InvalidJson);
        },
    };
    let es = match obj_entries(&doc) {
        Some(es) => es,
        None => {
            return Err(FetchError::InvalidJson);
        },
    };
    let ghost m = json_model(doc)->Obj_0;
    let n = es.len();
    let mut out: Vec<(String, ModelPricing)> = Vec::new();
    let mut i: usize = 0;
    while i < n
        invariant
            n == es@.len(),
            entries_match(es@, m),
            i <= n,
            keys_distinct(out@),
            forall|q: int|
                0 <= q < out@.len() ==> ({
                    &&& exists|j: int|
                        0 <= j < i && (#[trigger] es@[j].0@) == (#[trigger] out@[q].0@)
                    &&& table_has(m, out@[q].0@)
                    &&& spec_decode(m[out@[q].0@]) == Some(out@[q].1@)
                }),
            forall|j: int|
                0 <= j < i && table_has(m, (#[trigger] es@[j].0@)) ==> out_has(out@, es@[j].0@),
        decreases n - i,
    {
        let key = &es[i].0;
        let keep_key = !str_eq(key.as_str(), "sample_spec");
        if keep_key {
            match decode_record(&es[i].1) {
                Some(rec) => {
                    if included(&rec) {
                        proof {
                            assert(m[key@] == json_model(es@[i as int].1));
                            if out_has(out@, key@) {
                                let q = choose|q: int|
                                    0 <= q < out@.len() && (#[trigger] out@[q].0@) == key@;
                                let j = choose|j: int|
                                    0 <= j < i && (#[trigger] es@[j].0@) == out@[q].0@;
                                assert(es@[j].0@ == es@[i as int].0@);
                                assert(false);
                            }
                        }
                        let ghost ob = out@;
                        out.push((key.clone(), rec));
                        proof {
                            assert forall|q: int| 0 <= q < out@.len() implies ({
                                &&& exists|j: int|
                                    0 <= j <= i && (#[trigger] es@[j].0@) == (
                                    #[trigger] out@[q].0@)
                                &&& table_has(m, out@[q].0@)
                                &&& spec_decode(m[out@[q].0@]) == Some(out@[q].1@)
                            }) by {
                                if q < ob.len() {
                                    assert(out@[q] == ob[q]);
                                    let j = choose|j: int|
                                        0 <= j < i && (#[trigger] es@[j].0@) == ob[q].0@;
                                    assert(es@[j].0@ == out@[q].0@);
                                } else {
                                    assert(out@[q].0@ == es@[i as int].0@);
                                }
                            }
                            assert forall|p: int, q: int| 0 <= p < q < out@.len() implies (
                            #[trigger] out@[p].0@) != (#[trigger] out@[q].0@) by {
                                if q == out@.len() - 1 {
                                    let j = choose|j: int|
                                        0 <= j < i && (#[trigger] es@[j].0@) == ob[p].0@;
                                    if out@[p].0@ == out@[q].0@ {
                                        assert(es@[j].0@ == es@[i as int].0@);
                                    }
                                }
                            }
                            assert forall|j: int|
                                0 <= j <= i && table_has(m, (#[trigger] es@[j].0@)) implies
                                out_has(out@, es@[j].0@) by {
                                if j < i {
                                    assert(out_has(ob, es@[j].0@));
                                    let q = choose|q: int|
                                        0 <= q < ob.len() && (#[trigger] ob[q].0@) == es@[j].0@;
                                    assert(out@[q].0@ == es@[j].0@);
                                } else {
                                    assert(out@[out@.len() - 1].0@ == es@[j].0@);
                                }
                            }
                        }
                    } else {
                        proof {
                            assert(key@ == es@[i as int].0@);
                            assert(m[key@] == json_model(es@[i as int].1));
                            assert(!spec_included(spec_decode(m[key@])->0));
                            assert(!table_has(m, es@[i as int].0@));
                        }
                    }
                },
                None => {
                    proof {
                        assert(key@ == es@[i as int].0@);
                        assert(m[key@] == json_model(es@[i as int].1));
                        assert(spec_decode(m[key@]) is None);
                        assert(!table_has(m, es@[i as int].0@));
                    }
                },
            }
        } else {
            proof {
                assert(es@[i as int].0@ == "sample_spec"@);
                assert(!table_has(m, es@[i as int].0@));
            }
        }
        i = i + 1;
    }
    proof {
        lemma_kv_dom(out@);
        assert forall|k: Seq<char>| kv_map(out@).dom().contains(k) implies table_of(
            m,
        ).dom().contains(k) by {
            let q = choose|q: int| 0 <= q < out@.len() && (#[trigger] out@[q].0@) == k;
            assert(table_has(m, k));
        }
        assert forall|k: Seq<char>| table_of(m).dom().contains(k) implies kv_map(
            out@,
        ).dom().contains(k) by {
            assert(table_has(m, k));
            let j = choose|j: int| 0 <= j < es@.len() && (#[trigger] es@[j].0@) == k;
            assert(out_has(out@, k));
            let q = choose|q: int| 0 <= q < out@.len() && (#[trigger] out@[q].0@) == k;
        }
        assert forall|k: Seq<char>| kv_map(out@).dom().contains(k) implies kv_map(out@)[k]
            == table_of(m)[k] by {
            let q = choose|q: int| 0 <= q < out@.len() && (#[trigger] out@[q].0@) == k;
            lemma_kv_val(out@, q);
        }
        assert(kv_map(out@) =~= table_of(m));
    }
    Ok(PricingTable { entries: out })
}

/// Law: a record whose decoding lacks either per-token rate is not in the
/// working mapping, whatever else it holds; nor is one that fails to decode.
pub proof fn lemma_missing_rate_excluded(m: Map<Seq<char>, Json>, k: Seq<char>)
    requires
        spec_decode(m[k]) matches Some(r) ==> r.input_cost_per_token is None
            || r.output_cost_per_token is None,
    ensures
        !table_of(m).dom().contains(k),
{
}

/// Law: the metadata key `sample_spec` is never in the working mapping,
/// whatever its value.
pub proof fn lemma_sample_spec_excluded(m: Map<Seq<char>, Json>)
    ensures
        !table_of(m).dom().contains("sample_spec"@),
{
}

/// Law: a record whose mode is neither `chat` nor `completion` (an
/// `embedding` record, say) is not in the working mapping.
pub proof fn lemma_mode_excluded(m: Map<Seq<char>, Json>, k: Seq<char>)
    requires
        spec_decode(m[k]) is Some,
        spec_decode(m[k])->0.mode is Some,
        spec_decode(m[k])->0.mode->0 != "chat"@,
        spec_decode(m[k])->0.mode->0 != "completion"@,
    ensures
        !table_of(m).dom().contains(k),
{
}

/// Law: a record under a key other than `sample_spec`, with both per-token
/// rates and a mode of absent, `chat` or `completion`, is in the working
/// mapping, with its decoded fields.
pub proof fn lemma_qualifying_included(m: Map<Seq<char>, Json>, k: Seq<char>)
    requires
        m.dom().contains(k),
        k != "sample_spec"@,
        spec_decode(m[k]) is Some,
        spec_decode(m[k])->0.input_cost_per_token is Some,
        spec_decode(m[k])->0.output_cost_per_token is Some,
        mode_ok(spec_decode(m[k])->0.mode),
    ensures
        table_of(m).dom().contains(k),
        table_of(m)[k] == spec_decode(m[k])->0,
{
}

} // verus!
