//! Pricing of calls to the hosted text-generation service.
//!
//! Prices are held as integers: US micro-dollars (10^-6 USD) per million
//! tokens. A computed cost is therefore exact in pico-dollars (10^-12 USD):
//! one token at a price of `p` micro-dollars per million tokens costs `p`
//! pico-dollars.

use vstd::prelude::*;

use crate::text::str_eq;

verus! {

/// Price per million tokens of the default model, in micro-dollars.
pub const DEFAULT_INPUT_PRICE_MICRO: u64 = 100_000;
/// Output-token price per million tokens of the default model, in micro-dollars.
pub const DEFAULT_OUTPUT_PRICE_MICRO: u64 = 400_000;

/// Input and output price of a model, in micro-dollars per million tokens.
pub open spec fn spec_model_price(model: Seq<char>) -> (u64, u64) {
    if model == "gemini-2.0-flash-lite"@ {
        (75_000u64, 300_000u64)
    } else if model == "gemini-2.0-flash"@ {
        (100_000u64, 400_000u64)
    } else if model == "gemini-2.5-flash-lite"@ {
        (100_000u64, 400_000u64)
    } else if model == "gemini-2.5-flash"@ {
        (300_000u64, 2_500_000u64)
    } else if model == "gemini-2.5-pro"@ {
        (1_250_000u64, 10_000_000u64)
    } else if model == "gemini-3-flash-preview"@ {
        (500_000u64, 3_000_000u64)
    } else if model == "gemini-3-pro-preview"@ {
        (2_000_000u64, 12_000_000u64)
    } else {
        (DEFAULT_INPUT_PRICE_MICRO, DEFAULT_OUTPUT_PRICE_MICRO)
    }
}

/// Looks a model name up in the price table; unknown models fall back to the
/// default price.
pub fn get_model_price(model: &str) -> (r: (u64, u64))
    ensures
        r == spec_model_price(model@),
        r.0 <= 12_000_000,
        r.1 <= 12_000_000,
{
    if str_eq(model, "gemini-2.0-flash-lite") {
        (75_000, 300_000)
    } else if str_eq(model, "gemini-2.0-flash") {
        (100_000, 400_000)
    } else if str_eq(model, "gemini-2.5-flash-lite") {
        (100_000, 400_000)
    } else if str_eq(model, "gemini-2.5-flash") {
        (300_000, 2_500_000)
    } else if str_eq(model, "gemini-2.5-pro") {
        (1_250_000, 10_000_000)
    } else if str_eq(model, "gemini-3-flash-preview") {
        (500_000, 3_000_000)
    } else if str_eq(model, "gemini-3-pro-preview") {
        (2_000_000, 12_000_000)
    } else {
        (DEFAULT_INPUT_PRICE_MICRO, DEFAULT_OUTPUT_PRICE_MICRO)
    }
}

/// The exact cost of a call in pico-dollars: each token costs its model
/// price (micro-dollars per million tokens) in pico-dollars.
pub open spec fn spec_cost_pico(model: Seq<char>, input_tokens: int, output_tokens: int) -> int {
    input_tokens * spec_model_price(model).0 + output_tokens * spec_model_price(model).1
}

/// Computes the cost of one call, in pico-dollars, by the documented linear
/// formula: tokens times the per-token price of the model, input and output
/// priced separately.
pub fn calculate_cost(model: &str, input_tokens: i64, output_tokens: i64) -> (cost: u128)
    requires
        input_tokens >= 0,
        output_tokens >= 0,
    ensures
        cost == spec_cost_pico(model@, input_tokens as int, output_tokens as int),
{
    let (input_price, output_price) = get_model_price(model);
    let in_part: u128 = input_tokens as u128 * input_price as u128;
    let out_part: u128 = output_tokens as u128 * output_price as u128;
    assert(in_part <= 0x7fff_ffff_ffff_ffff * 12_000_000 && out_part <= 0x7fff_ffff_ffff_ffff
        * 12_000_000) by (nonlinear_arith)
        requires
            in_part == input_tokens * input_price,
            out_part == output_tokens * output_price,
            0 <= input_tokens <= 0x7fff_ffff_ffff_ffff,
            0 <= output_tokens <= 0x7fff_ffff_ffff_ffff,
            input_price <= 12_000_000,
            output_price <= 12_000_000,
    ;
    in_part + out_part
}

} // verus!
