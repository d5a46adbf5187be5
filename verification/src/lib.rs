//! A verified core for an LLM token-and-cost calculator.
//!
//! The library normalizes a remote model-pricing document, estimates token
//! counts for prompt and completion text, and derives per-call dollar costs
//! and request-volume projections. Dollar amounts are exact picodollar
//! (`10^-12` dollar) integers.

pub mod costs;
pub mod json;
pub mod models;
pub mod numerals;
pub mod pricing;
pub mod text;
pub mod tokens;
