//! Core of a currency-conversion aggregator: a country-to-currency-code
//! cache, a single-slot time-bounded exchange-rate snapshot cache, and the
//! orchestrator that combines them into all-or-nothing batch conversions.
//!
//! Network access is injected through capability traits
//! ([`country::CountryResolver`], [`exchange::RateFetcher`]); the caching and
//! orchestration rules themselves are verified.

pub mod assoc;
pub mod country;
pub mod exchange;
pub mod service;
pub mod text;
