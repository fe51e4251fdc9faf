//! A single-process router for discrete control events.
//!
//! A validated configuration ([`config::Config`]) names devices and
//! routes; the resolver ([`resolve::resolve`]) turns each enabled route
//! into at most one live [`pipeline::Pipeline`], isolating per-route
//! failures as diagnoses; each pipeline moves events from its source
//! address to its sink address through an ordered, short-circuiting
//! [`chain::FilterChain`], keeping running throughput counters that the
//! reporter ([`report`]) renders once per tick.

pub mod addr;
pub mod chain;
pub mod config;
pub mod filter;
pub mod jsonval;
pub mod pipeline;
pub mod report;
pub mod resolve;
