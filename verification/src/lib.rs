//! A profile aggregator: ingests sampled call stacks and incrementally
//! builds a deduplicated profile object graph (strings, functions,
//! locations, and samples referenced by dense integer IDs).

pub mod laws;
pub mod lemmas;
pub mod model;
pub mod profile;
