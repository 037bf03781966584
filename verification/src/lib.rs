//! Collects card-set data from a trading-card search service.
//!
//! The crate holds the decisions of a collection run and leaves every
//! effect (files, network, clock, sleeping) to its caller: a run is a state
//! machine that hands out one [`collector::Action`] at a time and takes
//! the outcome back as a [`collector::Event`].

pub mod codes;
pub mod collector;
pub mod config;
pub mod fetch;
pub mod pipeline;
pub mod report;
pub mod results;
pub mod text;
