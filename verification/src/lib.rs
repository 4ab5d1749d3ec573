//! Multimodal freight route optimization.
//!
//! A directed transport network of ports, terminals and hubs is searched for
//! up to K candidate routes between an origin and a destination. Candidates
//! are screened against hard and soft constraints, ranked by Pareto
//! non-domination over four objectives (cost, time, carbon, labor) and
//! ordered by a weighted score.
//!
//! All quantities are fixed-point integers:
//! monetary values in ten-thousandths of a US dollar, carbon in milligrams,
//! scores and objective weights in ten-thousandths, durations in whole hours
//! and timestamps in hours since the Unix epoch.

pub mod arith;
pub mod modes;
pub mod text;
pub mod digraph;
pub mod graph;
pub mod constraints;
pub mod routes;
pub mod search;
pub mod pareto;
pub mod optimizer;
pub mod wire;
pub mod load;
