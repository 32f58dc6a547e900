//! Satisfiability checking for Signal Temporal Logic formulas with a tableau.
pub mod interval;
pub mod formula;
pub mod transform;
pub mod parser;
pub mod node;
pub mod bounds;
pub mod tableau;
pub mod decompose;
pub mod rewrite;
pub mod store;
pub mod unsat_core;
pub mod shift;
pub mod simplify;
pub mod statistics;
pub mod config;
pub mod sat;
pub mod util;
pub mod signature;
pub mod display;
pub mod graph;

pub mod smt;
pub mod solver;
pub mod trace;
pub mod recursive;
