//! Minimum adder-cost tables for single-constant multiplication.
//!
//! For every odd integer up to a configurable bound, a breadth-first search
//! over signed adder/subtractor/cascade/leapfrog topologies computes the
//! minimum number of add/subtract primitives needed to realize that constant
//! from 1 using free power-of-two shifts, together with realizing graphs.
//! The tables are serialized into two compact artifacts (bit-packed 3-bit
//! costs, and an LZ4-compressed varint stream of graph records) which the
//! query side decodes.

pub mod artifact;
pub mod bitpack;
pub mod codec;
pub mod driver;
pub mod errors;
pub mod fmt;
pub mod graph;
pub mod num;
pub mod query;
pub mod search;
pub mod varint;
