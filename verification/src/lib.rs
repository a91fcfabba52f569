//! Deterministic renderers that turn a short word into a fixed-geometry,
//! multi-line text pattern, with every layout rule stated as a contract.

pub mod text;
