//! Text handling: validation, case normalisation and pattern rendering.

pub mod transform;
