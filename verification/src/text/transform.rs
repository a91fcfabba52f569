//! The error and result types shared by every renderer, and the renderers.

use vstd::prelude::*;
use vstd::string::StringExecFns;
use crate::text::transform::decimal::{decimal_digits, push_decimal};

pub mod buffer;
pub mod cw;
pub mod decimal;
pub mod geometry;
pub mod lines;
pub mod utils;

verus! {

/// Why a renderer refused its input.
#[derive(Debug, Clone, Copy, PartialEq, Eq, Structural)]
pub enum TransformError {
    /// The text holds `actual` characters, outside the inclusive range `min..=max`.
    InvalidLength { min: usize, max: usize, actual: usize },
}

impl TransformError {
    /// The text shown to whoever sent the input.
    pub open spec fn message(self) -> Seq<char> {
        match self {
            TransformError::InvalidLength { min, max, .. } => {
                "Text must contain from "@ + decimal_digits(min as nat) + " up to "@
                    + decimal_digits(max as nat) + " characters"@
            },
        }
    }

    /// Writes the message out.
    pub fn to_string(&self) -> (s: String)
        ensures
            s@ == self.message(),
    {
        match self {
            TransformError::InvalidLength { min, max, .. } => {
                let mut s = String::from_str("Text must contain from ");
                push_decimal(&mut s, *min);
                s.append(" up to ");
                push_decimal(&mut s, *max);
                s.append(" characters");
                s
            },
        }
    }
}

/// What every renderer returns.
pub type TransformResult<T> = Result<T, TransformError>;

} // verus!
