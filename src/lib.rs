//! A fixed-capacity signed decimal number: up to 38 significant digits held in
//! a 128-bit magnitude, scaled by a power of ten, with exact arithmetic,
//! ordering, parsing and canonical text.
pub mod magnitude;
pub mod decimal;
pub mod text;
pub mod calculation;
pub mod laws;

pub use calculation::calculation;
pub use decimal::{
    Decimal, DecimalComparison, DecimalError, DecimalParts, DecimalPrecision, DecimalScale,
    DecimalSign,
};
