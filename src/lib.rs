//! Discrete core of a fertilizer-blend optimiser: enumeration of candidate
//! bases, the layout of the augmented constraint matrix, the pivot rules of a
//! modified simplex method and the bookkeeping around nutrient deficits.
//!
//! All floating-point arithmetic lives with the caller; the decisions it
//! drives are made here on exact integer data and are proved correct.
pub mod basis;
pub mod combinator;
pub mod constraint;
pub mod float_format;
pub mod nutrients;
pub mod simplex;
