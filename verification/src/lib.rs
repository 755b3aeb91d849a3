//! A minimal N-dimensional array: a flat buffer of signed integers paired
//! with a shape (one extent per axis), with bounds-checked element lookup,
//! zero/fill/identity builders, and conversion from nested vectors.

pub mod array;
pub mod builders;
pub mod convert;
pub mod layout;

pub use array::QArray;
pub use builders::{full, identity, zeros};
pub use convert::ToQArray;
pub use layout::offset;
