//! Line, word and byte counting over text, and the tabular report built from
//! the counts.

pub mod counter;
pub mod decimal;
pub mod flags;
pub mod format;
pub mod input;
