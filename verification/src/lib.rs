//! Small, self-contained building blocks: a median over signed integers, a
//! pig-latin word transformation, a counted decrement and a counting range.
//!
//! Every function carries a contract over a mathematical model of its
//! arguments (`Seq`, `int`), and the laws that relate them are stated as
//! proof functions next to the code they speak of. The module `rank` says
//! what a median is without arranging anything.

pub mod decrement;
pub mod error;
pub mod median;
pub mod pig_latin;
pub mod range;
pub mod rank;

pub use decrement::bounded_decrement;
pub use error::ErrorKind;
pub use median::{find_median, median, sort_ascending};
pub use pig_latin::convert_pig_latin;
pub use range::{inclusive_or_exclusive_range, CountingRange};
