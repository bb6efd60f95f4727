//! Distances and similarities between sparse records of ratings.
//!
//! A [`record::Record`] holds a value for each feature that an entity has
//! observed; a feature without a value was not observed, which is not the
//! same as a value of zero. Every metric compares two records on the
//! features both have observed, and is undefined where they share none.
//! A [`table::Table`] holds records under names; a [`rating::Rating`] is the
//! dense form of a record, one [`Score`] per position.
//!
//! The values are of any type with the operations of [`Real`]. What the
//! metrics denote is defined in [`metric`], and [`laws`] proves what follows
//! for types whose operations obey the usual algebra.

pub mod distance;
pub mod laws;
pub mod metric;
pub mod numeric;
pub mod rating;
pub mod record;
pub mod score;
pub mod table;

pub use distance::Distance;
pub use numeric::Real;
pub use score::Score;
