//! Running pace tables.
//!
//! A pace is a whole number of seconds per kilometre. From one pace this
//! library derives the row of a lookup table: the pace as a duration, the
//! speed in kilometres and in miles per hour, the pace per mile, and the
//! time needed for each of a fixed list of race distances. All arithmetic is
//! exact: every value is a quotient of integers, rounded once, to the nearest
//! unit, a tie going up. Distances are whole centimetres.
//!
//! - [`rounding`]: division rounded to the nearest integer.
//! - [`text`]: numbers, durations and speeds as text.
//! - [`conversion`]: the metrics of one pace.
//! - [`race`]: the race distances.
//! - [`table`]: the header and the rows over a domain of paces.
//! - [`sheet`]: the table as comma-separated text.

pub mod conversion;
pub mod race;
pub mod rounding;
pub mod sheet;
pub mod table;
pub mod text;
