//! Parsing and formatting of human-readable durations.
//!
//! Two textual syntaxes are recognized: the colon-delimited clock form
//! `H:M:S` and the unit-suffix shorthand form such as `1w2d3h4m5s6ms7us8ns`.
//! A parsed duration is a pair of whole seconds and sub-second nanoseconds;
//! the canonical formatter renders it back as minimal shorthand text.

mod constants;
mod duration_formatter;
mod durations;
mod recognizer;

pub mod error;
pub mod grammar;
pub mod laws;
pub mod semantics;

pub use duration_formatter::DurationFormatter;
pub use durations::Duration;
pub use durations::duration_as_string;
pub use durations::parse_durations;
pub use durations::parse_duration;
pub use durations::parse_duration_hms;
pub use durations::parse_duration_shorthand;
pub use error::Error;

pub use constants::NANOSECONDS_PER_MICROSECOND;
pub use constants::NANOSECONDS_PER_MILLISECOND;
pub use constants::SECONDS_PER_DAY;
pub use constants::SECONDS_PER_HOUR;
pub use constants::SECONDS_PER_MINUTE;
pub use constants::SECONDS_PER_WEEK;
