//! The capability of a duration representation to share the textual
//! grammar: any type that can be read as the canonical (seconds,
//! nanoseconds) pair gains `parse` and `to_string` through the operations
//! of [`crate::durations`].

use vstd::prelude::*;

use crate::durations::{Duration, duration_as_string, parse_duration};
use crate::error::{Error, is_invalid_duration};
use crate::semantics::{spec_duration_as_string, spec_parse_duration};

verus! {

/// A representation that can be parsed from and formatted as duration
/// text.
pub trait DurationFormatter: Sized {
    /// The canonical reading of this value: whole seconds and sub-second
    /// nanoseconds.  A representation that leaves this default in place
    /// claims to read as the zero duration; every real representation
    /// overrides it.
    open spec fn duration_model(&self) -> (nat, nat) {
        (0nat, 0nat)
    }

    /// Parse duration text, clock form or shorthand form, into this
    /// representation.
    fn parse(interval: &str) -> (r: Result<Self, Error>)
        ensures
            match spec_parse_duration(interval@) {
                Some(p) => r matches Ok(v) && v.duration_model() == (p.0 as nat, p.1 as nat),
                None => r matches Err(e) && is_invalid_duration(e, interval@),
            },
    ;

    /// Render this value as canonical shorthand text.
    fn to_string(&self) -> (r: String)
        ensures
            r@ == spec_duration_as_string(self.duration_model().0, self.duration_model().1),
    ;
}

impl DurationFormatter for Duration {
    open spec fn duration_model(&self) -> (nat, nat) {
        (self.secs as nat, self.nanos as nat)
    }

    fn parse(interval: &str) -> (r: Result<Self, Error>) {
        parse_duration(interval)
    }

    fn to_string(&self) -> (r: String) {
        duration_as_string(self)
    }
}

} // verus!
