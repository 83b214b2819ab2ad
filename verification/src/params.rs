//! Tunable search parameters.

use vstd::prelude::*;

verus! {

/// Length of the analysed segment when the caller names none, in seconds.
pub const DEFAULT_SEGMENT_DURATION_SECONDS: u32 = 10;

/// Parameters of one recognition request.
#[derive(Debug, Clone)]
pub struct SearchParams {
    /// Length of the segment that is cut from the middle of a recording, in seconds.
    pub segment_duration_seconds: u32,
}

impl SearchParams {
    /// Takes the given segment duration, or the default where none is given.
    pub fn new(segment_duration_seconds: Option<u32>) -> (params: Self)
        ensures
            params.segment_duration_seconds == match segment_duration_seconds {
                Some(seconds) => seconds,
                None => DEFAULT_SEGMENT_DURATION_SECONDS,
            },
    {
        match segment_duration_seconds {
            Some(seconds) => SearchParams { segment_duration_seconds: seconds },
            None => SearchParams { segment_duration_seconds: DEFAULT_SEGMENT_DURATION_SECONDS },
        }
    }
}

} // verus!
