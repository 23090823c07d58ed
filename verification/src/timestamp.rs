use vstd::prelude::*;

verus! {

/// A normalised date-time: seconds since the Unix epoch together with the
/// offset (seconds east of UTC) the source text was written in.
///
/// Two timestamps name the same instant when their epoch seconds agree; the
/// offset only records how the instant was spelled.
#[derive(Clone, Copy, Debug, PartialEq, Eq, Structural)]
pub struct Timestamp {
    pub utc_seconds: i64,
    pub offset_seconds: i32,
}

impl Timestamp {
    /// Whether `self` and `other` denote the same instant, regardless of the
    /// offset either was written in.
    pub open spec fn spec_same_instant(self, other: Timestamp) -> bool {
        self.utc_seconds == other.utc_seconds
    }

    pub fn same_instant(&self, other: &Timestamp) -> (r: bool)
        ensures
            r == self.spec_same_instant(*other),
    {
        self.utc_seconds == other.utc_seconds
    }
}

} // verus!
