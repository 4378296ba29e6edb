use vstd::prelude::*;

verus! {

/// The ways a scaffolding operation can fail.
#[derive(Debug, PartialEq, Eq)]
pub enum ScaffoldError {
    /// No captured trace carries the requested response status.
    NoTraceForStatus { code: u32 },
    /// No anchor in the source matches the requested pattern.
    NotFound,
    /// More anchors match than the exactly-one policy allows.
    Ambiguous { count: usize },
    /// The captured message is not valid base64.
    InvalidBase64,
    /// The captured message does not start with a well-formed HTTP response head.
    InvalidHead,
    /// The captured message ends before its head is complete.
    PartialMessage,
    /// The body of the captured message is not valid UTF-8.
    InvalidUtf8,
    /// An edit names a line or a column that the text does not have.
    PositionOutOfRange,
}

} // verus!
