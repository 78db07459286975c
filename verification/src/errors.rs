use vstd::prelude::*;

verus! {

/// The logical field that a report line was missing, named so that a
/// malformed line is diagnosable from the error value alone.
#[derive(Clone, Copy, Debug, PartialEq, Eq, Structural)]
pub enum ReportField {
    VgName,
    VgSize,
    VgFree,
    PvCount,
    VgAttr,
    VgUuid,
    LvName,
    LvVgName,
    LvSize,
    LvAttr,
    LvSegType,
    LvUuid,
    LvStripes,
    LvDataStripes,
    LvParent,
}

/// Why a parse or a volume-creation request failed.
#[derive(Clone, Debug, PartialEq, Eq)]
pub enum LvmError {
    /// A numeric token was not a digit run, or did not fit its integer type.
    MalformedNumber,
    /// A report line had fewer delimited fields than its schema requires;
    /// the payload names the first missing field.
    TooFewFields(ReportField),
    /// A segment-range piece contained no colon, so no device token could
    /// be taken from it.
    DeviceTokenMissing,
    /// Percentage-based sizing was requested but is not supported.
    NotImplemented,
    /// The external creation command could not be started.
    LaunchFailed,
    /// The external creation command ran and reported failure; the payload
    /// carries its diagnostic text verbatim.
    CreationFailed(String),
}

} // verus!
