//! Error kinds of the engine. Every kind maps to a well-defined HTTP status
//! and never terminates the process: a malformed request or a missing file
//! affects only that request.

use vstd::prelude::*;

verus! {

/// Failures of the authorization gate.
#[derive(Clone, Copy, PartialEq, Eq, Structural, Debug)]
pub enum AuthError {
    /// Neither device class was recognized from the headers.
    DeviceTypeUnrecognized,
    /// The presented shared-secret key is not in the valid key set.
    InvalidApiKey,
}

/// Failures of the timestamp codec.
#[derive(Clone, Copy, PartialEq, Eq, Structural, Debug)]
pub enum ParseError {
    /// The text does not hold a valid timestamp at the layout's offsets.
    MalformedTimestamp,
}

/// Failures of target resolution and firmware delivery.
#[derive(Clone, Copy, PartialEq, Eq, Structural, Debug)]
pub enum ResolutionError {
    /// No mapping-table entry matches the device identity.
    NoTargetMapping,
    /// The resolved target's build-marker artifact is missing or unreadable.
    MissingBuildMarker,
    /// The firmware image itself is missing although an update was decided.
    MissingFirmwareFile,
}

/// Failures of the device registry.
#[derive(Clone, Copy, PartialEq, Eq, Structural, Debug)]
pub enum RegistryError {
    /// No record with the given device identity exists.
    DeviceNotFound,
    /// The backing store could not be read.
    StoreUnreadable,
    /// The backing store could not be written.
    StoreUnwritable,
}

} // verus!
