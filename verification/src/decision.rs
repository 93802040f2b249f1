//! The update decision and the request flows built from it.
//!
//! `decide` compares the device's claimed build time against the resolved
//! target's build time as points in time: serve an update exactly when the
//! claimed time strictly precedes the target's, ties count as up to date.
//!
//! The update negotiation runs in two stages around the caller's file reads:
//! [`plan_update`] takes the header set and the texts of the API-key file and
//! the mapping table, and yields the decoded claimed timestamp and the
//! target's base path; the caller then reads the target's build marker and
//! [`finish_update`] yields the action. Each error carries the HTTP status
//! the response maps it to.

use vstd::prelude::*;

use crate::auth::{authorize, spec_authorize};
use crate::codec::{decode, request_layout, spec_decode, spec_request_layout};
use crate::errors::{AuthError, ParseError, RegistryError, ResolutionError};
use crate::headers::Headers;
use crate::resolve::{resolve, spec_resolve};
use crate::timestamp::FirmwareTimestamp;

verus! {

/// The outcome of comparing claimed and target build times.
#[derive(Clone, Copy, PartialEq, Eq, Structural, Debug)]
pub enum UpdateAction {
    /// The claimed build strictly precedes the target's: serve the image.
    ServeUpdate,
    /// The claimed build is at or past the target's: nothing to send.
    UpToDate,
}

/// The decision rule: serve an update exactly when the claimed build time
/// strictly precedes the target's build time.
pub open spec fn spec_decide(claimed: FirmwareTimestamp, target: FirmwareTimestamp) -> UpdateAction {
    if claimed.instant() < target.instant() {
        UpdateAction::ServeUpdate
    } else {
        UpdateAction::UpToDate
    }
}

/// Compares the claimed build time against the target's build time as points
/// in time, never as strings.
pub fn decide(claimed: &FirmwareTimestamp, target: &FirmwareTimestamp) -> (r: UpdateAction)
    requires
        claimed.wf(),
        target.wf(),
    ensures
        r == spec_decide(*claimed, *target),
{
    if claimed.precedes(target) {
        UpdateAction::ServeUpdate
    } else {
        UpdateAction::UpToDate
    }
}

/// Equal instants count as up to date: the decision never serves an update
/// to a device whose claimed build time equals the target's.
pub proof fn lemma_equal_instant_up_to_date(a: FirmwareTimestamp, b: FirmwareTimestamp)
    ensures
        a.instant() == b.instant() ==> spec_decide(a, b) == UpdateAction::UpToDate,
        spec_decide(a, b) == UpdateAction::ServeUpdate ==> a.instant() != b.instant(),
{
}

/// Any failure of the update-negotiation path.
#[derive(Clone, Copy, PartialEq, Eq, Structural, Debug)]
pub enum OtaError {
    Auth(AuthError),
    Parse(ParseError),
    Resolution(ResolutionError),
}

/// What the first stage of the negotiation yields: the device identity, its
/// decoded claimed build time, and the target's base path.
#[derive(Debug)]
pub struct UpdatePlan {
    pub device_id: String,
    pub claimed: FirmwareTimestamp,
    pub target_path: String,
}

/// What planning an update yields from the header set and the texts of the
/// API-key file and the mapping table: gate failures first, then a malformed
/// claimed timestamp, then a missing target mapping.
pub open spec fn spec_plan_update(h: Headers, keys_file: Seq<char>, table: Seq<char>) -> Result<
    (Seq<char>, FirmwareTimestamp, Seq<char>),
    OtaError,
> {
    match spec_authorize(h, keys_file) {
        Err(e) => Err(OtaError::Auth(e)),
        Ok((mac, version)) => match spec_decode(version, spec_request_layout()) {
            None => Err(OtaError::Parse(ParseError::MalformedTimestamp)),
            Some(t) => match spec_resolve(table, mac) {
                None => Err(OtaError::Resolution(ResolutionError::NoTargetMapping)),
                Some(path) => Ok((mac, t, path)),
            },
        },
    }
}

/// The first stage of update negotiation: authorize the request, decode the
/// claimed version's timestamp, and resolve the device's target image path.
/// The caller reads the two files and passes their contents in.
pub fn plan_update(headers: &Headers, keys_file: &str, table: &str) -> (r: Result<
    UpdatePlan,
    OtaError,
>)
    ensures
        match r {
            Ok(plan) => spec_plan_update(*headers, keys_file@, table@) == Ok::<_, OtaError>(
                (plan.device_id@, plan.claimed, plan.target_path@),
            ) && plan.claimed.wf(),
            Err(e) => spec_plan_update(*headers, keys_file@, table@) == Err::<
                (Seq<char>, FirmwareTimestamp, Seq<char>),
                _,
            >(e),
        },
{
    let (mac, version) = match authorize(headers, keys_file) {
        Ok(ok) => ok,
        Err(e) => {
            return Err(OtaError::Auth(e));
        },
    };
    let layout = request_layout();
    let claimed = match decode(version.as_str(), &layout) {
        Ok(t) => t,
        Err(e) => {
            return Err(OtaError::Parse(e));
        },
    };
    let target_path = match resolve(table, mac.as_str()) {
        Ok(p) => p,
        Err(e) => {
            return Err(OtaError::Resolution(e));
        },
    };
    Ok(UpdatePlan { device_id: mac, claimed, target_path })
}

/// The second stage: decode the target's build marker and decide. The caller
/// reads the marker file of the planned target path and hands its text in; a
/// marker that does not decode is a malformed timestamp.
pub fn finish_update(claimed: &FirmwareTimestamp, marker_file: &str) -> (r: Result<
    UpdateAction,
    OtaError,
>)
    requires
        claimed.wf(),
    ensures
        match r {
            Ok(a) => {
                &&& spec_decode(
                    crate::codec::spec_marker_text(marker_file@),
                    crate::codec::spec_artifact_layout(),
                ) matches Some(target)
                &&& a == spec_decide(*claimed, target)
            },
            Err(e) => spec_decode(
                crate::codec::spec_marker_text(marker_file@),
                crate::codec::spec_artifact_layout(),
            ) is None && e == OtaError::Parse(ParseError::MalformedTimestamp),
        },
{
    match crate::codec::decode_build_marker(marker_file) {
        Ok(target) => Ok(decide(claimed, &target)),
        Err(e) => Err(OtaError::Parse(e)),
    }
}

/// The HTTP status an error maps to: unrecognized device class is forbidden,
/// a bad key is unauthorized, and everything the server fails to parse,
/// resolve or read is a server error. No error terminates the process.
pub open spec fn spec_status_for_error(e: OtaError) -> u16 {
    match e {
        OtaError::Auth(AuthError::DeviceTypeUnrecognized) => 403,
        OtaError::Auth(AuthError::InvalidApiKey) => 401,
        OtaError::Parse(_) => 500,
        OtaError::Resolution(_) => 500,
    }
}

/// Executable form of [`spec_status_for_error`].
pub fn status_for_error(e: &OtaError) -> (s: u16)
    ensures
        s == spec_status_for_error(*e),
{
    match e {
        OtaError::Auth(AuthError::DeviceTypeUnrecognized) => 403,
        OtaError::Auth(AuthError::InvalidApiKey) => 401,
        OtaError::Parse(_) => 500,
        OtaError::Resolution(_) => 500,
    }
}

/// The HTTP status a decision maps to: success with the image body for a
/// serve, not-modified with no body when up to date.
pub open spec fn spec_status_for_action(a: UpdateAction) -> u16 {
    match a {
        UpdateAction::ServeUpdate => 200,
        UpdateAction::UpToDate => 304,
    }
}

/// Executable form of [`spec_status_for_action`].
pub fn status_for_action(a: &UpdateAction) -> (s: u16)
    ensures
        s == spec_status_for_action(*a),
{
    match a {
        UpdateAction::ServeUpdate => 200,
        UpdateAction::UpToDate => 304,
    }
}

/// The HTTP status a registry failure maps to: a server error in every case.
pub open spec fn spec_status_for_registry_error(e: RegistryError) -> u16 {
    match e {
        RegistryError::DeviceNotFound => 500,
        RegistryError::StoreUnreadable => 500,
        RegistryError::StoreUnwritable => 500,
    }
}

/// Executable form of [`spec_status_for_registry_error`].
pub fn status_for_registry_error(e: &RegistryError) -> (s: u16)
    ensures
        s == spec_status_for_registry_error(*e),
{
    500
}

} // verus!
