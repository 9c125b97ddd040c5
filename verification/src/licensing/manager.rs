//! The rules of license management: what becomes of the license state when
//! time passes, a trial starts, a license is activated or a device is
//! released.  The application loads and saves the state and talks to the
//! server; between those steps it calls the functions here.

use vstd::prelude::*;

use crate::licensing::api::{
    ActivateRequest, ActivateResponse, DeactivateRequest, TrialInitRequest, TrialInitResponse,
};
use crate::licensing::config::{get_platform, platform_of, TRIAL_DAYS};
use crate::licensing::device::get_device_id;
use crate::licensing::types::{
    clock_now, default_licensed_version, CachedValidation, LicenseError, LicenseSource, LicenseState,
    LicenseStatus, PlatformInfo, Timestamp,
};

verus! {

/// The version of the application.
pub const APP_VERSION: &'static str = "1.0.0";

/// Get the current app version.
pub fn get_app_version() -> (version: String)
    ensures
        version@ == APP_VERSION@,
{
    String::from_str(APP_VERSION)
}

// ---------------------------------------------------------------------------
// The passing of time
// ---------------------------------------------------------------------------

/// The status of a state at the instant `now`: a trial whose end has passed
/// has expired; every other status stays.
pub open spec fn status_at(state: LicenseState, now: Timestamp) -> LicenseStatus {
    if state.status == LicenseStatus::Trial && state.trial_expires is Some && now.instant()
        > state.trial_expires->Some_0.instant() {
        LicenseStatus::TrialExpired
    } else {
        state.status
    }
}

/// `after` is `before` with another status and nothing else changed.
pub open spec fn only_status_changed(before: LicenseState, after: LicenseState, status: LicenseStatus) -> bool {
    after == (LicenseState { status, ..before })
}

/// Update trial status based on the time `now`.
pub fn update_trial_status_at(state: &mut LicenseState, now: &Timestamp)
    ensures
        only_status_changed(*old(state), *final(state), status_at(*old(state), *now)),
{
    match state.status {
        LicenseStatus::Trial => {
            match state.trial_expires {
                Some(expires) => {
                    if now.is_after(&expires) {
                        state.status = LicenseStatus::TrialExpired;
                    }
                },
                None => {},
            }
        },
        _ => {},
    }
}

/// Update trial status based on current time.  Whatever the clock shows, only
/// the status can change, and only from a trial to an expired trial.
pub fn update_trial_status(state: &mut LicenseState)
    ensures
        exists|now: Timestamp| #[trigger]
            only_status_changed(*old(state), *final(state), status_at(*old(state), now)),
{
    let now = clock_now();
    update_trial_status_at(state, &now);
}

// ---------------------------------------------------------------------------
// The identity of the device
// ---------------------------------------------------------------------------

/// Whether the state still lacks a device identifier.
pub fn needs_identity(state: &LicenseState) -> (needed: bool)
    ensures
        needed == (state.device_id@.len() == 0),
{
    state.device_id.as_str().is_empty()
}

/// `e` says that no device identifier could be had, for the given reason.
pub open spec fn is_identity_failure(e: String, reason: Seq<char>) -> bool {
    e@ == "Failed to get device ID: "@ + reason
}

/// Gives a state that lacks a device identifier the one that was obtained,
/// and the platform that goes with the operating system `os`.  A state that
/// has an identifier keeps it.  Where none could be obtained, the state stays
/// as it is and the failure is reported.
pub fn adopt_identity(state: &mut LicenseState, device_id: Result<String, String>, os: &str) -> (done: Result<
    (),
    String,
>)
    ensures
        old(state).device_id@.len() > 0 ==> done is Ok && *final(state) == *old(state),
        old(state).device_id@.len() == 0 ==> match device_id {
            Ok(id) => {
                &&& done is Ok
                &&& final(state).platform@ == platform_of(os@)
                &&& *final(state) == (LicenseState {
                    device_id: id,
                    platform: final(state).platform,
                    ..*old(state)
                })
            },
            Err(reason) => {
                &&& done matches Err(e)
                &&& is_identity_failure(e, reason@)
                &&& *final(state) == *old(state)
            },
        },
{
    if !needs_identity(state) {
        return Ok(());
    }
    match device_id {
        Ok(id) => {
            state.device_id = id;
            state.platform = String::from_str(get_platform(os));
            Ok(())
        },
        Err(reason) => Err(String::from_str("Failed to get device ID: ").concat(reason.as_str())),
    }
}

/// Get platform information (device ID, platform, version): the device
/// identifier of the state or, where it has none, a fresh one.
pub fn get_platform_info(state: &LicenseState, os: &str, is_app_store: bool) -> (info: Result<
    PlatformInfo,
    String,
>)
    ensures
        info matches Ok(p) && {
            &&& p.platform@ == platform_of(os@)
            &&& p.app_version@ == APP_VERSION@
            &&& p.is_app_store == is_app_store
            &&& state.device_id@.len() > 0 ==> p.device_id@ == state.device_id@
            &&& p.device_id@.len() > 0
        },
{
    let device_id = if needs_identity(state) {
        match get_device_id() {
            Ok(id) => id,
            Err(reason) => {
                return Err(String::from_str("Failed to get device ID: ").concat(reason.as_str()));
            },
        }
    } else {
        state.device_id.clone()
    };
    Ok(
        PlatformInfo {
            platform: String::from_str(get_platform(os)),
            device_id,
            app_version: get_app_version(),
            is_app_store,
        },
    )
}

// ---------------------------------------------------------------------------
// Starting a trial
// ---------------------------------------------------------------------------

/// Whether a trial was started on this device before.
pub fn trial_was_started(state: &LicenseState) -> (started: bool)
    ensures
        started == state.trial_start is Some,
{
    state.trial_start.is_some()
}

/// The request that registers a trial for the device of the state.
pub fn trial_request(state: &LicenseState) -> (request: TrialInitRequest)
    ensures
        request.device_id@ == state.device_id@,
        request.platform@ == state.platform@,
        request.app_version@ == APP_VERSION@,
{
    TrialInitRequest {
        device_id: state.device_id.clone(),
        platform: state.platform.clone(),
        app_version: get_app_version(),
    }
}

/// The words with which a second trial is refused.
pub open spec fn trial_refusal() -> Seq<char> {
    "A trial has already been started on this device"@
}

/// `after` is `before` with a trial running from `start` to `end`.
pub open spec fn trial_begun(before: LicenseState, after: LicenseState, start: Timestamp, end: Timestamp) -> bool {
    after == (LicenseState {
        status: LicenseStatus::Trial,
        trial_start: Some(start),
        trial_expires: Some(end),
        ..before
    })
}

/// Whether the dates of a trial can be told: the end of a local trial from
/// `now`, and the start of a trial whose end the server names.
pub open spec fn trial_dates_in_range(outcome: Result<TrialInitResponse, LicenseError>, now: Timestamp) -> bool {
    &&& now.can_shift(TRIAL_DAYS as int)
    &&& outcome matches Ok(response) ==> (response.data matches Some(d) ==> d.expires_at.can_shift(
        -TRIAL_DAYS,
    ))
}

/// Takes in what came of asking the server for a trial, at the instant
/// `now`.  Where the server granted it, the trial runs on the server's dates,
/// or from now for its usual length where the server named none.  Where the
/// server says that the trial was used before, the state stays and the
/// refusal is reported.  On any other failure the trial starts locally, from
/// now for its usual length.
pub fn apply_trial_outcome(
    state: &mut LicenseState,
    outcome: Result<TrialInitResponse, LicenseError>,
    now: &Timestamp,
) -> (done: Result<(), String>)
    requires
        trial_dates_in_range(outcome, *now),
    ensures
        match outcome {
            Ok(response) => {
                &&& done is Ok
                &&& match response.data {
                    Some(d) => trial_begun(
                        *old(state),
                        *final(state),
                        d.expires_at.shifted_by_days(-TRIAL_DAYS),
                        d.expires_at,
                    ),
                    None => trial_begun(
                        *old(state),
                        *final(state),
                        *now,
                        now.shifted_by_days(TRIAL_DAYS as int),
                    ),
                }
            },
            Err(LicenseError::TrialAlreadyStarted) => {
                &&& done matches Err(e)
                &&& e@ == trial_refusal()
                &&& *final(state) == *old(state)
            },
            Err(_) => {
                &&& done is Ok
                &&& trial_begun(*old(state), *final(state), *now, now.shifted_by_days(TRIAL_DAYS as int))
            },
        },
{
    let local_end = match now.plus_days(TRIAL_DAYS) {
        Some(end) => end,
        None => *now,
    };
    match outcome {
        Ok(response) => {
            state.trial_start = match response.trial_start() {
                Some(start) => Some(start),
                None => Some(*now),
            };
            state.trial_expires = match response.trial_expires() {
                Some(end) => Some(end),
                None => Some(local_end),
            };
            state.status = LicenseStatus::Trial;
            Ok(())
        },
        Err(LicenseError::TrialAlreadyStarted) => Err(
            String::from_str("A trial has already been started on this device"),
        ),
        Err(_) => {
            state.trial_start = Some(*now);
            state.trial_expires = Some(local_end);
            state.status = LicenseStatus::Trial;
            Ok(())
        },
    }
}

// ---------------------------------------------------------------------------
// Activating a license
// ---------------------------------------------------------------------------

/// The request that activates `license_key` for the device of the state.
pub fn activation_request(state: &LicenseState, license_key: &String) -> (request: ActivateRequest)
    ensures
        request.license_key@ == license_key@,
        request.device_id@ == state.device_id@,
        request.device_name is None,
        request.platform@ == state.platform@,
        request.app_version@ == APP_VERSION@,
{
    ActivateRequest {
        license_key: license_key.clone(),
        device_id: state.device_id.clone(),
        device_name: None,
        platform: state.platform.clone(),
        app_version: get_app_version(),
    }
}

/// `cached` records a successful activation at the instant `now`.
pub open spec fn is_activation_record(
    cached: CachedValidation,
    devices_used: u32,
    devices_max: u32,
    signature: Option<String>,
    now: Timestamp,
) -> bool {
    &&& cached.valid
    &&& cached.status@ == "licensed"@
    &&& cached.licensed_version == 1
    &&& cached.devices_used == devices_used
    &&& cached.devices_max == devices_max
    &&& cached.signature@ == match signature {
        Some(s) => s@,
        None => Seq::<char>::empty(),
    }
    &&& cached.cached_at == now
}

/// Takes in the server's answer to an activation, at the instant `now`.  An
/// answer with data makes the state licensed by key, with the key, the
/// instant and a record of the answer; an answer without data changes
/// nothing.
pub fn apply_activation(
    state: &mut LicenseState,
    license_key: String,
    response: ActivateResponse,
    now: &Timestamp,
)
    ensures
        match response.data {
            Some(data) => {
                &&& final(state).cached_validation matches Some(cached)
                &&& is_activation_record(cached, data.devices_used, data.devices_max, response.signature, *now)
                &&& *final(state) == (LicenseState {
                    status: LicenseStatus::Licensed,
                    source: Some(LicenseSource::LicenseKey),
                    license_key: Some(license_key),
                    license_activated: Some(*now),
                    cached_validation: final(state).cached_validation,
                    ..*old(state)
                })
            },
            None => *final(state) == *old(state),
        },
{
    match response.data {
        Some(data) => {
            state.status = LicenseStatus::Licensed;
            state.source = Some(LicenseSource::LicenseKey);
            state.license_key = Some(license_key);
            state.license_activated = Some(*now);
            let signature = match response.signature {
                Some(s) => s,
                None => String::new(),
            };
            state.cached_validation = Some(
                CachedValidation {
                    valid: true,
                    status: String::from_str("licensed"),
                    licensed_version: default_licensed_version(),
                    devices_used: data.devices_used,
                    devices_max: data.devices_max,
                    signature,
                    cached_at: *now,
                },
            );
        },
        None => {},
    }
}

// ---------------------------------------------------------------------------
// Releasing a device
// ---------------------------------------------------------------------------

/// The words with which a release without a license key is refused.
pub open spec fn no_key_refusal() -> Seq<char> {
    "No license key found"@
}

/// The request that releases the device of the state from its license.  It
/// takes a license key to release a device.
pub fn deactivation_request(state: &LicenseState) -> (request: Result<DeactivateRequest, String>)
    ensures
        match state.license_key {
            Some(key) => request matches Ok(r) && r.license_key@ == key@ && r.device_id@
                == state.device_id@,
            None => request matches Err(e) && e@ == no_key_refusal(),
        },
{
    match &state.license_key {
        Some(key) => Ok(DeactivateRequest { license_key: key.clone(), device_id: state.device_id.clone() }),
        None => Err(String::from_str("No license key found")),
    }
}

/// The status that is left once the license is gone, at the instant `now`:
/// a trial that was started and has an end is running or expired as that end
/// lies; anything else is no license at all.
pub open spec fn status_without_license(state: LicenseState, now: Timestamp) -> LicenseStatus {
    if state.trial_start is Some && state.trial_expires is Some {
        if now.instant() > state.trial_expires->Some_0.instant() {
            LicenseStatus::TrialExpired
        } else {
            LicenseStatus::Trial
        }
    } else {
        LicenseStatus::Unlicensed
    }
}

/// Clears the license from the state after the server released the device,
/// at the instant `now`.  The device identifier and the trial dates stay.
pub fn apply_deactivation(state: &mut LicenseState, now: &Timestamp)
    ensures
        *final(state) == (LicenseState {
            status: status_without_license(*old(state), *now),
            source: None,
            license_key: None,
            license_activated: None,
            cached_validation: None,
            ..*old(state)
        }),
{
    let status = match (state.trial_start, state.trial_expires) {
        (Some(_), Some(expires)) => {
            if now.is_after(&expires) {
                LicenseStatus::TrialExpired
            } else {
                LicenseStatus::Trial
            }
        },
        _ => LicenseStatus::Unlicensed,
    };
    state.status = status;
    state.source = None;
    state.license_key = None;
    state.license_activated = None;
    state.cached_validation = None;
}

} // verus!
