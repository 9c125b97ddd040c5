//! What goes to the license server and what comes back, and how an answer
//! is judged.  Sending and receiving are the application's part.

use vstd::prelude::*;

use crate::licensing::config::TRIAL_DAYS;
use crate::licensing::types::{LicenseError, Timestamp};
use crate::text::same_text;

verus! {

/// Error object returned by the server.
pub struct ApiError {
    pub code: String,
    pub message: String,
}

/// The HTTP status with which the server turns away a client that asks too
/// often.
pub const TOO_MANY_REQUESTS: u16 = 429;

/// Whether an answer with this HTTP status means that the client is rate
/// limited; such an answer is not read any further.
pub fn is_rate_limited(status: u16) -> (limited: bool)
    ensures
        limited == (status == TOO_MANY_REQUESTS),
{
    status == TOO_MANY_REQUESTS
}

fn message_of(error: &Option<ApiError>) -> (message: Option<String>)
    ensures
        match *error {
            Some(e) => message matches Some(m) && m@ == e.message@,
            None => message is None,
        },
{
    match error {
        Some(e) => Some(e.message.clone()),
        None => None,
    }
}

fn code_of(error: &Option<ApiError>) -> (code: Option<String>)
    ensures
        match *error {
            Some(e) => code matches Some(c) && c@ == e.code@,
            None => code is None,
        },
{
    match error {
        Some(e) => Some(e.code.clone()),
        None => None,
    }
}

// ---------------------------------------------------------------------------
// Trial init
// ---------------------------------------------------------------------------

/// Request to initialize a trial.
pub struct TrialInitRequest {
    pub device_id: String,
    pub platform: String,
    pub app_version: String,
}

/// Data returned on successful trial init.
pub struct TrialInitData {
    pub expires_at: Timestamp,
    pub days_remaining: i64,
}

/// Response from trial initialization.
pub struct TrialInitResponse {
    pub success: bool,
    pub data: Option<TrialInitData>,
    pub error: Option<ApiError>,
    pub timestamp: Option<String>,
    pub signature: Option<String>,
}

impl TrialInitResponse {
    /// Get the start of the trial: the length of a trial before its end.
    /// None where the answer names no end, or an end so early that its start
    /// cannot be told.
    pub fn trial_start(&self) -> (start: Option<Timestamp>)
        ensures
            start == match self.data {
                Some(d) => if d.expires_at.can_shift(-TRIAL_DAYS) {
                    Some(d.expires_at.shifted_by_days(-TRIAL_DAYS))
                } else {
                    None
                },
                None => None,
            },
    {
        match &self.data {
            Some(d) => d.expires_at.plus_days(-TRIAL_DAYS),
            None => None,
        }
    }

    /// Get the end of the trial.
    pub fn trial_expires(&self) -> (end: Option<Timestamp>)
        ensures
            end == match self.data {
                Some(d) => Some(d.expires_at),
                None => None,
            },
    {
        match &self.data {
            Some(d) => Some(d.expires_at),
            None => None,
        }
    }

    /// Get days remaining.
    pub fn days_remaining(&self) -> (days: Option<i64>)
        ensures
            days == match self.data {
                Some(d) => Some(d.days_remaining),
                None => None,
            },
    {
        match &self.data {
            Some(d) => Some(d.days_remaining),
            None => None,
        }
    }

    /// Get error message.
    pub fn error_message(&self) -> (message: Option<String>)
        ensures
            match self.error {
                Some(e) => message matches Some(m) && m@ == e.message@,
                None => message is None,
            },
    {
        message_of(&self.error)
    }

    /// Get error code.
    pub fn error_code(&self) -> (code: Option<String>)
        ensures
            match self.error {
                Some(e) => code matches Some(c) && c@ == e.code@,
                None => code is None,
            },
    {
        code_of(&self.error)
    }
}

/// Whether an answer reports a failure with an error to go by.
pub open spec fn failed_with(success: bool, error: Option<ApiError>) -> bool {
    !success && error is Some
}

/// `e` is a server error with the given message.
pub open spec fn is_server_error(e: LicenseError, message: Seq<char>) -> bool {
    e matches LicenseError::ServerError(m) && m@ == message
}

/// `e` is the error that a failed trial request with this error code and
/// message ends in.
pub open spec fn is_trial_init_error(e: LicenseError, code: Seq<char>, message: Seq<char>) -> bool {
    if code == "TRIAL_ALREADY_USED"@ {
        e is TrialAlreadyStarted
    } else if code == "RATE_LIMITED"@ {
        e is RateLimited
    } else {
        is_server_error(e, message)
    }
}

/// Judges the answer to a trial request.  An answer that reports no failure,
/// or a failure without an error, is handed on.  Else the error code decides:
/// the trial was used before, the client is rate limited, or the server's
/// message is passed on.
pub fn judge_trial_init(response: TrialInitResponse) -> (verdict: Result<TrialInitResponse, LicenseError>)
    ensures
        !failed_with(response.success, response.error) ==> verdict == Ok::<
            TrialInitResponse,
            LicenseError,
        >(response),
        failed_with(response.success, response.error) ==> (verdict matches Err(e) && is_trial_init_error(
            e,
            response.error->Some_0.code@,
            response.error->Some_0.message@,
        )),
{
    if !response.success {
        match &response.error {
            Some(error) => {
                if same_text(error.code.as_str(), "TRIAL_ALREADY_USED") {
                    return Err(LicenseError::TrialAlreadyStarted);
                } else if same_text(error.code.as_str(), "RATE_LIMITED") {
                    return Err(LicenseError::RateLimited);
                } else {
                    return Err(LicenseError::ServerError(error.message.clone()));
                }
            },
            None => {},
        }
    }
    Ok(response)
}

// ---------------------------------------------------------------------------
// Validate license
// ---------------------------------------------------------------------------

/// Request to validate a license.
pub struct ValidateRequest {
    pub license_key: String,
    pub device_id: String,
    pub platform: String,
    pub app_version: String,
}

/// Data returned on successful validation.
pub struct ValidateData {
    pub valid: bool,
    pub status: String,
    pub updates_expire: Option<Timestamp>,
    pub devices_used: u32,
    pub devices_max: u32,
}

/// Response from license validation.
pub struct ValidateResponse {
    pub success: bool,
    pub data: Option<ValidateData>,
    pub error: Option<ApiError>,
    pub timestamp: Option<String>,
    pub signature: Option<String>,
}

impl ValidateResponse {
    /// Whether the answer carries data that call the license valid.
    pub fn is_valid(&self) -> (valid: bool)
        ensures
            valid == match self.data {
                Some(d) => d.valid,
                None => false,
            },
    {
        match &self.data {
            Some(d) => d.valid,
            None => false,
        }
    }

    /// Get error message.
    pub fn error_message(&self) -> (message: Option<String>)
        ensures
            match self.error {
                Some(e) => message matches Some(m) && m@ == e.message@,
                None => message is None,
            },
    {
        message_of(&self.error)
    }

    /// Get error code.
    pub fn error_code(&self) -> (code: Option<String>)
        ensures
            match self.error {
                Some(e) => code matches Some(c) && c@ == e.code@,
                None => code is None,
            },
    {
        code_of(&self.error)
    }
}

/// `e` is the error that a failed validation with this error code and
/// message ends in.
pub open spec fn is_validate_error(e: LicenseError, code: Seq<char>, message: Seq<char>) -> bool {
    if code == "INVALID_LICENSE_KEY"@ {
        e is InvalidKey
    } else if code == "LICENSE_REVOKED"@ {
        e is LicenseRevoked
    } else if code == "RATE_LIMITED"@ {
        e is RateLimited
    } else {
        is_server_error(e, message)
    }
}

/// Judges the answer to a validation request: by its error code the key is
/// invalid, the license revoked or the client rate limited, else the
/// server's message is passed on.
pub fn judge_validate(response: ValidateResponse) -> (verdict: Result<ValidateResponse, LicenseError>)
    ensures
        !failed_with(response.success, response.error) ==> verdict == Ok::<
            ValidateResponse,
            LicenseError,
        >(response),
        failed_with(response.success, response.error) ==> (verdict matches Err(e) && is_validate_error(
            e,
            response.error->Some_0.code@,
            response.error->Some_0.message@,
        )),
{
    if !response.success {
        match &response.error {
            Some(error) => {
                if same_text(error.code.as_str(), "INVALID_LICENSE_KEY") {
                    return Err(LicenseError::InvalidKey);
                } else if same_text(error.code.as_str(), "LICENSE_REVOKED") {
                    return Err(LicenseError::LicenseRevoked);
                } else if same_text(error.code.as_str(), "RATE_LIMITED") {
                    return Err(LicenseError::RateLimited);
                } else {
                    return Err(LicenseError::ServerError(error.message.clone()));
                }
            },
            None => {},
        }
    }
    Ok(response)
}

// ---------------------------------------------------------------------------
// Activate license
// ---------------------------------------------------------------------------

/// Request to activate a license.
pub struct ActivateRequest {
    pub license_key: String,
    pub device_id: String,
    pub device_name: Option<String>,
    pub platform: String,
    pub app_version: String,
}

/// Data returned on successful activation.
pub struct ActivateData {
    pub license_key: String,
    pub updates_expire: Timestamp,
    pub devices_used: u32,
    pub devices_max: u32,
}

/// Response from license activation.
pub struct ActivateResponse {
    pub success: bool,
    pub data: Option<ActivateData>,
    pub error: Option<ApiError>,
    pub timestamp: Option<String>,
    pub signature: Option<String>,
}

impl ActivateResponse {
    /// Get error message.
    pub fn error_message(&self) -> (message: Option<String>)
        ensures
            match self.error {
                Some(e) => message matches Some(m) && m@ == e.message@,
                None => message is None,
            },
    {
        message_of(&self.error)
    }

    /// Get error code.
    pub fn error_code(&self) -> (code: Option<String>)
        ensures
            match self.error {
                Some(e) => code matches Some(c) && c@ == e.code@,
                None => code is None,
            },
    {
        code_of(&self.error)
    }
}

/// The number of devices reported when the server refuses one more.
pub const DEVICE_LIMIT: u32 = 3;

/// `e` is the error that a failed activation with this error code and
/// message ends in.
pub open spec fn is_activate_error(e: LicenseError, code: Seq<char>, message: Seq<char>) -> bool {
    if code == "INVALID_LICENSE_KEY"@ {
        e is InvalidKey
    } else if code == "LICENSE_REVOKED"@ {
        e is LicenseRevoked
    } else if code == "DEVICE_LIMIT_REACHED"@ {
        e == (LicenseError::DeviceLimitReached { used: DEVICE_LIMIT, max: DEVICE_LIMIT })
    } else if code == "RATE_LIMITED"@ {
        e is RateLimited
    } else {
        is_server_error(e, message)
    }
}

/// Judges the answer to an activation request: by its error code the key is
/// invalid, the license revoked, the device limit reached or the client rate
/// limited, else the server's message is passed on.
pub fn judge_activate(response: ActivateResponse) -> (verdict: Result<ActivateResponse, LicenseError>)
    ensures
        !failed_with(response.success, response.error) ==> verdict == Ok::<
            ActivateResponse,
            LicenseError,
        >(response),
        failed_with(response.success, response.error) ==> (verdict matches Err(e) && is_activate_error(
            e,
            response.error->Some_0.code@,
            response.error->Some_0.message@,
        )),
{
    if !response.success {
        match &response.error {
            Some(error) => {
                if same_text(error.code.as_str(), "INVALID_LICENSE_KEY") {
                    return Err(LicenseError::InvalidKey);
                } else if same_text(error.code.as_str(), "LICENSE_REVOKED") {
                    return Err(LicenseError::LicenseRevoked);
                } else if same_text(error.code.as_str(), "DEVICE_LIMIT_REACHED") {
                    return Err(LicenseError::DeviceLimitReached { used: DEVICE_LIMIT, max: DEVICE_LIMIT });
                } else if same_text(error.code.as_str(), "RATE_LIMITED") {
                    return Err(LicenseError::RateLimited);
                } else {
                    return Err(LicenseError::ServerError(error.message.clone()));
                }
            },
            None => {},
        }
    }
    Ok(response)
}

// ---------------------------------------------------------------------------
// Deactivate device
// ---------------------------------------------------------------------------

/// Request to deactivate a device.
pub struct DeactivateRequest {
    pub license_key: String,
    pub device_id: String,
}

/// Data returned on successful deactivation.
pub struct DeactivateData {
    pub devices_used: u32,
    pub devices_max: u32,
}

/// Response from device deactivation.
pub struct DeactivateResponse {
    pub success: bool,
    pub data: Option<DeactivateData>,
    pub error: Option<ApiError>,
    pub timestamp: Option<String>,
}

impl DeactivateResponse {
    /// Get error message.
    pub fn error_message(&self) -> (message: Option<String>)
        ensures
            match self.error {
                Some(e) => message matches Some(m) && m@ == e.message@,
                None => message is None,
            },
    {
        message_of(&self.error)
    }

    /// Get error code.
    pub fn error_code(&self) -> (code: Option<String>)
        ensures
            match self.error {
                Some(e) => code matches Some(c) && c@ == e.code@,
                None => code is None,
            },
    {
        code_of(&self.error)
    }
}

/// `e` is the error that a failed deactivation with this error code and
/// message ends in.
pub open spec fn is_deactivate_error(e: LicenseError, code: Seq<char>, message: Seq<char>) -> bool {
    if code == "INVALID_LICENSE_KEY"@ {
        e is InvalidKey
    } else if code == "DEVICE_NOT_FOUND"@ {
        is_server_error(e, "Device not found"@)
    } else {
        is_server_error(e, message)
    }
}

/// Judges the answer to a deactivation request: by its error code the key is
/// invalid or the device unknown, else the server's message is passed on.
pub fn judge_deactivate(response: DeactivateResponse) -> (verdict: Result<DeactivateResponse, LicenseError>)
    ensures
        !failed_with(response.success, response.error) ==> verdict == Ok::<
            DeactivateResponse,
            LicenseError,
        >(response),
        failed_with(response.success, response.error) ==> (verdict matches Err(e) && is_deactivate_error(
            e,
            response.error->Some_0.code@,
            response.error->Some_0.message@,
        )),
{
    if !response.success {
        match &response.error {
            Some(error) => {
                if same_text(error.code.as_str(), "INVALID_LICENSE_KEY") {
                    return Err(LicenseError::InvalidKey);
                } else if same_text(error.code.as_str(), "DEVICE_NOT_FOUND") {
                    return Err(LicenseError::ServerError(String::from_str("Device not found")));
                } else {
                    return Err(LicenseError::ServerError(error.message.clone()));
                }
            },
            None => {},
        }
    }
    Ok(response)
}

} // verus!
