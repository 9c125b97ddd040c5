//! The license state and the values around it.

use vstd::prelude::*;

use crate::text::decimal;
use crate::text::decimal_string;

verus! {

/// Current license status.
#[derive(Debug, Clone, Copy, PartialEq, Eq, Structural)]
pub enum LicenseStatus {
    /// No license, no trial started.
    Unlicensed,
    /// In active trial period.
    Trial,
    /// Trial has expired.
    TrialExpired,
    /// Valid perpetual license.
    Licensed,
    /// App version exceeds licensed version.
    LicensedUpgradeRequired,
    /// License revoked or invalid.
    Invalid,
    /// Offline too long, needs validation.
    GracePeriod,
}

impl Default for LicenseStatus {
    fn default() -> (status: Self)
        ensures
            status == LicenseStatus::Unlicensed,
    {
        LicenseStatus::Unlicensed
    }
}

/// Source of the license.
#[derive(Debug, Clone, Copy, PartialEq, Eq, Structural)]
pub enum LicenseSource {
    /// Activated via a license key (web purchase).
    LicenseKey,
    /// Purchased via the Apple App Store.
    AppleIap,
    /// Purchased via the Microsoft Store.
    MicrosoftStore,
}

/// An instant in UTC: whole seconds since the start of 1970 and the
/// nanoseconds into that second.
#[derive(Debug, Clone, Copy, PartialEq, Eq, Structural)]
pub struct Timestamp {
    pub secs: i64,
    pub nanos: u32,
}

impl Timestamp {
    /// The instant in nanoseconds since the start of 1970.
    pub open spec fn instant(self) -> int {
        self.secs as int * 1_000_000_000 + self.nanos as int
    }

    fn nanoseconds(&self) -> (total: i128)
        ensures
            total == self.instant(),
    {
        self.secs as i128 * 1_000_000_000 + self.nanos as i128
    }

    /// Whether `self` is a later instant than `other`.
    pub fn is_after(&self, other: &Timestamp) -> (later: bool)
        ensures
            later == (self.instant() > other.instant()),
    {
        self.nanoseconds() > other.nanoseconds()
    }

    /// The whole days from `earlier` to `self`, and zero if `self` is not
    /// later.
    pub open spec fn days_since(self, earlier: Timestamp) -> int {
        if self.instant() > earlier.instant() {
            (self.instant() - earlier.instant()) / 86_400_000_000_000
        } else {
            0
        }
    }

    /// Counts the whole days from `earlier` until `self`; there are none
    /// where `self` is not the later instant.
    pub fn whole_days_since(&self, earlier: &Timestamp) -> (days: i64)
        ensures
            days == self.days_since(*earlier),
            days >= 0,
    {
        if !self.is_after(earlier) {
            return 0;
        }
        let span: i128 = self.nanoseconds() - earlier.nanoseconds();
        let days = span / 86_400_000_000_000;
        days as i64
    }

    /// The instant `days` days after `self`.
    pub open spec fn shifted_by_days(self, days: int) -> Timestamp {
        Timestamp { secs: (self.secs + days * 86_400) as i64, nanos: self.nanos }
    }

    /// Whether the instant `days` days from `self` can be told in seconds.
    pub open spec fn can_shift(self, days: int) -> bool {
        i64::MIN <= self.secs + days * 86_400 <= i64::MAX
    }

    /// The instant `days` days after `self` (before it, where `days` is
    /// negative); `None` where the seconds leave the range of the clock.
    pub fn plus_days(&self, days: i64) -> (shifted: Option<Timestamp>)
        ensures
            shifted is Some <==> self.can_shift(days as int),
            shifted matches Some(t) ==> t == self.shifted_by_days(days as int),
    {
        let secs: i128 = self.secs as i128 + days as i128 * 86_400;
        if secs < i64::MIN as i128 || secs > i64::MAX as i128 {
            None
        } else {
            Some(Timestamp { secs: secs as i64, nanos: self.nanos })
        }
    }
}

/// Reads the current time with `chrono::Utc::now` and takes it apart with
/// `DateTime::timestamp` and `DateTime::timestamp_subsec_nanos`.  Nothing is
/// claimed of the instant that comes back.
#[verifier::external_body]
pub(crate) fn clock_now() -> (now: Timestamp) {
    let now = chrono::Utc::now();
    Timestamp { secs: now.timestamp(), nanos: now.timestamp_subsec_nanos() }
}

/// Cached validation from server (for offline use).
pub struct CachedValidation {
    pub valid: bool,
    pub status: String,
    pub licensed_version: u32,
    pub devices_used: u32,
    pub devices_max: u32,
    pub signature: String,
    pub cached_at: Timestamp,
}

/// The major version that a license covers where the server names none.
pub fn default_licensed_version() -> (version: u32)
    ensures
        version == 1,
{
    1
}

/// Complete license state stored locally.
pub struct LicenseState {
    pub status: LicenseStatus,
    pub source: Option<LicenseSource>,
    pub license_key: Option<String>,
    pub device_id: String,
    pub platform: String,
    pub trial_start: Option<Timestamp>,
    pub trial_expires: Option<Timestamp>,
    pub license_activated: Option<Timestamp>,
    pub licensed_version: Option<u32>,
    pub last_validated: Option<Timestamp>,
    pub cached_validation: Option<CachedValidation>,
    pub iap_transaction_id: Option<String>,
    pub iap_original_transaction_id: Option<String>,
}

impl Default for LicenseState {
    fn default() -> (state: Self)
        ensures
            state.status == LicenseStatus::Unlicensed,
            state.source is None,
            state.license_key is None,
            state.device_id@.len() == 0,
            state.platform@.len() == 0,
            state.trial_start is None,
            state.trial_expires is None,
            state.license_activated is None,
            state.licensed_version is None,
            state.last_validated is None,
            state.cached_validation is None,
            state.iap_transaction_id is None,
            state.iap_original_transaction_id is None,
    {
        LicenseState {
            status: LicenseStatus::Unlicensed,
            source: None,
            license_key: None,
            device_id: String::new(),
            platform: String::new(),
            trial_start: None,
            trial_expires: None,
            license_activated: None,
            licensed_version: None,
            last_validated: None,
            cached_validation: None,
            iap_transaction_id: None,
            iap_original_transaction_id: None,
        }
    }
}

fn copy_text(text: &Option<String>) -> (copy: Option<String>)
    ensures
        copy == *text,
{
    match text {
        Some(t) => Some(t.clone()),
        None => None,
    }
}

impl CachedValidation {
    /// A copy of the cached validation.
    pub fn duplicate(&self) -> (copy: CachedValidation)
        ensures
            copy == *self,
    {
        CachedValidation {
            valid: self.valid,
            status: self.status.clone(),
            licensed_version: self.licensed_version,
            devices_used: self.devices_used,
            devices_max: self.devices_max,
            signature: self.signature.clone(),
            cached_at: self.cached_at,
        }
    }
}

impl LicenseState {
    /// A copy of the state.
    pub fn duplicate(&self) -> (copy: LicenseState)
        ensures
            copy == *self,
    {
        let cached_validation = match &self.cached_validation {
            Some(v) => Some(v.duplicate()),
            None => None,
        };
        LicenseState {
            status: self.status,
            source: self.source,
            license_key: copy_text(&self.license_key),
            device_id: self.device_id.clone(),
            platform: self.platform.clone(),
            trial_start: self.trial_start,
            trial_expires: self.trial_expires,
            license_activated: self.license_activated,
            licensed_version: self.licensed_version,
            last_validated: self.last_validated,
            cached_validation,
            iap_transaction_id: copy_text(&self.iap_transaction_id),
            iap_original_transaction_id: copy_text(&self.iap_original_transaction_id),
        }
    }

    /// The days left of the trial at the instant `now`: none outside a trial
    /// or where the trial has no end, else the whole days until the end, and
    /// zero once it has passed.
    pub open spec fn trial_days_left(&self, now: Timestamp) -> Option<i64> {
        if self.status != LicenseStatus::Trial {
            None
        } else {
            match self.trial_expires {
                Some(expires) => Some(expires.days_since(now) as i64),
                None => None,
            }
        }
    }

    /// Get days remaining in trial at the instant `now` (`None` if not in
    /// trial).
    pub fn trial_days_remaining_at(&self, now: &Timestamp) -> (days: Option<i64>)
        ensures
            days == self.trial_days_left(*now),
    {
        match self.status {
            LicenseStatus::Trial => {},
            _ => {
                return None;
            },
        }
        match self.trial_expires {
            Some(expires) => Some(expires.whole_days_since(now)),
            None => None,
        }
    }

    /// Get days remaining in trial by the current time (`None` if not in
    /// trial).  Whatever the clock shows, the days are those left at some
    /// instant.
    pub fn trial_days_remaining(&self) -> (days: Option<i64>)
        ensures
            exists|now: Timestamp| days == #[trigger] self.trial_days_left(now),
    {
        let now = clock_now();
        self.trial_days_remaining_at(&now)
    }

    /// Whether the status lets the app be used: in a trial, licensed, or
    /// licensed for an earlier version.
    pub open spec fn usable(&self) -> bool {
        self.status == LicenseStatus::Trial || self.status == LicenseStatus::Licensed || self.status
            == LicenseStatus::LicensedUpgradeRequired
    }

    /// Check if the user can use the app (trial active or licensed).  A
    /// license for an earlier version still allows use.
    pub fn can_use_app(&self) -> (usable: bool)
        ensures
            usable == self.usable(),
    {
        match self.status {
            LicenseStatus::Trial | LicenseStatus::Licensed | LicenseStatus::LicensedUpgradeRequired => true,
            _ => false,
        }
    }

    /// Check if exports should be watermarked.  No status asks for a
    /// watermark at present.
    pub fn should_watermark(&self) -> (watermark: bool)
        ensures
            !watermark,
    {
        false
    }
}

/// Result of activation attempt.
pub struct ActivationResult {
    pub success: bool,
    pub error: Option<String>,
    pub error_code: Option<String>,
    pub devices_used: Option<u32>,
    pub devices_max: Option<u32>,
}

/// Update information.
pub struct UpdateInfo {
    pub current_version: String,
    pub latest_version: String,
    pub update_available: bool,
    pub update_allowed: bool,
    pub download_url: Option<String>,
    pub release_notes: Option<String>,
    pub release_date: Option<Timestamp>,
}

/// License state for frontend (simplified view).
pub struct LicenseInfo {
    pub status: LicenseStatus,
    pub source: Option<LicenseSource>,
    pub trial_days_remaining: Option<i64>,
    pub licensed_version: Option<u32>,
    pub devices_used: u32,
    pub devices_max: u32,
    pub needs_online_validation: bool,
    pub platform: String,
    pub can_use_app: bool,
    pub should_watermark: bool,
}

/// The number of devices shown as allowed while no validation is cached.
pub const DEFAULT_DEVICES_MAX: u32 = 3;

impl LicenseInfo {
    /// `info` is the view of `state` at the instant `now`.
    pub open spec fn shows(info: LicenseInfo, state: LicenseState, now: Timestamp) -> bool {
        &&& info.status == state.status
        &&& info.source == state.source
        &&& info.trial_days_remaining == state.trial_days_left(now)
        &&& info.licensed_version == state.licensed_version
        &&& info.devices_used == match state.cached_validation {
            Some(v) => v.devices_used,
            None => 0,
        }
        &&& info.devices_max == match state.cached_validation {
            Some(v) => v.devices_max,
            None => DEFAULT_DEVICES_MAX,
        }
        &&& info.needs_online_validation == (state.cached_validation is None)
        &&& info.platform@ == state.platform@
        &&& info.can_use_app == state.usable()
        &&& !info.should_watermark
    }

    /// The view of a state at the instant `now`.
    pub fn from_state_at(state: &LicenseState, now: &Timestamp) -> (info: LicenseInfo)
        ensures
            Self::shows(info, *state, *now),
    {
        let (devices_used, devices_max) = match &state.cached_validation {
            Some(v) => (v.devices_used, v.devices_max),
            None => (0, DEFAULT_DEVICES_MAX),
        };
        LicenseInfo {
            status: state.status,
            source: state.source,
            trial_days_remaining: state.trial_days_remaining_at(now),
            licensed_version: state.licensed_version,
            devices_used,
            devices_max,
            needs_online_validation: state.cached_validation.is_none(),
            platform: state.platform.clone(),
            can_use_app: state.can_use_app(),
            should_watermark: state.should_watermark(),
        }
    }

    /// The view of a state at the current time.  Whatever the clock shows,
    /// it is the view at some instant.
    pub fn from_state(state: &LicenseState) -> (info: LicenseInfo)
        ensures
            exists|now: Timestamp| #[trigger] Self::shows(info, *state, now),
    {
        let now = clock_now();
        Self::from_state_at(state, &now)
    }
}

/// Platform information.
pub struct PlatformInfo {
    pub platform: String,
    pub device_id: String,
    pub app_version: String,
    pub is_app_store: bool,
}

/// Error types for licensing operations.
pub enum LicenseError {
    Storage(String),
    Network(String),
    InvalidKey,
    DeviceLimitReached { used: u32, max: u32 },
    LicenseRevoked,
    TrialAlreadyStarted,
    TrialExpired,
    SignatureInvalid,
    ServerError(String),
    RateLimited,
}

impl LicenseError {
    /// What the error prints as.
    pub open spec fn text(self) -> Seq<char> {
        match self {
            LicenseError::Storage(detail) => "Storage error: "@ + detail@,
            LicenseError::Network(detail) => "Network error: "@ + detail@,
            LicenseError::InvalidKey => "Invalid license key"@,
            LicenseError::DeviceLimitReached { used, max } => "Device limit reached ("@ + decimal(
                used as nat,
            ) + "/"@ + decimal(max as nat) + ")"@,
            LicenseError::LicenseRevoked => "License revoked"@,
            LicenseError::TrialAlreadyStarted => "Trial already started"@,
            LicenseError::TrialExpired => "Trial expired"@,
            LicenseError::SignatureInvalid => "Signature verification failed"@,
            LicenseError::ServerError(detail) => "Server error: "@ + detail@,
            LicenseError::RateLimited => "Rate limited"@,
        }
    }

    /// The error as a message for the user.
    pub fn message(&self) -> (text: String)
        ensures
            text@ == self.text(),
    {
        match self {
            LicenseError::Storage(detail) => String::from_str("Storage error: ").concat(detail.as_str()),
            LicenseError::Network(detail) => String::from_str("Network error: ").concat(detail.as_str()),
            LicenseError::InvalidKey => String::from_str("Invalid license key"),
            LicenseError::DeviceLimitReached { used, max } => {
                let used_text = decimal_string(*used as usize);
                let max_text = decimal_string(*max as usize);
                String::from_str("Device limit reached (").concat(used_text.as_str()).concat("/").concat(
                    max_text.as_str(),
                ).concat(")")
            },
            LicenseError::LicenseRevoked => String::from_str("License revoked"),
            LicenseError::TrialAlreadyStarted => String::from_str("Trial already started"),
            LicenseError::TrialExpired => String::from_str("Trial expired"),
            LicenseError::SignatureInvalid => String::from_str("Signature verification failed"),
            LicenseError::ServerError(detail) => String::from_str("Server error: ").concat(detail.as_str()),
            LicenseError::RateLimited => String::from_str("Rate limited"),
        }
    }
}

} // verus!
