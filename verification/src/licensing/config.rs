//! Fixed settings of the licensing system.

pub mod endpoints;

use vstd::prelude::*;

use crate::text::same_text;

verus! {

/// License server URL.
pub const LICENSE_SERVER_URL: &'static str = "https://stitchalot.studio";

/// Length of a trial in days.
pub const TRIAL_DAYS: i64 = 30;

/// Offline caching configuration.
pub const CACHE_TTL_DAYS: i64 = 30;

pub const GRACE_PERIOD_DAYS: i64 = 7;

/// App Store product IDs.
pub const APPLE_PRODUCT_ID: &'static str = "com.stitchalot.needlepoint.license";

pub const MS_STORE_PRODUCT_ID: &'static str = "NeedlePointDesignerLicense";

/// Public key for signature verification (base64 encoded).  It is replaced
/// with the server's key when keys are issued.
pub const LICENSE_SERVER_PUBLIC_KEY: &'static str = "PLACEHOLDER_PUBLIC_KEY_BASE64";

/// Secure storage configuration.
pub const STRONGHOLD_CLIENT_PATH: &'static str = "license.hold";

pub const STRONGHOLD_VAULT_PATH: &'static str = "license_vault";

pub const STRONGHOLD_RECORD_PATH: &'static str = "license_state";

/// The platform name that goes with the name of an operating system:
/// the name itself for the four platforms that are served, else "unknown".
pub open spec fn platform_of(os: Seq<char>) -> Seq<char> {
    if os == "windows"@ || os == "macos"@ || os == "ios"@ || os == "android"@ {
        os
    } else {
        "unknown"@
    }
}

/// Get the platform string for the operating system that the application
/// was built for.
pub fn get_platform(os: &str) -> (platform: &'static str)
    ensures
        platform@ == platform_of(os@),
{
    if same_text(os, "windows") {
        "windows"
    } else if same_text(os, "macos") {
        "macos"
    } else if same_text(os, "ios") {
        "ios"
    } else if same_text(os, "android") {
        "android"
    } else {
        "unknown"
    }
}

} // verus!
