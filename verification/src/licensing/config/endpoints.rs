//! API endpoints of the license server.

use vstd::prelude::*;

use crate::licensing::config::LICENSE_SERVER_URL;

verus! {

/// The address of the server's resource at `path`.
pub open spec fn endpoint(path: Seq<char>) -> Seq<char> {
    LICENSE_SERVER_URL@ + path
}

fn at_server(path: &str) -> (url: String)
    ensures
        url@ == endpoint(path@),
{
    String::from_str(LICENSE_SERVER_URL).concat(path)
}

/// Where a trial is registered.
pub fn trial_init() -> (url: String)
    ensures
        url@ == endpoint("/api/v1/trial/init"@),
{
    at_server("/api/v1/trial/init")
}

/// Where a license is activated.
pub fn activate() -> (url: String)
    ensures
        url@ == endpoint("/api/v1/activate"@),
{
    at_server("/api/v1/activate")
}

/// Where a license is validated.
pub fn validate() -> (url: String)
    ensures
        url@ == endpoint("/api/v1/validate"@),
{
    at_server("/api/v1/validate")
}

/// Where a device is released from a license.
pub fn deactivate() -> (url: String)
    ensures
        url@ == endpoint("/api/v1/deactivate"@),
{
    at_server("/api/v1/deactivate")
}

/// Where a lost license is recovered.
pub fn recover() -> (url: String)
    ensures
        url@ == endpoint("/api/v1/recover"@),
{
    at_server("/api/v1/recover")
}

/// Where updates are asked for.
pub fn check_updates() -> (url: String)
    ensures
        url@ == endpoint("/api/v1/check-updates"@),
{
    at_server("/api/v1/check-updates")
}

} // verus!
