//! The identifier of the device.

use vstd::prelude::*;

verus! {

/// The length of a device identifier made at random: 32 hexadecimal digits
/// in five groups with hyphens between them.
pub const RANDOM_ID_LENGTH: usize = 36;

/// Draws a random version 4 UUID with `uuid::Uuid::new_v4` and writes it as
/// `Uuid` prints: lower-case hexadecimal digits, hyphenated, 36 characters in
/// all.  Which identifier comes out is left open; only its length is claimed.
#[verifier::external_body]
fn random_uuid() -> (id: String)
    ensures
        id@.len() == RANDOM_ID_LENGTH,
{
    uuid::Uuid::new_v4().to_string()
}

/// Get a device identifier where the platform offers none of its own: a
/// fresh random one.
pub fn get_device_id() -> (id: Result<String, String>)
    ensures
        id matches Ok(text) && text@.len() == RANDOM_ID_LENGTH,
{
    Ok(random_uuid())
}

/// Get Microsoft Store user ID (for store purchases).  None is known yet; the
/// device identifier is used instead.
pub fn get_ms_store_user_id() -> (user: Option<String>)
    ensures
        user is None,
{
    None
}

} // verus!
