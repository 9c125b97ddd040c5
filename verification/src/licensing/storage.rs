//! The license state kept in memory between reads of the stored file.

use vstd::prelude::*;

use crate::licensing::types::LicenseState;

verus! {

/// The name of the file that holds the license state.
pub const LICENSE_STATE_FILE: &'static str = "license-state.json";

/// In-memory cache for license state.
pub struct LicenseCache {
    pub state: Option<LicenseState>,
}

impl LicenseCache {
    /// A cache that holds nothing.
    pub fn new() -> (cache: LicenseCache)
        ensures
            cache.state is None,
    {
        LicenseCache { state: None }
    }

    /// What the cache holds, as a copy.
    pub fn cached(&self) -> (state: Option<LicenseState>)
        ensures
            state == self.state,
    {
        match &self.state {
            Some(s) => Some(s.duplicate()),
            None => None,
        }
    }

    /// Keeps a copy of a state that was loaded or saved.
    pub fn remember(&mut self, state: &LicenseState)
        ensures
            final(self).state == Some(*state),
    {
        self.state = Some(state.duplicate());
    }
}

/// Clear the in-memory cache (useful for testing or reset).
pub fn clear_cache(cache: &mut LicenseCache)
    ensures
        final(cache).state is None,
{
    cache.state = None;
}

} // verus!
