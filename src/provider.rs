//! Decisions of a provider node's long-running process.
use vstd::prelude::*;
use crate::text::strings_view;

verus! {

/// Attempts, one second apart, to wait for some clone provider to be known.
pub const CLONE_PROVIDERS_WAIT_ATTEMPTS: u32 = 30;

/// Attempts, one second apart, to wait for a new shard request to have a
/// provider.
pub const REQUEST_PROVIDERS_WAIT_ATTEMPTS: u32 = 60;

/// Attempts, one second apart, to wait for a signalled shard request to
/// become visible.
pub const REQUEST_VISIBLE_WAIT_ATTEMPTS: u32 = 20;

/// Attempts, 200 milliseconds apart, to wait for a peer connection.
pub const PEER_WAIT_ATTEMPTS: u32 = 200;

pub const PEER_WAIT_INTERVAL_MILLIS: u64 = 200;

pub const RETRY_INTERVAL_MILLIS: u64 = 1000;

/// Seconds between two scheduled reconciliation passes.
pub const RECONCILE_INTERVAL_SECS: u64 = 60;

/// Whether `app_id` is among the installed apps.
pub fn is_app_installed(installed_app_ids: &Vec<String>, app_id: &String) -> (r: bool)
    ensures
        r == strings_view(installed_app_ids@).contains(app_id@),
{
    let ghost v = strings_view(installed_app_ids@);
    let mut i: usize = 0;
    while i < installed_app_ids.len()
        invariant
            i <= installed_app_ids.len(),
            v == strings_view(installed_app_ids@),
            forall|j: int| 0 <= j < i ==> v[j] != app_id@,
        decreases installed_app_ids.len() - i,
    {
        if installed_app_ids[i] == *app_id {
            assert(v[i as int] == app_id@);
            return true;
        }
        i = i + 1;
    }
    false
}

/// Keeps reconciliation passes from overlapping: a wake-up that comes while
/// a pass runs is absorbed by that pass.
pub struct PassGate {
    pub running: bool,
}

impl PassGate {
    pub fn new() -> (g: PassGate)
        ensures
            !g.running,
    {
        PassGate { running: false }
    }

    /// A timer tick or a new-request notice: whether to start a pass now.
    pub fn wake(&mut self) -> (start: bool)
        ensures
            start == !old(self).running,
            final(self).running,
    {
        if self.running {
            false
        } else {
            self.running = true;
            true
        }
    }

    /// The running pass ended.
    pub fn finish(&mut self)
        ensures
            !final(self).running,
    {
        self.running = false;
    }
}

} // verus!
