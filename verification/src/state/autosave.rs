//! Debounced workspace autosave: a changed workspace is saved once its
//! fingerprint has stayed the same for the debounce window.

use vstd::prelude::*;
use crate::source::sat_sub;

verus! {

/// A changed workspace must stay unchanged this long before it is saved.
pub const WORKSPACE_AUTOSAVE_DEBOUNCE_MS: u64 = 2000;

/// The fingerprints seen by the autosave and when the current change was first seen.
pub struct WorkspaceAutosaveState {
    saved_fingerprint: Option<u64>,
    observed_fingerprint: Option<u64>,
    dirty_since_ms: Option<u64>,
}

impl View for WorkspaceAutosaveState {
    /// (saved fingerprint, last observed fingerprint, monotonic milliseconds
    /// at which the observed change was first seen)
    type V = (Option<u64>, Option<u64>, Option<u64>);

    closed spec fn view(&self) -> (Option<u64>, Option<u64>, Option<u64>) {
        (self.saved_fingerprint, self.observed_fingerprint, self.dirty_since_ms)
    }
}

/// Whether a change first seen at `since` has been stable long enough at `now`.
pub open spec fn debounce_elapsed(since: u64, now: u64) -> bool {
    sat_sub(now as int, since as int) >= WORKSPACE_AUTOSAVE_DEBOUNCE_MS
}

impl WorkspaceAutosaveState {
    /// Nothing saved or seen yet.
    pub fn new() -> (r: Self)
        ensures
            r@ == (None::<u64>, None::<u64>, None::<u64>),
    {
        WorkspaceAutosaveState { saved_fingerprint: None, observed_fingerprint: None, dirty_since_ms: None }
    }

    /// The workspace with `fingerprint` has just been saved or loaded.
    pub fn reset(&mut self, fingerprint: u64)
        ensures
            final(self)@ == (Some(fingerprint), Some(fingerprint), None::<u64>),
    {
        self.saved_fingerprint = Some(fingerprint);
        self.observed_fingerprint = Some(fingerprint);
        self.dirty_since_ms = None;
    }

    /// Observes the workspace fingerprint at `now_ms`; true when it is time
    /// to save (see `observe_step`).
    pub fn observe(&mut self, now_ms: u64, fingerprint: u64) -> (r: bool)
        ensures
            (final(self)@, r) == observe_step(old(self)@, now_ms, fingerprint),
    {
        let saved = match self.saved_fingerprint {
            Some(s) => s,
            None => {
                self.reset(fingerprint);
                return false;
            },
        };
        if fingerprint == saved {
            self.observed_fingerprint = Some(fingerprint);
            self.dirty_since_ms = None;
            return false;
        }
        let same = match self.observed_fingerprint {
            Some(o) => o == fingerprint,
            None => false,
        };
        if !same {
            self.observed_fingerprint = Some(fingerprint);
            self.dirty_since_ms = Some(now_ms);
            return false;
        }
        match self.dirty_since_ms {
            Some(since) => now_ms.saturating_sub(since) >= WORKSPACE_AUTOSAVE_DEBOUNCE_MS,
            None => false,
        }
    }

    /// Milliseconds left of the debounce window at `now_ms`, if a change is waiting.
    pub fn remaining(&self, now_ms: u64) -> (r: Option<u64>)
        ensures
            match self@.2 {
                None => r is None,
                Some(since) => r == Some(sat_sub(WORKSPACE_AUTOSAVE_DEBOUNCE_MS as int,
                    sat_sub(now_ms as int, since as int)) as u64),
            },
    {
        match self.dirty_since_ms {
            Some(since) => Some(WORKSPACE_AUTOSAVE_DEBOUNCE_MS.saturating_sub(now_ms.saturating_sub(since))),
            None => None,
        }
    }
}

/// One observation of the fingerprint at `now`: the first observation
/// only records the fingerprint as saved; a return to the saved
/// fingerprint clears the change; a new fingerprint restarts the window;
/// the same changed fingerprint saves once the window has passed since it
/// was first seen.
pub open spec fn observe_step(v: (Option<u64>, Option<u64>, Option<u64>), now: u64, fingerprint: u64)
    -> ((Option<u64>, Option<u64>, Option<u64>), bool)
{
    let (saved, observed, since) = v;
    match saved {
        None => ((Some(fingerprint), Some(fingerprint), None), false),
        Some(s) => if fingerprint == s {
            ((saved, Some(fingerprint), None), false)
        } else if observed != Some(fingerprint) {
            ((saved, Some(fingerprint), Some(now)), false)
        } else {
            (v, since matches Some(t) && debounce_elapsed(t, now))
        },
    }
}

/// A change is saved only after it has been observed unchanged for the
/// debounce window: observing a new fingerprint at `t0` never saves, and
/// observing it again at `t1` saves exactly when `t1 - t0` reaches
/// `WORKSPACE_AUTOSAVE_DEBOUNCE_MS`.
pub proof fn law_autosave_debounce(v: (Option<u64>, Option<u64>, Option<u64>), fingerprint: u64, t0: u64, t1: u64)
    requires
        v.0 is Some,
        v.0 != Some(fingerprint),
        v.1 != Some(fingerprint),
        t0 <= t1,
    ensures
        !observe_step(v, t0, fingerprint).1,
        observe_step(observe_step(v, t0, fingerprint).0, t1, fingerprint).1
            <==> t1 - t0 >= WORKSPACE_AUTOSAVE_DEBOUNCE_MS,
{
}

/// The workspace as saved is never saved again: observing the saved
/// fingerprint never saves and leaves no change waiting.
pub proof fn law_autosave_unchanged_never_saves(v: (Option<u64>, Option<u64>, Option<u64>), now: u64)
    requires
        v.0 is Some,
    ensures
        !observe_step(v, now, v.0->0).1,
        observe_step(v, now, v.0->0).0.2 is None,
{
}

} // verus!
