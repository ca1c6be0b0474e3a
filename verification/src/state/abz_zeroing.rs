//! ABZ angle-reference zeroing: health of the reported status and the
//! pending request that a STATUS acknowledgement completes.

use vstd::prelude::*;
use vstd::string::*;
use crate::inspector::{named_reads, InspectorState};
use crate::source::{DeviceStatus, ValueRead, CAP_ABZ_ZEROING, CAP_CAL};
use crate::state::hardware::HardwareState;
use crate::text::{decimal, push_decimal, push_str};

verus! {

pub const ABZ_ZEROING_READ_PERIOD_MS: u64 = 250;
pub const ABZ_ZEROING_STATUS_READ_PERIOD_MS: u64 = 1000;

/// Severity of the ABZ zeroing status.
#[derive(Debug, Clone, Copy, PartialEq, Eq, Structural)]
pub enum AbzZeroingHealthLevel {
    Normal,
    Warning,
    Error,
}

/// Severity, short label and explanation of the ABZ zeroing status.
#[derive(Debug, Clone, Copy, PartialEq, Eq)]
pub struct AbzZeroingHealth {
    pub level: AbzZeroingHealthLevel,
    pub label: &'static str,
    pub detail: &'static str,
}

/// The ABZ zeroing variables read from the device; each may be unread.
#[derive(Debug, Clone, Copy, Default, PartialEq, Eq)]
pub struct AbzZeroingSnapshot {
    pub ready: Option<u16>,
    pub state: Option<u16>,
    pub result: Option<u16>,
    pub block_reason: Option<u16>,
    pub attempt_sequence: Option<u32>,
    pub eqep2_raw_count: Option<u16>,
    pub eqep2_index_count: Option<u32>,
    pub eqep2_index_latch: Option<u16>,
    pub eqep2_index_event: Option<u16>,
    pub eqep2_dir_change: Option<u16>,
    pub eqep2_status: Option<u16>,
    pub eqep2_error_flags: Option<u32>,
    pub npe_z_good: Option<u16>,
    pub npe_z_seen: Option<u32>,
    pub npe_z_rejects: Option<u32>,
    pub npe_first_latch: Option<u16>,
    pub npe_last_latch: Option<u16>,
    pub npe_last_reject_latch: Option<u16>,
    pub npe_dir_changes: Option<u32>,
    pub npe_dir_resets: Option<u32>,
    pub npe_error_resets: Option<u32>,
    pub npe_last_error_flags: Option<u32>,
}

/// An unread counter counts as zero.
pub open spec fn or_zero(v: Option<u32>) -> u32 {
    match v {
        Some(x) => x,
        None => 0,
    }
}

fn unwrap_zero(v: Option<u32>) -> (r: u32)
    ensures
        r == or_zero(v),
{
    match v {
        Some(x) => x,
        None => 0,
    }
}

impl AbzZeroingSnapshot {
    /// The health table: ready (or state READY with result OK) is normal;
    /// a not-ready idle observer reports eQEP errors, direction resets,
    /// repeat checks or waiting for Z; otherwise the state, result and
    /// block reason decide.
    pub open spec fn spec_health(self) -> AbzZeroingHealth {
        if self.ready == Some(1u16) || (self.state == Some(2u16) && self.result == Some(1u16)) {
            AbzZeroingHealth { level: AbzZeroingHealthLevel::Normal, label: "Ready", detail: "ABZ angle-reference zeroing is ready." }
        } else if self.ready == Some(0u16) && (self.state == Some(0u16) || self.state is None) {
            if or_zero(self.eqep2_error_flags) != 0 || or_zero(self.npe_error_resets) != 0 || or_zero(self.npe_last_error_flags) != 0 {
                AbzZeroingHealth { level: AbzZeroingHealthLevel::Error, label: "eQEP Error", detail: "The passive ABZ observer is seeing eQEP error flags." }
            } else if or_zero(self.npe_dir_resets) != 0 {
                AbzZeroingHealth { level: AbzZeroingHealthLevel::Warning, label: "Direction Reset", detail: "Z events were observed with inconsistent direction." }
            } else if or_zero(self.npe_z_rejects) != 0 {
                AbzZeroingHealth { level: AbzZeroingHealthLevel::Warning, label: "Z Repeat Check", detail: "Z events were observed but the index latch did not repeat yet." }
            } else {
                AbzZeroingHealth { level: AbzZeroingHealthLevel::Warning, label: "Waiting for Z", detail: "The passive ABZ observer is waiting for two qualified Z events. Rotate the shaft externally; firmware will not energize the motor." }
            }
        } else if self.state is None && self.ready is None {
            AbzZeroingHealth { level: AbzZeroingHealthLevel::Normal, label: "Unavailable", detail: "ABZ zeroing status is not available." }
        } else if self.state == Some(1u16) {
            AbzZeroingHealth { level: AbzZeroingHealthLevel::Warning, label: "Zeroing", detail: "ABZ angle-reference zeroing is in progress." }
        } else if self.state == Some(3u16) && self.block_reason == Some(6u16) {
            AbzZeroingHealth { level: AbzZeroingHealthLevel::Error, label: "Timeout", detail: "ABZ zeroing timed out before the reference became ready." }
        } else if self.state == Some(3u16) || self.result == Some(2u16) {
            AbzZeroingHealth { level: AbzZeroingHealthLevel::Error, label: "Failed", detail: "ABZ zeroing failed. Inspect the reported diagnostics." }
        } else if self.result == Some(3u16) {
            AbzZeroingHealth { level: AbzZeroingHealthLevel::Warning, label: "Cancelled", detail: "ABZ zeroing was cancelled before the reference became ready." }
        } else if (self.state == Some(0u16) || self.state is None) && self.ready == Some(0u16) {
            AbzZeroingHealth { level: AbzZeroingHealthLevel::Warning, label: "Required", detail: "ABZ angle-reference zeroing is required before Start." }
        } else if self.state is Some {
            AbzZeroingHealth { level: AbzZeroingHealthLevel::Warning, label: "Unknown state", detail: "Viewer2000 reported an unknown ABZ zeroing state." }
        } else {
            AbzZeroingHealth { level: AbzZeroingHealthLevel::Warning, label: "Required", detail: "ABZ angle-reference zeroing is not ready." }
        }
    }

    /// The health of this snapshot.
    pub fn health(self) -> (r: AbzZeroingHealth)
        ensures
            r == self.spec_health(),
    {
        let ready_one = match self.ready { Some(v) => v == 1, None => false };
        let ready_zero = match self.ready { Some(v) => v == 0, None => false };
        let state_is = |x: u16| -> (b: bool) ensures b == (self.state == Some(x)) { match self.state { Some(v) => v == x, None => false } };
        let result_is = |x: u16| -> (b: bool) ensures b == (self.result == Some(x)) { match self.result { Some(v) => v == x, None => false } };
        if ready_one || (state_is(2) && result_is(1)) {
            return AbzZeroingHealth { level: AbzZeroingHealthLevel::Normal, label: "Ready", detail: "ABZ angle-reference zeroing is ready." };
        }
        if ready_zero && (state_is(0) || self.state.is_none()) {
            if unwrap_zero(self.eqep2_error_flags) != 0 || unwrap_zero(self.npe_error_resets) != 0 || unwrap_zero(self.npe_last_error_flags) != 0 {
                return AbzZeroingHealth { level: AbzZeroingHealthLevel::Error, label: "eQEP Error", detail: "The passive ABZ observer is seeing eQEP error flags." };
            }
            if unwrap_zero(self.npe_dir_resets) != 0 {
                return AbzZeroingHealth { level: AbzZeroingHealthLevel::Warning, label: "Direction Reset", detail: "Z events were observed with inconsistent direction." };
            }
            if unwrap_zero(self.npe_z_rejects) != 0 {
                return AbzZeroingHealth { level: AbzZeroingHealthLevel::Warning, label: "Z Repeat Check", detail: "Z events were observed but the index latch did not repeat yet." };
            }
            return AbzZeroingHealth { level: AbzZeroingHealthLevel::Warning, label: "Waiting for Z", detail: "The passive ABZ observer is waiting for two qualified Z events. Rotate the shaft externally; firmware will not energize the motor." };
        }
        if self.state.is_none() && self.ready.is_none() {
            AbzZeroingHealth { level: AbzZeroingHealthLevel::Normal, label: "Unavailable", detail: "ABZ zeroing status is not available." }
        } else if state_is(1) {
            AbzZeroingHealth { level: AbzZeroingHealthLevel::Warning, label: "Zeroing", detail: "ABZ angle-reference zeroing is in progress." }
        } else if state_is(3) && (match self.block_reason { Some(v) => v == 6, None => false }) {
            AbzZeroingHealth { level: AbzZeroingHealthLevel::Error, label: "Timeout", detail: "ABZ zeroing timed out before the reference became ready." }
        } else if state_is(3) || result_is(2) {
            AbzZeroingHealth { level: AbzZeroingHealthLevel::Error, label: "Failed", detail: "ABZ zeroing failed. Inspect the reported diagnostics." }
        } else if result_is(3) {
            AbzZeroingHealth { level: AbzZeroingHealthLevel::Warning, label: "Cancelled", detail: "ABZ zeroing was cancelled before the reference became ready." }
        } else if (state_is(0) || self.state.is_none()) && ready_zero {
            AbzZeroingHealth { level: AbzZeroingHealthLevel::Warning, label: "Required", detail: "ABZ angle-reference zeroing is required before Start." }
        } else if self.state.is_some() {
            AbzZeroingHealth { level: AbzZeroingHealthLevel::Warning, label: "Unknown state", detail: "Viewer2000 reported an unknown ABZ zeroing state." }
        } else {
            AbzZeroingHealth { level: AbzZeroingHealthLevel::Warning, label: "Required", detail: "ABZ angle-reference zeroing is not ready." }
        }
    }
}

/// The ABZ zeroing status is Normal exactly when the reference is ready
/// (ready flag set, or zeroing done with result OK) or nothing is known.
/// While the passive observer waits (not ready, state idle or unread), any
/// eQEP error flag or error count makes it an error labelled "eQEP Error",
/// and without one it only warns; zeroing in progress warns. Otherwise
/// only a failed or timed-out zeroing is an error.
pub proof fn law_abz_health_levels(s: AbzZeroingSnapshot)
    ensures
        (s.spec_health().level == AbzZeroingHealthLevel::Normal) <==> (s.ready == Some(1u16)
            || (s.state == Some(2u16) && s.result == Some(1u16)) || (s.state is None && s.ready is None)),
        s.ready == Some(1u16) ==> s.spec_health().label == "Ready",
        (s.ready == Some(0u16) && (s.state == Some(0u16) || s.state is None)) ==> {
            &&& (s.spec_health().level == AbzZeroingHealthLevel::Error) <==> (or_zero(s.eqep2_error_flags) != 0
                || or_zero(s.npe_error_resets) != 0 || or_zero(s.npe_last_error_flags) != 0)
            &&& (or_zero(s.eqep2_error_flags) != 0 || or_zero(s.npe_error_resets) != 0
                || or_zero(s.npe_last_error_flags) != 0) ==> s.spec_health().label == "eQEP Error"
            &&& s.spec_health().level != AbzZeroingHealthLevel::Normal
        },
        s.state == Some(1u16) && s.ready != Some(1u16) ==> s.spec_health().level == AbzZeroingHealthLevel::Warning,
        ({
            let ready = s.ready == Some(1u16) || (s.state == Some(2u16) && s.result == Some(1u16));
            let observing = s.ready == Some(0u16) && (s.state == Some(0u16) || s.state is None);
            let eqep_error = or_zero(s.eqep2_error_flags) != 0 || or_zero(s.npe_error_resets) != 0
                || or_zero(s.npe_last_error_flags) != 0;
            let unknown = s.state is None && s.ready is None;
            (s.spec_health().level == AbzZeroingHealthLevel::Error) <==> (!ready && ((observing && eqep_error)
                || (!observing && !unknown && s.state != Some(1u16) && (s.state == Some(3u16) || s.result == Some(2u16)))))
        }),
{
}

/// A sent ABZ zeroing request; the sequence is known once it is acknowledged.
#[derive(Debug, Clone, Copy, PartialEq, Eq, Structural)]
pub struct PendingAbzZeroingCommand {
    pub sequence: Option<u32>,
}

/// How an ABZ zeroing request ended.
#[derive(Debug, PartialEq, Eq)]
pub enum AbzZeroingCommandResult {
    Completed { sequence: u32, result: u16 },
    Failed { message: String },
}

impl Clone for AbzZeroingCommandResult {
    fn clone(&self) -> (r: Self)
        ensures
            r == *self,
    {
        match self {
            AbzZeroingCommandResult::Completed { sequence, result } =>
                AbzZeroingCommandResult::Completed { sequence: *sequence, result: *result },
            AbzZeroingCommandResult::Failed { message } =>
                AbzZeroingCommandResult::Failed { message: message.clone() },
        }
    }
}

/// The ABZ zeroing request state of a session.
pub struct AbzZeroingState {
    pub pending: Option<PendingAbzZeroingCommand>,
    pub last_result: Option<AbzZeroingCommandResult>,
    /// Monotonic milliseconds at which the next diagnostic read is due.
    pub next_read_ms: u64,
}

/// The ABZ zeroing variables read while the zeroing panel is open
/// (`detailed`), or only the ready flag otherwise, in read order.
pub open spec fn spec_abz_zeroing_read_names(detailed: bool) -> Seq<Seq<char>> {
    if detailed {
        seq![
            "v2k_abz_zeroing.ready"@,
            "v2k_abz_zeroing.state"@,
            "v2k_abz_zeroing.result"@,
            "v2k_abz_zeroing.block_reason"@,
            "v2k_abz_zeroing.attempt_seq"@,
            "v2k_abz.eqep2.raw_count"@,
            "v2k_abz.eqep2.index_count"@,
            "v2k_abz.eqep2.index_latch"@,
            "v2k_abz.eqep2.index_event"@,
            "v2k_abz.eqep2.dir_change"@,
            "v2k_abz.eqep2.status"@,
            "v2k_abz.eqep2.error_flags"@,
            "v2k_abz_zeroing.npe.z_good"@,
            "v2k_abz_zeroing.npe.z_seen"@,
            "v2k_abz_zeroing.npe.z_rejects"@,
            "v2k_abz_zeroing.npe.first_latch"@,
            "v2k_abz_zeroing.npe.last_latch"@,
            "v2k_abz_zeroing.npe.last_reject_latch"@,
            "v2k_abz_zeroing.npe.dir_changes"@,
            "v2k_abz_zeroing.npe.dir_resets"@,
            "v2k_abz_zeroing.npe.error_resets"@,
            "v2k_abz_zeroing.npe.last_error_flags"@,
        ]
    } else {
        seq![
            "v2k_abz_zeroing.ready"@,
        ]
    }
}

/// The names of the ABZ zeroing variables to read, in read order.
pub fn abz_zeroing_read_names(detailed: bool) -> (r: Vec<&'static str>)
    ensures
        r@.map_values(|s: &'static str| s@) == spec_abz_zeroing_read_names(detailed),
{
    let mut names: Vec<&'static str> = Vec::new();
    if detailed {
        names.push("v2k_abz_zeroing.ready");
        names.push("v2k_abz_zeroing.state");
        names.push("v2k_abz_zeroing.result");
        names.push("v2k_abz_zeroing.block_reason");
        names.push("v2k_abz_zeroing.attempt_seq");
        names.push("v2k_abz.eqep2.raw_count");
        names.push("v2k_abz.eqep2.index_count");
        names.push("v2k_abz.eqep2.index_latch");
        names.push("v2k_abz.eqep2.index_event");
        names.push("v2k_abz.eqep2.dir_change");
        names.push("v2k_abz.eqep2.status");
        names.push("v2k_abz.eqep2.error_flags");
        names.push("v2k_abz_zeroing.npe.z_good");
        names.push("v2k_abz_zeroing.npe.z_seen");
        names.push("v2k_abz_zeroing.npe.z_rejects");
        names.push("v2k_abz_zeroing.npe.first_latch");
        names.push("v2k_abz_zeroing.npe.last_latch");
        names.push("v2k_abz_zeroing.npe.last_reject_latch");
        names.push("v2k_abz_zeroing.npe.dir_changes");
        names.push("v2k_abz_zeroing.npe.dir_resets");
        names.push("v2k_abz_zeroing.npe.error_resets");
        names.push("v2k_abz_zeroing.npe.last_error_flags");
    } else {
        names.push("v2k_abz_zeroing.ready");
    }
    assert(names@.map_values(|s: &'static str| s@) =~= spec_abz_zeroing_read_names(detailed));
    names
}

/// The period of the ABZ zeroing reads: short while the panel is open.
pub open spec fn abz_zeroing_read_period(detailed: bool) -> u64 {
    if detailed { ABZ_ZEROING_READ_PERIOD_MS } else { ABZ_ZEROING_STATUS_READ_PERIOD_MS }
}

/// ABZ zeroing reads are due on a connected device with a complete catalog
/// that advertises calibration and ABZ zeroing, unless the panel is closed
/// and the last read ready flag is already 1, once the next read time has
/// come.
pub open spec fn abz_zeroing_reads_due(
    hardware: HardwareState,
    catalog_ready: bool,
    detailed: bool,
    ready_value: Option<u16>,
    next_read_ms: u64,
    now_ms: u64,
) -> bool {
    &&& hardware.connected
    &&& catalog_ready
    &&& hardware.spec_has_capability(CAP_CAL)
    &&& hardware.spec_has_capability(CAP_ABZ_ZEROING)
    &&& (detailed || ready_value != Some(1u16))
    &&& now_ms >= next_read_ms
}

impl AbzZeroingState {
    /// No request pending, no result, a read due at once.
    pub fn new() -> (r: Self)
        ensures
            r.pending is None,
            r.last_result is None,
            r.next_read_ms == 0,
    {
        AbzZeroingState { pending: None, last_result: None, next_read_ms: 0 }
    }

    /// Records the acknowledged sequence of the pending request; false when none is pending.
    pub fn accept(&mut self, sequence: u32) -> (r: bool)
        ensures
            r == old(self).pending is Some,
            final(self).pending == if old(self).pending is Some {
                Some(PendingAbzZeroingCommand { sequence: Some(sequence) })
            } else {
                None::<PendingAbzZeroingCommand>
            },
            final(self).last_result == old(self).last_result,
            final(self).next_read_ms == old(self).next_read_ms,
    {
        match &mut self.pending {
            Some(pending) => {
                pending.sequence = Some(sequence);
                true
            },
            None => false,
        }
    }

    /// Completes the acknowledged pending request when STATUS reports its
    /// sequence as the command acknowledgement; the result code is the
    /// reported command result (zero when absent).
    pub fn complete_from_status(&mut self, status: &DeviceStatus) -> (r: Option<AbzZeroingCommandResult>)
        ensures
            ({
                let done = old(self).pending matches Some(p) && p.sequence is Some
                    && status.command_ack_seq == p.sequence;
                if done {
                    let result = AbzZeroingCommandResult::Completed {
                        sequence: old(self).pending->0.sequence->0,
                        result: match status.command_result { Some(c) => c, None => 0 },
                    };
                    &&& r == Some(result)
                    &&& final(self).pending is None
                    &&& final(self).last_result == Some(result)
                } else {
                    &&& r is None
                    &&& final(self).pending == old(self).pending
                    &&& final(self).last_result == old(self).last_result
                }
            }),
            final(self).next_read_ms == old(self).next_read_ms,
    {
        let pending = match self.pending {
            Some(p) => p,
            None => return None,
        };
        let sequence = match pending.sequence {
            Some(s) => s,
            None => return None,
        };
        match status.command_ack_seq {
            Some(ack) => if ack != sequence { return None; },
            None => return None,
        }
        let result = AbzZeroingCommandResult::Completed {
            sequence,
            result: match status.command_result { Some(c) => c, None => 0 },
        };
        self.pending = None;
        self.last_result = Some(result.clone());
        Some(result)
    }

    /// Ends any pending request as failed with `message`.
    pub fn fail(&mut self, message: String) -> (r: AbzZeroingCommandResult)
        ensures
            r == (AbzZeroingCommandResult::Failed { message }),
            final(self).pending is None,
            final(self).last_result == Some(r),
            final(self).next_read_ms == old(self).next_read_ms,
    {
        let result = AbzZeroingCommandResult::Failed { message };
        self.pending = None;
        self.last_result = Some(result.clone());
        result
    }

    /// Fails the pending request, if there is one.
    pub fn fail_pending(&mut self, message: String) -> (r: Option<AbzZeroingCommandResult>)
        ensures
            old(self).pending is None ==> r is None && final(self).pending is None
                && final(self).last_result == old(self).last_result,
            old(self).pending is Some ==> r == Some(AbzZeroingCommandResult::Failed { message })
                && final(self).pending is None && final(self).last_result == r,
            final(self).next_read_ms == old(self).next_read_ms,
    {
        if self.pending.is_none() {
            return None;
        }
        Some(self.fail(message))
    }

    /// The periodic ABZ zeroing read at `now_ms`, given the last read value
    /// of the ready flag: when due, the reads of the zeroing variables the
    /// catalog holds, and the next read is scheduled one period later;
    /// otherwise no read and no change.
    pub fn poll_reads(
        &mut self,
        hardware: &HardwareState,
        inspector: &InspectorState,
        catalog_ready: bool,
        detailed: bool,
        ready_value: Option<u16>,
        now_ms: u64,
    ) -> (r: Vec<ValueRead>)
        requires
            now_ms <= u64::MAX - ABZ_ZEROING_STATUS_READ_PERIOD_MS,
        ensures
            abz_zeroing_reads_due(*hardware, catalog_ready, detailed, ready_value, old(self).next_read_ms, now_ms) ==> {
                &&& r@ == named_reads(inspector.descriptors@, spec_abz_zeroing_read_names(detailed))
                &&& final(self).next_read_ms == now_ms + abz_zeroing_read_period(detailed)
            },
            !abz_zeroing_reads_due(*hardware, catalog_ready, detailed, ready_value, old(self).next_read_ms, now_ms) ==> {
                &&& r@.len() == 0
                &&& final(self).next_read_ms == old(self).next_read_ms
            },
            final(self).pending == old(self).pending,
            final(self).last_result == old(self).last_result,
    {
        if !hardware.connected || !catalog_ready || !hardware.has_capability(CAP_CAL)
            || !hardware.has_capability(CAP_ABZ_ZEROING) {
            return Vec::new();
        }
        if !detailed && ready_value == Some(1u16) {
            return Vec::new();
        }
        if now_ms < self.next_read_ms {
            return Vec::new();
        }
        let names = abz_zeroing_read_names(detailed);
        let reads = inspector.reads_for_names(names.as_slice());
        let period = if detailed { ABZ_ZEROING_READ_PERIOD_MS } else { ABZ_ZEROING_STATUS_READ_PERIOD_MS };
        self.next_read_ms = now_ms + period;
        reads
    }

    /// Forgets the pending request and makes a read due at `now_ms`.
    pub fn reset_session(&mut self, now_ms: u64)
        ensures
            final(self).pending is None,
            final(self).last_result == old(self).last_result,
            final(self).next_read_ms == now_ms,
    {
        self.pending = None;
        self.next_read_ms = now_ms;
    }
}

impl Default for AbzZeroingState {
    fn default() -> (r: Self)
        ensures
            r.pending is None,
            r.last_result is None,
            r.next_read_ms == 0,
    {
        AbzZeroingState::new()
    }
}

/// The label of a numbered code: names for the known values, `<prefix><n>`
/// for others, "UNKNOWN" for an unread value.
pub open spec fn code_label(value: Option<u16>, names: Seq<Seq<char>>, prefix: Seq<char>) -> Seq<char> {
    match value {
        None => "UNKNOWN"@,
        Some(v) => if (v as int) < names.len() { names[v as int] } else { prefix + decimal(v as nat) },
    }
}

/// Builds a code label: `names[v]` for known values.
pub fn code_label_text(value: Option<u16>, names: &[&'static str], prefix: &str) -> (r: String)
    ensures
        r@ == code_label(value, names@.map_values(|s: &'static str| s@), prefix@),
{
    match value {
        None => "UNKNOWN".to_owned(),
        Some(v) => {
            if (v as usize) < names.len() {
                names[v as usize].to_owned()
            } else {
                let mut s = String::new();
                push_str(&mut s, prefix);
                push_decimal(&mut s, v as u64);
                s
            }
        },
    }
}

/// REQUIRED, ZEROING, READY, FAILED, or `STATE <n>`.
pub fn abz_zeroing_state_label(value: Option<u16>) -> (r: String)
    ensures
        r@ == code_label(value, seq!["REQUIRED"@, "ZEROING"@, "READY"@, "FAILED"@], "STATE "@),
{
    let names: [&'static str; 4] = ["REQUIRED", "ZEROING", "READY", "FAILED"];
    let r = code_label_text(value, names.as_slice(), "STATE ");
    assert(names@.map_values(|s: &'static str| s@) =~= seq!["REQUIRED"@, "ZEROING"@, "READY"@, "FAILED"@]);
    r
}

/// NONE, OK, FAILED, CANCELLED, or `RESULT <n>`.
pub fn abz_zeroing_result_label(value: Option<u16>) -> (r: String)
    ensures
        r@ == code_label(value, seq!["NONE"@, "OK"@, "FAILED"@, "CANCELLED"@], "RESULT "@),
{
    let names: [&'static str; 4] = ["NONE", "OK", "FAILED", "CANCELLED"];
    let r = code_label_text(value, names.as_slice(), "RESULT ");
    assert(names@.map_values(|s: &'static str| s@) =~= seq!["NONE"@, "OK"@, "FAILED"@, "CANCELLED"@]);
    r
}

/// NONE or `BLOCK <n>`.
pub fn abz_zeroing_block_label(value: Option<u16>) -> (r: String)
    ensures
        r@ == code_label(value, seq!["NONE"@], "BLOCK "@),
{
    let names: [&'static str; 1] = ["NONE"];
    let r = code_label_text(value, names.as_slice(), "BLOCK ");
    assert(names@.map_values(|s: &'static str| s@) =~= seq!["NONE"@]);
    r
}

} // verus!
