//! Current-sensor calibration: health of the reported status, the
//! pending measure and store requests, and when the panel allows them.

use vstd::prelude::*;
use vstd::string::*;
use crate::inspector::{named_reads, InspectorState};
use crate::source::{CalibrationCommand, DeviceStatus, SystemState, ValueRead, CAP_CAL, CAP_CT_ZERO_CAL};
use crate::state::abz_zeroing::{code_label, code_label_text};
use crate::state::hardware::HardwareState;

verus! {

pub const CALIBRATION_READ_PERIOD_MS: u64 = 250;
pub const CALIBRATION_STATUS_READ_PERIOD_MS: u64 = 1000;

/// Severity of the calibration status.
#[derive(Debug, Clone, Copy, PartialEq, Eq, Structural)]
pub enum CalibrationHealthLevel {
    Normal,
    Warning,
    Error,
}

/// Severity, short label and explanation of the calibration status.
#[derive(Debug, Clone, Copy, PartialEq, Eq)]
pub struct CalibrationHealth {
    pub level: CalibrationHealthLevel,
    pub label: &'static str,
    pub detail: &'static str,
}

/// The calibration variables read from the device; each may be unread.
#[derive(Debug, Clone, Copy, Default, PartialEq, Eq)]
pub struct CalibrationSnapshot {
    pub state: Option<u16>,
    pub result: Option<u16>,
    pub applied_source: Option<u16>,
    pub store_valid: Option<u16>,
    pub store_result: Option<u16>,
    pub store_sequence: Option<u32>,
}

/// Whether an optional code is present and at least `min`.
pub open spec fn at_least(v: Option<u16>, min: u16) -> bool {
    v matches Some(x) && x >= min
}

fn is_code(v: Option<u16>, x: u16) -> (r: bool)
    ensures
        r == (v == Some(x)),
{
    match v {
        Some(y) => y == x,
        None => false,
    }
}

fn is_at_least(v: Option<u16>, min: u16) -> (r: bool)
    ensures
        r == at_least(v, min),
{
    match v {
        Some(y) => y >= min,
        None => false,
    }
}

impl CalibrationSnapshot {
    /// Start is allowed when the measurement is done (state 2) with result
    /// OK (1) and the measured offset (source 2) applied.
    pub fn start_ready(self) -> (r: bool)
        ensures
            r == (self.state == Some(2u16) && self.result == Some(1u16) && self.applied_source == Some(2u16)),
    {
        is_code(self.state, 2) && is_code(self.result, 1) && is_code(self.applied_source, 2)
    }

    /// The health table: a flash storage failure first, then by state,
    /// result and applied source.
    pub open spec fn spec_health(self) -> CalibrationHealth {
        if at_least(self.store_result, 2) {
            CalibrationHealth { level: CalibrationHealthLevel::Error, label: "Flash storage failed", detail: "The Golden current-sensor reference could not be written to flash." }
        } else if self.state is None {
            CalibrationHealth { level: CalibrationHealthLevel::Normal, label: "Unavailable", detail: "Current-sensor calibration status is not available." }
        } else if self.state == Some(0u16) {
            CalibrationHealth { level: CalibrationHealthLevel::Warning, label: "Pending", detail: "Automatic current-sensor calibration has not completed yet. Start is refused until it passes." }
        } else if self.state == Some(1u16) {
            CalibrationHealth { level: CalibrationHealthLevel::Warning, label: "Measuring", detail: "Automatic current-sensor zero measurement is in progress. Start is refused until it passes." }
        } else if self.state == Some(2u16) && self.result == Some(1u16) && self.applied_source == Some(2u16) && self.store_valid == Some(1u16) {
            CalibrationHealth { level: CalibrationHealthLevel::Normal, label: "Normal", detail: "The automatic zero measurement is active and the Golden reference is available." }
        } else if self.state == Some(2u16) && self.result == Some(1u16) && self.applied_source == Some(2u16) {
            CalibrationHealth { level: CalibrationHealthLevel::Warning, label: "Golden reference missing", detail: "The automatic zero measurement is active, but no Golden flash reference is available." }
        } else if self.state == Some(2u16) && self.result == Some(1u16) && self.applied_source == Some(1u16) {
            CalibrationHealth { level: CalibrationHealthLevel::Error, label: "Golden drift exceeded", detail: "The fresh zero exceeded the Golden drift limit and start is refused. Inspect the hardware; if the drift is legitimate, Commit a new Golden reference and Measure again." }
        } else if self.state == Some(2u16) && self.result == Some(1u16) {
            CalibrationHealth { level: CalibrationHealthLevel::Error, label: "Offset not applied", detail: "The zero measurement passed, but no measured or Golden offset is active. Start is refused." }
        } else if self.state == Some(2u16) && at_least(self.result, 2) && self.applied_source == Some(1u16) {
            CalibrationHealth { level: CalibrationHealthLevel::Error, label: "Measurement rejected", detail: "The automatic zero measurement was rejected and start is refused. The Golden offset remains active for display; run Measure again once the cause is cleared." }
        } else if self.state == Some(2u16) && at_least(self.result, 2) {
            CalibrationHealth { level: CalibrationHealthLevel::Error, label: "Calibration unavailable", detail: "The automatic zero measurement was rejected and no Golden offset is active. Start is refused." }
        } else if self.state == Some(2u16) {
            CalibrationHealth { level: CalibrationHealthLevel::Warning, label: "Result unavailable", detail: "Current-sensor calibration completed without a recognized result." }
        } else {
            CalibrationHealth { level: CalibrationHealthLevel::Warning, label: "Unknown state", detail: "Viewer2000 reported an unknown current-sensor calibration state." }
        }
    }

    /// The health of this snapshot.
    pub fn health(self) -> (r: CalibrationHealth)
        ensures
            r == self.spec_health(),
    {
        if is_at_least(self.store_result, 2) {
            return CalibrationHealth { level: CalibrationHealthLevel::Error, label: "Flash storage failed", detail: "The Golden current-sensor reference could not be written to flash." };
        }
        let done = is_code(self.state, 2);
        let ok = is_code(self.result, 1);
        if self.state.is_none() {
            CalibrationHealth { level: CalibrationHealthLevel::Normal, label: "Unavailable", detail: "Current-sensor calibration status is not available." }
        } else if is_code(self.state, 0) {
            CalibrationHealth { level: CalibrationHealthLevel::Warning, label: "Pending", detail: "Automatic current-sensor calibration has not completed yet. Start is refused until it passes." }
        } else if is_code(self.state, 1) {
            CalibrationHealth { level: CalibrationHealthLevel::Warning, label: "Measuring", detail: "Automatic current-sensor zero measurement is in progress. Start is refused until it passes." }
        } else if done && ok && is_code(self.applied_source, 2) && is_code(self.store_valid, 1) {
            CalibrationHealth { level: CalibrationHealthLevel::Normal, label: "Normal", detail: "The automatic zero measurement is active and the Golden reference is available." }
        } else if done && ok && is_code(self.applied_source, 2) {
            CalibrationHealth { level: CalibrationHealthLevel::Warning, label: "Golden reference missing", detail: "The automatic zero measurement is active, but no Golden flash reference is available." }
        } else if done && ok && is_code(self.applied_source, 1) {
            CalibrationHealth { level: CalibrationHealthLevel::Error, label: "Golden drift exceeded", detail: "The fresh zero exceeded the Golden drift limit and start is refused. Inspect the hardware; if the drift is legitimate, Commit a new Golden reference and Measure again." }
        } else if done && ok {
            CalibrationHealth { level: CalibrationHealthLevel::Error, label: "Offset not applied", detail: "The zero measurement passed, but no measured or Golden offset is active. Start is refused." }
        } else if done && is_at_least(self.result, 2) && is_code(self.applied_source, 1) {
            CalibrationHealth { level: CalibrationHealthLevel::Error, label: "Measurement rejected", detail: "The automatic zero measurement was rejected and start is refused. The Golden offset remains active for display; run Measure again once the cause is cleared." }
        } else if done && is_at_least(self.result, 2) {
            CalibrationHealth { level: CalibrationHealthLevel::Error, label: "Calibration unavailable", detail: "The automatic zero measurement was rejected and no Golden offset is active. Start is refused." }
        } else if done {
            CalibrationHealth { level: CalibrationHealthLevel::Warning, label: "Result unavailable", detail: "Current-sensor calibration completed without a recognized result." }
        } else {
            CalibrationHealth { level: CalibrationHealthLevel::Warning, label: "Unknown state", detail: "Viewer2000 reported an unknown current-sensor calibration state." }
        }
    }
}

/// The calibration status is Normal only when nothing is known (no state
/// read) or the zero measurement is done, passed, applied and backed by a
/// Golden reference in flash, and never after a flash storage failure.
/// While the measurement is pending (state 0) or in progress (state 1)
/// the status warns, since start is refused until it passes; a flash
/// storage failure is an error whatever the state, and so is a finished
/// measurement that was rejected or whose passing offset is not the one
/// applied.
pub proof fn law_calibration_health_levels(s: CalibrationSnapshot)
    ensures
        (s.spec_health().level == CalibrationHealthLevel::Normal) <==> (!at_least(s.store_result, 2) && (s.state is None
            || (s.state == Some(2u16) && s.result == Some(1u16) && s.applied_source == Some(2u16)
                && s.store_valid == Some(1u16)))),
        at_least(s.store_result, 2) ==> s.spec_health().level == CalibrationHealthLevel::Error,
        !at_least(s.store_result, 2) && s.state == Some(0u16) ==> s.spec_health().level == CalibrationHealthLevel::Warning,
        !at_least(s.store_result, 2) && s.state == Some(1u16) ==> s.spec_health().level == CalibrationHealthLevel::Warning
            && s.spec_health().label == "Measuring",
        s.spec_health().level == CalibrationHealthLevel::Normal && s.state is Some ==> s.state == Some(2u16)
            && s.result == Some(1u16) && s.applied_source == Some(2u16),
        (s.spec_health().level == CalibrationHealthLevel::Error) <==> (at_least(s.store_result, 2)
            || (s.state == Some(2u16) && ((s.result == Some(1u16) && s.applied_source != Some(2u16))
                || at_least(s.result, 2)))),
        at_least(s.store_result, 2) ==> s.spec_health().label == "Flash storage failed",
        !at_least(s.store_result, 2) && s.state is None ==> s.spec_health().label == "Unavailable",
        !at_least(s.store_result, 2) && s.state == Some(0u16) ==> s.spec_health().label == "Pending",
{
}

/// A sent calibration command; the sequence is known once it is acknowledged.
#[derive(Debug, Clone, Copy, PartialEq, Eq, Structural)]
pub struct PendingCalibrationCommand {
    pub command: CalibrationCommand,
    pub sequence: Option<u32>,
}

/// How a calibration command ended.
#[derive(Debug, PartialEq, Eq)]
pub enum CalibrationCommandResult {
    Measure { sequence: u32, result: u16 },
    Commit { commit_sequence: u32 },
    Failed { command: CalibrationCommand, message: String },
}

impl Clone for CalibrationCommandResult {
    fn clone(&self) -> (r: Self)
        ensures
            r == *self,
    {
        match self {
            CalibrationCommandResult::Measure { sequence, result } =>
                CalibrationCommandResult::Measure { sequence: *sequence, result: *result },
            CalibrationCommandResult::Commit { commit_sequence } =>
                CalibrationCommandResult::Commit { commit_sequence: *commit_sequence },
            CalibrationCommandResult::Failed { command, message } =>
                CalibrationCommandResult::Failed { command: *command, message: message.clone() },
        }
    }
}

/// The calibration command state of a session.
pub struct CalibrationState {
    pub pending: Option<PendingCalibrationCommand>,
    pub last_result: Option<CalibrationCommandResult>,
    pub show_commit_confirmation: bool,
    /// Monotonic milliseconds at which the next status read is due.
    pub next_read_ms: u64,
}

/// The calibration variables read while the calibration panel is open
/// (`detailed`), or the status subset read otherwise, in read order.
pub open spec fn spec_calibration_read_names(detailed: bool) -> Seq<Seq<char>> {
    if detailed {
        seq![
            "v2k_cal.state"@,
            "v2k_cal.result"@,
            "v2k_cal.applied_src"@,
            "v2k_cal.zero_meas.ct1"@,
            "v2k_cal.zero_meas.ct2"@,
            "v2k_cal.zero_meas.ct3"@,
            "v2k_cal.zero_meas.ct4"@,
            "v2k_cal.zero_meas.ct5"@,
            "v2k_cal.zero_meas.ct6"@,
            "v2k_cal.zero_stored.ct1"@,
            "v2k_cal.zero_stored.ct2"@,
            "v2k_cal.zero_stored.ct3"@,
            "v2k_cal.zero_stored.ct4"@,
            "v2k_cal.zero_stored.ct5"@,
            "v2k_cal.zero_stored.ct6"@,
            "v2k_cal.noise_pp.ct1"@,
            "v2k_cal.noise_pp.ct2"@,
            "v2k_cal.noise_pp.ct3"@,
            "v2k_cal.noise_pp.ct4"@,
            "v2k_cal.noise_pp.ct5"@,
            "v2k_cal.noise_pp.ct6"@,
            "v2k_cal.settle_max"@,
            "v2k_cal.settle_ch"@,
            "v2k_cal.store_valid"@,
            "v2k_cal.store_result"@,
            "v2k_cal.store_seq"@,
        ]
    } else {
        seq![
            "v2k_cal.state"@,
            "v2k_cal.result"@,
            "v2k_cal.applied_src"@,
            "v2k_cal.store_valid"@,
            "v2k_cal.store_result"@,
            "v2k_cal.store_seq"@,
        ]
    }
}

/// The names of the calibration variables to read, in read order.
pub fn calibration_read_names(detailed: bool) -> (r: Vec<&'static str>)
    ensures
        r@.map_values(|s: &'static str| s@) == spec_calibration_read_names(detailed),
{
    let mut names: Vec<&'static str> = Vec::new();
    if detailed {
        names.push("v2k_cal.state");
        names.push("v2k_cal.result");
        names.push("v2k_cal.applied_src");
        names.push("v2k_cal.zero_meas.ct1");
        names.push("v2k_cal.zero_meas.ct2");
        names.push("v2k_cal.zero_meas.ct3");
        names.push("v2k_cal.zero_meas.ct4");
        names.push("v2k_cal.zero_meas.ct5");
        names.push("v2k_cal.zero_meas.ct6");
        names.push("v2k_cal.zero_stored.ct1");
        names.push("v2k_cal.zero_stored.ct2");
        names.push("v2k_cal.zero_stored.ct3");
        names.push("v2k_cal.zero_stored.ct4");
        names.push("v2k_cal.zero_stored.ct5");
        names.push("v2k_cal.zero_stored.ct6");
        names.push("v2k_cal.noise_pp.ct1");
        names.push("v2k_cal.noise_pp.ct2");
        names.push("v2k_cal.noise_pp.ct3");
        names.push("v2k_cal.noise_pp.ct4");
        names.push("v2k_cal.noise_pp.ct5");
        names.push("v2k_cal.noise_pp.ct6");
        names.push("v2k_cal.settle_max");
        names.push("v2k_cal.settle_ch");
        names.push("v2k_cal.store_valid");
        names.push("v2k_cal.store_result");
        names.push("v2k_cal.store_seq");
    } else {
        names.push("v2k_cal.state");
        names.push("v2k_cal.result");
        names.push("v2k_cal.applied_src");
        names.push("v2k_cal.store_valid");
        names.push("v2k_cal.store_result");
        names.push("v2k_cal.store_seq");
    }
    assert(names@.map_values(|s: &'static str| s@) =~= spec_calibration_read_names(detailed));
    names
}

/// The period of the calibration reads: short while the panel is open.
pub open spec fn calibration_read_period(detailed: bool) -> u64 {
    if detailed { CALIBRATION_READ_PERIOD_MS } else { CALIBRATION_STATUS_READ_PERIOD_MS }
}

/// Calibration reads are due on a connected device with a complete catalog
/// that advertises calibration and current-sensor zeroing, once the next
/// read time has come.
pub open spec fn calibration_reads_due(hardware: HardwareState, catalog_ready: bool, next_read_ms: u64, now_ms: u64) -> bool {
    &&& hardware.connected
    &&& catalog_ready
    &&& hardware.spec_has_capability(CAP_CAL)
    &&& hardware.spec_has_capability(CAP_CT_ZERO_CAL)
    &&& now_ms >= next_read_ms
}

impl CalibrationState {
    /// No command pending, no result, no confirmation shown, a read due at once.
    pub fn new() -> (r: Self)
        ensures
            r.pending is None,
            r.last_result is None,
            !r.show_commit_confirmation,
            r.next_read_ms == 0,
    {
        CalibrationState { pending: None, last_result: None, show_commit_confirmation: false, next_read_ms: 0 }
    }

    /// Marks `command` as sent and not yet acknowledged.
    pub fn begin(&mut self, command: CalibrationCommand)
        ensures
            final(self).pending == Some(PendingCalibrationCommand { command, sequence: None }),
            final(self).last_result == old(self).last_result,
            final(self).show_commit_confirmation == old(self).show_commit_confirmation,
            final(self).next_read_ms == old(self).next_read_ms,
    {
        self.pending = Some(PendingCalibrationCommand { command, sequence: None });
    }

    /// Records the acknowledged sequence of a pending Measure Zero; false
    /// (and no change) for anything else.
    pub fn accept_measure(&mut self, sequence: u32) -> (r: bool)
        ensures
            r == (old(self).pending matches Some(p) && p.command == CalibrationCommand::MeasureZero),
            final(self).pending == if r {
                Some(PendingCalibrationCommand { command: CalibrationCommand::MeasureZero, sequence: Some(sequence) })
            } else {
                old(self).pending
            },
            final(self).last_result == old(self).last_result,
            final(self).show_commit_confirmation == old(self).show_commit_confirmation,
            final(self).next_read_ms == old(self).next_read_ms,
    {
        match &mut self.pending {
            Some(pending) => {
                if pending.command != CalibrationCommand::MeasureZero {
                    return false;
                }
                pending.sequence = Some(sequence);
                true
            },
            None => false,
        }
    }

    /// Completes an acknowledged Measure Zero when STATUS reports its
    /// sequence; the result is the reported command result (zero when absent).
    pub fn complete_measure_from_status(&mut self, status: &DeviceStatus) -> (r: Option<CalibrationCommandResult>)
        ensures
            ({
                let done = old(self).pending matches Some(p) && p.command == CalibrationCommand::MeasureZero
                    && p.sequence is Some && status.command_ack_seq == p.sequence;
                if done {
                    let result = CalibrationCommandResult::Measure {
                        sequence: old(self).pending->0.sequence->0,
                        result: match status.command_result { Some(c) => c, None => 0 },
                    };
                    &&& r == Some(result)
                    &&& final(self).pending is None
                    &&& final(self).last_result == Some(result)
                } else {
                    &&& r is None
                    &&& final(self).pending == old(self).pending
                    &&& final(self).last_result == old(self).last_result
                }
            }),
            final(self).show_commit_confirmation == old(self).show_commit_confirmation,
            final(self).next_read_ms == old(self).next_read_ms,
    {
        let pending = match self.pending {
            Some(p) => p,
            None => return None,
        };
        if pending.command != CalibrationCommand::MeasureZero {
            return None;
        }
        let sequence = match pending.sequence {
            Some(s) => s,
            None => return None,
        };
        match status.command_ack_seq {
            Some(ack) => if ack != sequence { return None; },
            None => return None,
        }
        let result = CalibrationCommandResult::Measure {
            sequence,
            result: match status.command_result { Some(c) => c, None => 0 },
        };
        self.pending = None;
        self.last_result = Some(result.clone());
        Some(result)
    }

    /// Ends the command with its commit sequence.
    pub fn complete_commit(&mut self, commit_sequence: u32) -> (r: CalibrationCommandResult)
        ensures
            r == (CalibrationCommandResult::Commit { commit_sequence }),
            final(self).pending is None,
            final(self).last_result == Some(r),
            final(self).show_commit_confirmation == old(self).show_commit_confirmation,
            final(self).next_read_ms == old(self).next_read_ms,
    {
        let result = CalibrationCommandResult::Commit { commit_sequence };
        self.pending = None;
        self.last_result = Some(result.clone());
        result
    }

    /// Records a failure of `command`; a pending command of that kind is dropped.
    pub fn fail(&mut self, command: CalibrationCommand, message: String) -> (r: CalibrationCommandResult)
        ensures
            r == (CalibrationCommandResult::Failed { command, message }),
            final(self).pending == if old(self).pending matches Some(p) && p.command == command {
                None::<PendingCalibrationCommand>
            } else {
                old(self).pending
            },
            final(self).last_result == Some(r),
            final(self).show_commit_confirmation == old(self).show_commit_confirmation,
            final(self).next_read_ms == old(self).next_read_ms,
    {
        let result = CalibrationCommandResult::Failed { command, message };
        match self.pending {
            Some(p) => if p.command == command { self.pending = None; },
            None => {},
        }
        self.last_result = Some(result.clone());
        result
    }

    /// The periodic calibration read at `now_ms`: when due, the reads of the
    /// calibration variables the catalog holds, and the next read is
    /// scheduled one period later; otherwise no read and no change.
    pub fn poll_reads(
        &mut self,
        hardware: &HardwareState,
        inspector: &InspectorState,
        catalog_ready: bool,
        detailed: bool,
        now_ms: u64,
    ) -> (r: Vec<ValueRead>)
        requires
            now_ms <= u64::MAX - CALIBRATION_STATUS_READ_PERIOD_MS,
        ensures
            calibration_reads_due(*hardware, catalog_ready, old(self).next_read_ms, now_ms) ==> {
                &&& r@ == named_reads(inspector.descriptors@, spec_calibration_read_names(detailed))
                &&& final(self).next_read_ms == now_ms + calibration_read_period(detailed)
            },
            !calibration_reads_due(*hardware, catalog_ready, old(self).next_read_ms, now_ms) ==> {
                &&& r@.len() == 0
                &&& final(self).next_read_ms == old(self).next_read_ms
            },
            final(self).pending == old(self).pending,
            final(self).last_result == old(self).last_result,
            final(self).show_commit_confirmation == old(self).show_commit_confirmation,
    {
        if !hardware.connected || !catalog_ready || !hardware.has_capability(CAP_CAL)
            || !hardware.has_capability(CAP_CT_ZERO_CAL) || now_ms < self.next_read_ms {
            return Vec::new();
        }
        let names = calibration_read_names(detailed);
        let reads = inspector.reads_for_names(names.as_slice());
        let period = if detailed { CALIBRATION_READ_PERIOD_MS } else { CALIBRATION_STATUS_READ_PERIOD_MS };
        self.next_read_ms = now_ms + period;
        reads
    }

    /// Fails the pending command, if there is one.
    pub fn fail_pending(&mut self, message: String) -> (r: Option<CalibrationCommandResult>)
        ensures
            old(self).pending is None ==> r is None && final(self).pending is None
                && final(self).last_result == old(self).last_result,
            old(self).pending is Some ==> r == Some(CalibrationCommandResult::Failed { command: old(self).pending->0.command, message })
                && final(self).pending is None && final(self).last_result == r,
            final(self).show_commit_confirmation == old(self).show_commit_confirmation,
            final(self).next_read_ms == old(self).next_read_ms,
    {
        let command = match self.pending {
            Some(p) => p.command,
            None => return None,
        };
        Some(self.fail(command, message))
    }

    /// Forgets the pending command and the confirmation, and makes a read due at `now_ms`.
    pub fn reset_session(&mut self, now_ms: u64)
        ensures
            final(self).pending is None,
            !final(self).show_commit_confirmation,
            final(self).last_result == old(self).last_result,
            final(self).next_read_ms == now_ms,
    {
        self.pending = None;
        self.show_commit_confirmation = false;
        self.next_read_ms = now_ms;
    }
}

impl Default for CalibrationState {
    fn default() -> (r: Self)
        ensures
            r.pending is None,
            r.last_result is None,
            !r.show_commit_confirmation,
            r.next_read_ms == 0,
    {
        CalibrationState::new()
    }
}

/// What the calibration gate depends on.
#[derive(Debug, Clone, Copy)]
pub struct CalibrationGateInput {
    pub connected: bool,
    pub catalog_ready: bool,
    pub has_cal: bool,
    pub has_ct_zero_cal: bool,
    pub can_write_calibration: bool,
    pub system_state: Option<SystemState>,
    pub system_command_pending: bool,
    pub calibration_command_pending: bool,
    pub measurement_done_ok: bool,
}

/// Whether Measure and Commit are allowed, and why not.
#[derive(Debug, Clone, Copy, PartialEq, Eq)]
pub struct CalibrationGate {
    pub can_measure: bool,
    pub can_commit: bool,
    pub reason: Option<&'static str>,
}

impl CalibrationGate {
    /// The refusal of a calibration command: none when it is allowed,
    /// otherwise the first unmet condition, or the missing passing
    /// measurement of a Commit.
    pub fn refusal(self, command: CalibrationCommand) -> (r: Option<&'static str>)
        ensures
            r == if (match command {
                CalibrationCommand::MeasureZero => self.can_measure,
                CalibrationCommand::CommitToFlash => self.can_commit,
            }) {
                None::<&'static str>
            } else {
                match self.reason {
                    Some(reason) => Some(reason),
                    None => Some("No passing measurement available to commit"),
                }
            },
    {
        let allowed = match command {
            CalibrationCommand::MeasureZero => self.can_measure,
            CalibrationCommand::CommitToFlash => self.can_commit,
        };
        if allowed {
            None
        } else {
            match self.reason {
                Some(reason) => Some(reason),
                None => Some("No passing measurement available to commit"),
            }
        }
    }
}

/// The first unmet condition for calibration, if any.
pub open spec fn gate_reason(input: CalibrationGateInput) -> Option<&'static str> {
    if !input.connected { Some("Not connected") }
    else if !input.catalog_ready { Some("Catalog not ready") }
    else if !input.has_cal { Some("CAL capability is not available") }
    else if !input.has_ct_zero_cal { Some("CT_ZERO_CAL capability is not available") }
    else if !input.can_write_calibration { Some("Calibration is blocked by project safety state") }
    else if input.system_state != Some(SystemState::Idle) { Some("User system is not IDLE") }
    else if input.system_command_pending { Some("A system command is pending") }
    else if input.calibration_command_pending { Some("A calibration command is pending") }
    else { None }
}

/// Measure needs a connected, cataloged, capable, writable device whose
/// user system is idle with nothing pending; Commit also needs a good
/// measurement. The reason names the first unmet condition.
pub fn calibration_gate(input: CalibrationGateInput) -> (r: CalibrationGate)
    ensures
        r.can_measure == gate_reason(input) is None,
        r.can_commit == (gate_reason(input) is None && input.measurement_done_ok),
        r.reason == gate_reason(input),
{
    let idle = match input.system_state {
        Some(SystemState::Idle) => true,
        _ => false,
    };
    let reason: Option<&'static str> = if !input.connected {
        Some("Not connected")
    } else if !input.catalog_ready {
        Some("Catalog not ready")
    } else if !input.has_cal {
        Some("CAL capability is not available")
    } else if !input.has_ct_zero_cal {
        Some("CT_ZERO_CAL capability is not available")
    } else if !input.can_write_calibration {
        Some("Calibration is blocked by project safety state")
    } else if !idle {
        Some("User system is not IDLE")
    } else if input.system_command_pending {
        Some("A system command is pending")
    } else if input.calibration_command_pending {
        Some("A calibration command is pending")
    } else {
        None
    };
    let can_measure = reason.is_none();
    let can_commit = can_measure && input.measurement_done_ok;
    CalibrationGate { can_measure, can_commit, reason: if can_commit || can_measure { None } else { reason } }
}

/// IDLE, MEASURING, DONE, or `STATE <n>`.
pub fn cal_state_label(value: Option<u16>) -> (r: String)
    ensures
        r@ == code_label(value, seq!["IDLE"@, "MEASURING"@, "DONE"@], "STATE "@),
{
    let names: [&'static str; 3] = ["IDLE", "MEASURING", "DONE"];
    let r = code_label_text(value, names.as_slice(), "STATE ");
    assert(names@.map_values(|s: &'static str| s@) =~= seq!["IDLE"@, "MEASURING"@, "DONE"@]);
    r
}

/// NONE, OK, IMPLAUSIBLE, NOISY, ABORTED, UNSTABLE, or `RESULT <n>`.
pub fn cal_result_label(value: Option<u16>) -> (r: String)
    ensures
        r@ == code_label(value, seq!["NONE"@, "OK"@, "IMPLAUSIBLE"@, "NOISY"@, "ABORTED"@, "UNSTABLE"@], "RESULT "@),
{
    let names: [&'static str; 6] = ["NONE", "OK", "IMPLAUSIBLE", "NOISY", "ABORTED", "UNSTABLE"];
    let r = code_label_text(value, names.as_slice(), "RESULT ");
    assert(names@.map_values(|s: &'static str| s@) =~= seq!["NONE"@, "OK"@, "IMPLAUSIBLE"@, "NOISY"@, "ABORTED"@, "UNSTABLE"@]);
    r
}

/// DEFAULT, STORED, MEASURED, or `SOURCE <n>`.
pub fn applied_source_label(value: Option<u16>) -> (r: String)
    ensures
        r@ == code_label(value, seq!["DEFAULT"@, "STORED"@, "MEASURED"@], "SOURCE "@),
{
    let names: [&'static str; 3] = ["DEFAULT", "STORED", "MEASURED"];
    let r = code_label_text(value, names.as_slice(), "SOURCE ");
    assert(names@.map_values(|s: &'static str| s@) =~= seq!["DEFAULT"@, "STORED"@, "MEASURED"@]);
    r
}

/// NONE, OK, ERASE_FAIL, PROG_FAIL, VERIFY_FAIL, FULL, or `STORE_RESULT <n>`.
pub fn store_result_label(value: Option<u16>) -> (r: String)
    ensures
        r@ == code_label(value, seq!["NONE"@, "OK"@, "ERASE_FAIL"@, "PROG_FAIL"@, "VERIFY_FAIL"@, "FULL"@], "STORE_RESULT "@),
{
    let names: [&'static str; 6] = ["NONE", "OK", "ERASE_FAIL", "PROG_FAIL", "VERIFY_FAIL", "FULL"];
    let r = code_label_text(value, names.as_slice(), "STORE_RESULT ");
    assert(names@.map_values(|s: &'static str| s@) =~= seq!["NONE"@, "OK"@, "ERASE_FAIL"@, "PROG_FAIL"@, "VERIFY_FAIL"@, "FULL"@]);
    r
}

/// The store result as the calibration panel shows it: UNAVAILABLE when
/// the catalog has no store result variable, its label otherwise.
pub fn store_result_text(inspector: &InspectorState, value: Option<u16>) -> (r: String)
    ensures
        r@ == if crate::inspector::index_named(inspector.descriptors@, "v2k_cal.store_result"@) is None {
            "UNAVAILABLE"@
        } else {
            code_label(value, seq!["NONE"@, "OK"@, "ERASE_FAIL"@, "PROG_FAIL"@, "VERIFY_FAIL"@, "FULL"@], "STORE_RESULT "@)
        },
{
    match inspector.index_by_name("v2k_cal.store_result") {
        None => {
            let mut s = String::new();
            crate::text::push_str(&mut s, "UNAVAILABLE");
            s
        },
        Some(_) => store_result_label(value),
    }
}

} // verus!
