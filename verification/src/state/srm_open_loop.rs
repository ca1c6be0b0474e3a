//! The powered SRM open-loop ABZ requalification workflow: start the
//! system, request the open-loop run, wait for ABZ zeroing to become
//! ready, then stop the system.

use vstd::prelude::*;
use vstd::string::*;
use crate::source::sat_sub;
use crate::state::abz_zeroing::{code_label, code_label_text};
use crate::text::push_str;

verus! {

pub const SRM_OPEN_LOOP_READ_PERIOD_MS: u64 = 250;
pub const SRM_OPEN_LOOP_STATUS_READ_PERIOD_MS: u64 = 1000;
/// An unacknowledged open-loop request expires after this long.
pub const SRM_OPEN_LOOP_COMMAND_TIMEOUT_MS: u64 = 3000;

/// Where the workflow stands.
#[derive(Debug, Clone, Copy, PartialEq, Eq, Structural)]
pub enum SrmOpenLoopPhase {
    Idle,
    StartingSystem,
    RequestingOpenLoop,
    Running,
    StoppingSystem,
}

impl Default for SrmOpenLoopPhase {
    fn default() -> (r: Self)
        ensures
            r == SrmOpenLoopPhase::Idle,
    {
        SrmOpenLoopPhase::Idle
    }
}

/// Severity of the open-loop status.
#[derive(Debug, Clone, Copy, PartialEq, Eq, Structural)]
pub enum SrmOpenLoopHealthLevel {
    Warning,
}

/// Severity, short label and explanation of the open-loop status.
#[derive(Debug, Clone, Copy, PartialEq, Eq)]
pub struct SrmOpenLoopHealth {
    pub level: SrmOpenLoopHealthLevel,
    pub label: &'static str,
    pub detail: &'static str,
}

/// The open-loop variables read from the device; each may be unread.
/// (The DC voltage and peak duty are only displayed and are not held here.)
#[derive(Debug, Clone, Copy, Default, PartialEq, Eq, Structural)]
pub struct SrmOpenLoopSnapshot {
    pub state: Option<u16>,
    pub result: Option<u16>,
    pub ticks: Option<u32>,
    pub eqep_errors: Option<u32>,
}

impl SrmOpenLoopSnapshot {
    /// The firmware reports the open-loop run as running (state 1).
    pub open spec fn spec_running(self) -> bool {
        self.state == Some(1u16)
    }

    /// Whether the run is in progress.
    pub fn running(self) -> (r: bool)
        ensures
            r == self.spec_running(),
    {
        match self.state {
            Some(s) => s == 1,
            None => false,
        }
    }

    /// A warning while the run is in progress, nothing otherwise.
    pub fn status_health(self) -> (r: Option<SrmOpenLoopHealth>)
        ensures
            self.spec_running() ==> (r matches Some(h) && h.level == SrmOpenLoopHealthLevel::Warning
                && h.label@ == "SRM Open-loop Running"@
                && h.detail@ == "Powered SRM ABZ requalification is running."@),
            !self.spec_running() ==> r is None,
    {
        if self.running() {
            return Some(SrmOpenLoopHealth {
                level: SrmOpenLoopHealthLevel::Warning,
                label: "SRM Open-loop Running",
                detail: "Powered SRM ABZ requalification is running.",
            });
        }
        None
    }
}

/// The sent open-loop request: its sequence once acknowledged, and when it was sent.
#[derive(Debug, Clone, Copy, PartialEq, Eq, Structural)]
pub struct PendingSrmOpenLoopCommand {
    pub sequence: Option<u32>,
    pub sent_at_ms: u64,
}

/// How the workflow ended.
#[derive(Debug, PartialEq, Eq)]
pub enum SrmOpenLoopCommandResult {
    Completed { sequence: Option<u32>, result: u16 },
    Failed { message: String },
    Expired { sequence: Option<u32> },
}

impl Clone for SrmOpenLoopCommandResult {
    fn clone(&self) -> (r: Self)
        ensures
            r == *self,
    {
        match self {
            SrmOpenLoopCommandResult::Completed { sequence, result } =>
                SrmOpenLoopCommandResult::Completed { sequence: *sequence, result: *result },
            SrmOpenLoopCommandResult::Failed { message } =>
                SrmOpenLoopCommandResult::Failed { message: message.clone() },
            SrmOpenLoopCommandResult::Expired { sequence } =>
                SrmOpenLoopCommandResult::Expired { sequence: *sequence },
        }
    }
}

/// Whether the run may be started, and why not.
#[derive(Debug, Clone, Copy, PartialEq, Eq)]
pub struct SrmOpenLoopGate {
    pub can_run: bool,
    pub reason: Option<&'static str>,
}

/// The open-loop workflow of a session.
pub struct SrmOpenLoopState {
    pub phase: SrmOpenLoopPhase,
    pub pending: Option<PendingSrmOpenLoopCommand>,
    pub command_sequence: Option<u32>,
    pub last_result: Option<SrmOpenLoopCommandResult>,
    /// Monotonic milliseconds at which the next diagnostic read is due.
    pub next_read_ms: u64,
    pub show_run_confirmation: bool,
    /// The run has been reported running since the request was sent.
    pub observed_running: bool,
}

/// NONE, OK, BAD_STATE, BAD_DC, EQEP, CANCELLED, `RESULT <n>` or UNKNOWN.
pub open spec fn srm_result_label(value: Option<u16>) -> Seq<char> {
    code_label(value, seq!["NONE"@, "OK"@, "BAD_STATE"@, "BAD_DC"@, "EQEP"@, "CANCELLED"@], "RESULT "@)
}

/// The failure message for a run that ended with `code` before ABZ
/// zeroing became ready.
pub open spec fn ended_early_message(code: u16) -> Seq<char> {
    if code == 1 {
        "SRM Open-loop ABZ ended before ABZ Zeroing became ready"@
    } else {
        "SRM Open-loop ABZ ended "@ + srm_result_label(Some(code)) + " before ABZ Zeroing became ready"@
    }
}

/// Names an open-loop result code.
pub fn srm_open_loop_result_label(value: Option<u16>) -> (r: String)
    ensures
        r@ == srm_result_label(value),
{
    let names: [&'static str; 6] = ["NONE", "OK", "BAD_STATE", "BAD_DC", "EQEP", "CANCELLED"];
    let r = code_label_text(value, names.as_slice(), "RESULT ");
    assert(names@.map_values(|s: &'static str| s@)
        =~= seq!["NONE"@, "OK"@, "BAD_STATE"@, "BAD_DC"@, "EQEP"@, "CANCELLED"@]);
    r
}

fn ended_early_text(code: u16) -> (r: String)
    ensures
        r@ == ended_early_message(code),
{
    if code == 1 {
        return "SRM Open-loop ABZ ended before ABZ Zeroing became ready".to_owned();
    }
    let mut s = String::new();
    push_str(&mut s, "SRM Open-loop ABZ ended ");
    let label = srm_open_loop_result_label(Some(code));
    push_str(&mut s, label.as_str());
    push_str(&mut s, " before ABZ Zeroing became ready");
    s
}

impl SrmOpenLoopState {
    /// Idle, nothing pending, a read due at once.
    pub fn new() -> (r: Self)
        ensures
            r.phase == SrmOpenLoopPhase::Idle,
            r.pending is None,
            r.command_sequence is None,
            r.last_result is None,
            r.next_read_ms == 0,
            !r.show_run_confirmation,
            !r.observed_running,
    {
        SrmOpenLoopState {
            phase: SrmOpenLoopPhase::Idle,
            pending: None,
            command_sequence: None,
            last_result: None,
            next_read_ms: 0,
            show_run_confirmation: false,
            observed_running: false,
        }
    }

    /// The workflow is under way.
    pub fn active(&self) -> (r: bool)
        ensures
            r == (self.phase != SrmOpenLoopPhase::Idle),
    {
        self.phase != SrmOpenLoopPhase::Idle
    }

    /// Starts the workflow: the system is being started; earlier results are forgotten.
    pub fn begin_workflow(&mut self, now_ms: u64)
        ensures
            final(self).phase == SrmOpenLoopPhase::StartingSystem,
            final(self).pending is None,
            final(self).command_sequence is None,
            final(self).last_result is None,
            final(self).next_read_ms == now_ms,
            final(self).show_run_confirmation == old(self).show_run_confirmation,
            !final(self).observed_running,
    {
        self.phase = SrmOpenLoopPhase::StartingSystem;
        self.pending = None;
        self.command_sequence = None;
        self.last_result = None;
        self.next_read_ms = now_ms;
        self.observed_running = false;
    }

    /// The open-loop request was sent at `now_ms`.
    pub fn begin_open_loop_command(&mut self, now_ms: u64)
        ensures
            final(self).phase == SrmOpenLoopPhase::RequestingOpenLoop,
            final(self).pending == Some(PendingSrmOpenLoopCommand { sequence: None, sent_at_ms: now_ms }),
            final(self).command_sequence == old(self).command_sequence,
            final(self).last_result == old(self).last_result,
            final(self).next_read_ms == old(self).next_read_ms,
            final(self).show_run_confirmation == old(self).show_run_confirmation,
            !final(self).observed_running,
    {
        self.phase = SrmOpenLoopPhase::RequestingOpenLoop;
        self.pending = Some(PendingSrmOpenLoopCommand { sequence: None, sent_at_ms: now_ms });
        self.observed_running = false;
    }

    /// The request was acknowledged with `sequence` at `now_ms`: the run is
    /// under way unless the request had already timed out (then the
    /// sequence is only recorded on the pending request). False when nothing is pending.
    pub fn accept(&mut self, sequence: u32, now_ms: u64) -> (r: bool)
        ensures
            match old(self).pending {
                None => !r && final(self).pending is None
                    && final(self).phase == old(self).phase
                    && final(self).command_sequence == old(self).command_sequence,
                Some(p) => if sat_sub(now_ms as int, p.sent_at_ms as int) >= SRM_OPEN_LOOP_COMMAND_TIMEOUT_MS {
                    !r && final(self).pending == Some(PendingSrmOpenLoopCommand { sequence: Some(sequence), sent_at_ms: p.sent_at_ms })
                        && final(self).phase == old(self).phase
                        && final(self).command_sequence == old(self).command_sequence
                } else {
                    r && final(self).pending is None
                        && final(self).phase == SrmOpenLoopPhase::Running
                        && final(self).command_sequence == Some(sequence)
                },
            },
            final(self).last_result == old(self).last_result,
            final(self).next_read_ms == old(self).next_read_ms,
            final(self).show_run_confirmation == old(self).show_run_confirmation,
            final(self).observed_running == old(self).observed_running,
    {
        let mut pending = match self.pending {
            Some(p) => p,
            None => return false,
        };
        pending.sequence = Some(sequence);
        if now_ms.saturating_sub(pending.sent_at_ms) >= SRM_OPEN_LOOP_COMMAND_TIMEOUT_MS {
            self.pending = Some(pending);
            return false;
        }
        self.command_sequence = Some(sequence);
        self.pending = None;
        self.phase = SrmOpenLoopPhase::Running;
        true
    }

    /// ABZ zeroing became ready while the run was under way: the workflow
    /// completes with result OK and the system is to be stopped.
    pub fn complete_when_abz_ready(&mut self) -> (r: Option<SrmOpenLoopCommandResult>)
        ensures
            old(self).phase == SrmOpenLoopPhase::Running ==> {
                let result = SrmOpenLoopCommandResult::Completed { sequence: old(self).command_sequence, result: 1 };
                &&& r == Some(result)
                &&& final(self).phase == SrmOpenLoopPhase::StoppingSystem
                &&& final(self).pending is None
                &&& final(self).last_result == Some(result)
            },
            old(self).phase != SrmOpenLoopPhase::Running ==> r is None
                && final(self).phase == old(self).phase
                && final(self).pending == old(self).pending
                && final(self).last_result == old(self).last_result,
            final(self).command_sequence == old(self).command_sequence,
            final(self).next_read_ms == old(self).next_read_ms,
            final(self).show_run_confirmation == old(self).show_run_confirmation,
            final(self).observed_running == old(self).observed_running,
    {
        if self.phase != SrmOpenLoopPhase::Running {
            return None;
        }
        let result = SrmOpenLoopCommandResult::Completed { sequence: self.command_sequence, result: 1 };
        self.phase = SrmOpenLoopPhase::StoppingSystem;
        self.pending = None;
        self.last_result = Some(result.clone());
        Some(result)
    }

    /// Watches the open-loop status while the request or run is under way.
    /// A running report is remembered. A nonzero terminal result ends the
    /// workflow as failed (the system is to be stopped), except that before
    /// the run has been seen running a result of OK, EQEP or CANCELLED is
    /// taken as left over from an earlier run and ignored.
    pub fn fail_if_open_loop_ended_before_abz_ready(&mut self, snapshot: SrmOpenLoopSnapshot)
        -> (r: Option<SrmOpenLoopCommandResult>)
        ensures
            ({
                let watching = old(self).phase == SrmOpenLoopPhase::RequestingOpenLoop
                    || old(self).phase == SrmOpenLoopPhase::Running;
                let code = snapshot.result->0;
                let stale = !old(self).observed_running && (code == 1 || code == 4 || code == 5);
                if !watching {
                    r is None && final(self).observed_running == old(self).observed_running
                        && final(self).phase == old(self).phase
                        && final(self).pending == old(self).pending
                        && final(self).last_result == old(self).last_result
                } else if snapshot.spec_running() {
                    r is None && final(self).observed_running
                        && final(self).phase == old(self).phase
                        && final(self).pending == old(self).pending
                        && final(self).last_result == old(self).last_result
                } else if snapshot.result is None || code == 0 || stale {
                    r is None && final(self).observed_running == old(self).observed_running
                        && final(self).phase == old(self).phase
                        && final(self).pending == old(self).pending
                        && final(self).last_result == old(self).last_result
                } else {
                    &&& r matches Some(SrmOpenLoopCommandResult::Failed { message }) && message@ == ended_early_message(code)
                    &&& final(self).last_result == r
                    &&& final(self).phase == SrmOpenLoopPhase::StoppingSystem
                    &&& final(self).pending is None
                    &&& final(self).observed_running == old(self).observed_running
                }
            }),
            final(self).command_sequence == old(self).command_sequence,
            final(self).next_read_ms == old(self).next_read_ms,
            final(self).show_run_confirmation == old(self).show_run_confirmation,
    {
        if !(self.phase == SrmOpenLoopPhase::RequestingOpenLoop || self.phase == SrmOpenLoopPhase::Running) {
            return None;
        }
        if snapshot.running() {
            self.observed_running = true;
            return None;
        }
        let code = match snapshot.result {
            Some(c) => c,
            None => return None,
        };
        if code == 0 {
            return None;
        }
        if !self.observed_running && (code == 1 || code == 4 || code == 5) {
            return None;
        }
        let message = ended_early_text(code);
        let result = SrmOpenLoopCommandResult::Failed { message };
        self.phase = SrmOpenLoopPhase::StoppingSystem;
        self.pending = None;
        self.last_result = Some(result.clone());
        Some(result)
    }
    /// Ends the workflow as expired once the pending request is
    /// `SRM_OPEN_LOOP_COMMAND_TIMEOUT_MS` old; the system is to be stopped.
    pub fn expire_pending(&mut self, now_ms: u64) -> (r: Option<SrmOpenLoopCommandResult>)
        ensures
            match old(self).pending {
                Some(p) if sat_sub(now_ms as int, p.sent_at_ms as int) >= SRM_OPEN_LOOP_COMMAND_TIMEOUT_MS => {
                    let result = SrmOpenLoopCommandResult::Expired { sequence: p.sequence };
                    &&& r == Some(result)
                    &&& final(self).phase == SrmOpenLoopPhase::StoppingSystem
                    &&& final(self).pending is None
                    &&& final(self).last_result == Some(result)
                },
                _ => r is None && final(self).phase == old(self).phase
                    && final(self).pending == old(self).pending
                    && final(self).last_result == old(self).last_result,
            },
            final(self).command_sequence == old(self).command_sequence,
            final(self).next_read_ms == old(self).next_read_ms,
            final(self).show_run_confirmation == old(self).show_run_confirmation,
            final(self).observed_running == old(self).observed_running,
    {
        let pending = match self.pending {
            Some(p) => p,
            None => return None,
        };
        if now_ms.saturating_sub(pending.sent_at_ms) < SRM_OPEN_LOOP_COMMAND_TIMEOUT_MS {
            return None;
        }
        let result = SrmOpenLoopCommandResult::Expired { sequence: pending.sequence };
        self.phase = SrmOpenLoopPhase::StoppingSystem;
        self.pending = None;
        self.last_result = Some(result.clone());
        Some(result)
    }

    /// Ends the workflow as failed with `message`, back to idle.
    pub fn fail(&mut self, message: String) -> (r: SrmOpenLoopCommandResult)
        ensures
            r == (SrmOpenLoopCommandResult::Failed { message }),
            final(self).phase == SrmOpenLoopPhase::Idle,
            final(self).pending is None,
            !final(self).observed_running,
            final(self).last_result == Some(r),
            final(self).command_sequence == old(self).command_sequence,
            final(self).next_read_ms == old(self).next_read_ms,
            final(self).show_run_confirmation == old(self).show_run_confirmation,
    {
        let result = SrmOpenLoopCommandResult::Failed { message };
        self.phase = SrmOpenLoopPhase::Idle;
        self.pending = None;
        self.observed_running = false;
        self.last_result = Some(result.clone());
        result
    }

    /// While the workflow is under way, ends it as failed with `message`
    /// and has the system stopped.
    pub fn fail_and_stop(&mut self, message: String) -> (r: Option<SrmOpenLoopCommandResult>)
        ensures
            old(self).phase != SrmOpenLoopPhase::Idle ==> {
                &&& r == Some(SrmOpenLoopCommandResult::Failed { message })
                &&& final(self).phase == SrmOpenLoopPhase::StoppingSystem
                &&& final(self).pending is None
                &&& !final(self).observed_running
                &&& final(self).last_result == r
            },
            old(self).phase == SrmOpenLoopPhase::Idle ==> r is None
                && final(self).phase == old(self).phase
                && final(self).pending == old(self).pending
                && final(self).observed_running == old(self).observed_running
                && final(self).last_result == old(self).last_result,
            final(self).command_sequence == old(self).command_sequence,
            final(self).next_read_ms == old(self).next_read_ms,
            final(self).show_run_confirmation == old(self).show_run_confirmation,
    {
        if !self.active() {
            return None;
        }
        let result = SrmOpenLoopCommandResult::Failed { message };
        self.phase = SrmOpenLoopPhase::StoppingSystem;
        self.pending = None;
        self.observed_running = false;
        self.last_result = Some(result.clone());
        Some(result)
    }

    /// The system has stopped: back to idle.
    pub fn finish_stop(&mut self)
        ensures
            final(self).phase == SrmOpenLoopPhase::Idle,
            final(self).pending is None,
            final(self).command_sequence is None,
            !final(self).observed_running,
            final(self).last_result == old(self).last_result,
            final(self).next_read_ms == old(self).next_read_ms,
            final(self).show_run_confirmation == old(self).show_run_confirmation,
    {
        self.phase = SrmOpenLoopPhase::Idle;
        self.pending = None;
        self.command_sequence = None;
        self.observed_running = false;
    }

    /// While the workflow is under way, ends it as failed (see `fail`).
    pub fn fail_pending(&mut self, message: String) -> (r: Option<SrmOpenLoopCommandResult>)
        ensures
            old(self).phase != SrmOpenLoopPhase::Idle ==> {
                &&& r == Some(SrmOpenLoopCommandResult::Failed { message })
                &&& final(self).phase == SrmOpenLoopPhase::Idle
                &&& final(self).pending is None
                &&& !final(self).observed_running
                &&& final(self).last_result == r
            },
            old(self).phase == SrmOpenLoopPhase::Idle ==> r is None
                && final(self).phase == old(self).phase
                && final(self).pending == old(self).pending
                && final(self).observed_running == old(self).observed_running
                && final(self).last_result == old(self).last_result,
            final(self).command_sequence == old(self).command_sequence,
            final(self).next_read_ms == old(self).next_read_ms,
            final(self).show_run_confirmation == old(self).show_run_confirmation,
    {
        if !self.active() {
            return None;
        }
        Some(self.fail(message))
    }

    /// A new session: idle, nothing pending, a read due at `now_ms`; the
    /// last result stays for display.
    pub fn reset_session(&mut self, now_ms: u64)
        ensures
            final(self).phase == SrmOpenLoopPhase::Idle,
            final(self).pending is None,
            final(self).command_sequence is None,
            final(self).next_read_ms == now_ms,
            !final(self).show_run_confirmation,
            !final(self).observed_running,
            final(self).last_result == old(self).last_result,
    {
        self.phase = SrmOpenLoopPhase::Idle;
        self.pending = None;
        self.command_sequence = None;
        self.next_read_ms = now_ms;
        self.show_run_confirmation = false;
        self.observed_running = false;
    }
}

impl Default for SrmOpenLoopState {
    fn default() -> (r: Self)
        ensures
            r.phase == SrmOpenLoopPhase::Idle,
            r.pending is None,
            r.command_sequence is None,
            r.last_result is None,
            r.next_read_ms == 0,
            !r.show_run_confirmation,
            !r.observed_running,
    {
        SrmOpenLoopState::new()
    }
}

} // verus!
