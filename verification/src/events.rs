//! How the application takes a STATUS report: a restart of CPU1 clears the
//! host's pending commands and stops the wave, pending commands complete or
//! expire, the wave follows system starts and stops, and the lines to log.

use vstd::prelude::*;
use crate::capture::{
    should_force_capture, AcquisitionSettings, cpu1_status_restarted, should_capture_on_system_start, should_stop_on_system_stop, spec_has_stop_target,
    spec_started, spec_stopped, system_started_transition, WaveControlSettings, WaveState,
};
use crate::console::LogLevel;
use crate::source::{
    command_result_text, spec_command_result_text, CalibrationCommand, DeviceInfo, DeviceStatus, PerformanceSample, ScopeMode,
    SystemCommand,
    SystemState,
};
use crate::state::abz_zeroing::{AbzZeroingCommandResult, AbzZeroingState};
use crate::state::calibration::{CalibrationCommandResult, CalibrationState};
use crate::state::hardware::{
    CompletedSystemCommand, ExpiredSystemCommand, HardwareState, PendingSystemCommand, SYSTEM_COMMAND_TIMEOUT_MS,
};
use crate::text::{decimal, hex_fixed, push_decimal, push_hex, push_str};

verus! {

/// What a STATUS report set off.
pub struct StatusReaction {
    /// CPU1 restarted since the previous report.
    pub cpu1_restarted: bool,
    pub completed_command: Option<CompletedSystemCommand>,
    pub expired_command: Option<ExpiredSystemCommand>,
    pub completed_calibration: Option<CalibrationCommandResult>,
    pub completed_abz_zeroing: Option<AbzZeroingCommandResult>,
    /// The wave is to stop because the user system stopped.
    pub stop_wave: bool,
    /// A capture is to start because a requested system start happened.
    pub start_wave: bool,
    /// The user system entered Running: watched values are to be refreshed.
    pub entered_running: bool,
    /// What to log, in order.
    pub logs: Vec<(LogLevel, String)>,
}

/// The warning logged when CPU1 restarted.
pub open spec fn restart_text(previous: DeviceStatus, current: DeviceStatus) -> Seq<char> {
    "Viewer2000 CPU1 status restarted: hb "@ + decimal(previous.cpu1_heartbeat as nat) + "/"@
        + decimal(current.cpu1_heartbeat as nat) + " tick "@ + decimal(previous.tick as nat) + "/"@
        + decimal(current.tick as nat) + "; cleared pending host commands"@
}

/// The lines logged for a completed system command: the completion (a
/// notice when it succeeded, else a warning) and why a start was refused.
pub open spec fn completion_lines(c: CompletedSystemCommand) -> Seq<(LogLevel, Seq<char>)> {
    let main = (if c.result == 0 { LogLevel::Notice } else { LogLevel::Warn },
        "System command "@ + c.command.spec_label() + " completed "@ + spec_command_result_text(c.result)
            + " as sequence "@ + decimal(c.sequence as nat));
    let refusal = if c.command == SystemCommand::Start && c.result == 5 {
        seq![(LogLevel::Warn, "Start refused: Current Zeroing is not trusted."@)]
    } else if c.command == SystemCommand::Start && c.result == 3 {
        seq![(LogLevel::Warn, "Start refused: ABZ Zeroing is not ready."@)]
    } else {
        Seq::empty()
    };
    seq![main] + refusal
}

/// The warning logged when a pending system command expired.
pub open spec fn expiry_text(e: ExpiredSystemCommand) -> Seq<char> {
    match e.sequence {
        Some(s) => "System command "@ + e.command.spec_label() + " pending seq "@ + decimal(s as nat)
            + " timed out; released host command state"@,
        None => "System command "@ + e.command.spec_label() + " send timed out; released host command state"@,
    }
}

/// Whether a report acknowledges a pending command: the command was sent
/// with a sequence and the report names it.
pub open spec fn acknowledges(status: DeviceStatus, sequence: Option<u32>) -> bool {
    sequence is Some && status.command_ack_seq == sequence
}

/// The result code a report gives a command it acknowledges (0 when none).
pub open spec fn reported_result(status: DeviceStatus) -> u16 {
    match status.command_result { Some(x) => x, None => 0 }
}

/// The pending system command left after a report: none once the report
/// acknowledged it.
pub open spec fn pending_after_report(pending: Option<PendingSystemCommand>, status: DeviceStatus)
    -> Option<PendingSystemCommand> {
    match pending {
        Some(p) => if acknowledges(status, p.sequence) { None } else { pending },
        None => None,
    }
}

/// Whether a pending system command has gone unconfirmed for
/// `SYSTEM_COMMAND_TIMEOUT_MS` at `now_ms` (counted from its acceptance,
/// or from its sending when never accepted).
pub open spec fn timed_out(p: PendingSystemCommand, now_ms: u64) -> bool {
    now_ms >= (match p.accepted_at_ms { Some(t) => t, None => p.sent_at_ms }) + SYSTEM_COMMAND_TIMEOUT_MS
}

/// The views of logged lines.
pub open spec fn line_views(v: Seq<(LogLevel, String)>) -> Seq<(LogLevel, Seq<char>)> {
    v.map_values(|l: (LogLevel, String)| (l.0, l.1@))
}

fn completion_log(c: CompletedSystemCommand, logs: &mut Vec<(LogLevel, String)>)
    ensures
        line_views(final(logs)@) == line_views(old(logs)@) + completion_lines(c),
{
    let level = if c.result == 0 { LogLevel::Notice } else { LogLevel::Warn };
    let mut text = String::new();
    push_str(&mut text, "System command ");
    push_str(&mut text, c.command.label());
    push_str(&mut text, " completed ");
    let result = command_result_text(c.result);
    push_str(&mut text, result.as_str());
    push_str(&mut text, " as sequence ");
    push_decimal(&mut text, c.sequence as u64);
    let ghost before = logs@;
    logs.push((level, text));
    let ghost after_main = logs@;
    assert(line_views(after_main) =~= line_views(before).push(completion_lines(c)[0]));
    if c.command == SystemCommand::Start && c.result == 5 {
        logs.push((LogLevel::Warn, "Start refused: Current Zeroing is not trusted.".to_owned()));
        assert(line_views(logs@) =~= line_views(after_main).push((LogLevel::Warn, "Start refused: Current Zeroing is not trusted."@)));
    } else if c.command == SystemCommand::Start && c.result == 3 {
        logs.push((LogLevel::Warn, "Start refused: ABZ Zeroing is not ready.".to_owned()));
        assert(line_views(logs@) =~= line_views(after_main).push((LogLevel::Warn, "Start refused: ABZ Zeroing is not ready."@)));
    }
    assert(line_views(logs@) =~= line_views(before) + completion_lines(c));
}

/// Takes a STATUS report. In order: a CPU1 restart (heartbeat and tick
/// both went back) clears the pending system, calibration and ABZ zeroing
/// commands and stops the wave; then the pending commands complete when
/// the report acknowledges them; the wave follows the system's stop and a
/// requested start; the report is kept and its performance sample taken; a
/// system command still pending past its timeout is released. A completed
/// calibration or ABZ zeroing command, and a start refused because ABZ
/// zeroing is not ready, make the affected values due for reading now.
pub fn react_to_status(
    hardware: &mut HardwareState,
    calibration: &mut CalibrationState,
    abz_zeroing: &mut AbzZeroingState,
    wave: &mut WaveState,
    control: &WaveControlSettings,
    status: DeviceStatus,
    now_ms: u64,
) -> (r: StatusReaction)
    ensures
        r.cpu1_restarted == (old(hardware).status matches Some(p)
            && status.cpu1_heartbeat < p.cpu1_heartbeat && status.tick < p.tick),
        final(hardware).status == Some(status),
        r.cpu1_restarted ==> {
            &&& r.completed_command is None
            &&& r.completed_calibration is None
            &&& r.completed_abz_zeroing is None
            &&& r.expired_command is None
            &&& final(hardware).pending_system_command is None
            &&& final(hardware).last_system_command is None
            &&& final(calibration).pending is None
            &&& final(abz_zeroing).pending is None
            &&& !final(wave).active
            &&& final(wave).restart_pending is None
            &&& final(calibration).next_read_ms == now_ms
            &&& final(abz_zeroing).next_read_ms == now_ms
            &&& line_views(r.logs@)[0] == (LogLevel::Warn, restart_text(old(hardware).status->0, status))
        },
        !r.cpu1_restarted ==> {
            &&& *final(wave) == *old(wave)
            &&& final(calibration).next_read_ms == if r.completed_calibration is Some { now_ms } else {
                old(calibration).next_read_ms }
            &&& final(abz_zeroing).next_read_ms == if r.completed_abz_zeroing is Some
                || (r.completed_command matches Some(c) && c.command == SystemCommand::Start && c.result == 3) {
                now_ms
            } else {
                old(abz_zeroing).next_read_ms
            }
            &&& r.completed_command == if old(hardware).pending_system_command matches Some(p) && p.sequence is Some
                && status.command_ack_seq == p.sequence {
                Some(CompletedSystemCommand {
                    command: old(hardware).pending_system_command->0.command,
                    sequence: old(hardware).pending_system_command->0.sequence->0,
                    result: match status.command_result { Some(x) => x, None => 0 },
                })
            } else {
                None::<CompletedSystemCommand>
            }
            &&& r.completed_calibration is Some <==> (old(calibration).pending matches Some(p)
                && p.command == CalibrationCommand::MeasureZero && p.sequence is Some && status.command_ack_seq == p.sequence)
            &&& r.completed_abz_zeroing is Some <==> (old(abz_zeroing).pending matches Some(p)
                && p.sequence is Some && status.command_ack_seq == p.sequence)
            &&& r.completed_command matches Some(c) ==> line_views(r.logs@).take(completion_lines(c).len() as int)
                == completion_lines(c)
        },
        r.completed_command is Some ==> final(hardware).last_system_command == r.completed_command,
        !r.cpu1_restarted && r.completed_command is None ==> final(hardware).last_system_command
            == old(hardware).last_system_command,
        ({
            let left = if r.cpu1_restarted { None::<PendingSystemCommand> } else {
                pending_after_report(old(hardware).pending_system_command, status)
            };
            if left matches Some(p) && timed_out(p, now_ms) {
                &&& r.expired_command == Some(ExpiredSystemCommand { command: left->0.command, sequence: left->0.sequence })
                &&& final(hardware).pending_system_command is None
            } else {
                &&& r.expired_command is None
                &&& final(hardware).pending_system_command == left
            }
        }),
        final(hardware).performance@ == (true, if status.performance is Some { status.performance } else {
            old(hardware).performance@.1 }),
        !r.cpu1_restarted ==> {
            &&& r.completed_calibration == if old(calibration).pending matches Some(p)
                && p.command == CalibrationCommand::MeasureZero && acknowledges(status, p.sequence) {
                Some(CalibrationCommandResult::Measure {
                    sequence: old(calibration).pending->0.sequence->0, result: reported_result(status) })
            } else {
                None::<CalibrationCommandResult>
            }
            &&& final(calibration).pending == if r.completed_calibration is Some { None } else { old(calibration).pending }
            &&& final(calibration).last_result == if r.completed_calibration is Some { r.completed_calibration } else {
                old(calibration).last_result }
            &&& final(calibration).show_commit_confirmation == old(calibration).show_commit_confirmation
            &&& r.completed_abz_zeroing == if old(abz_zeroing).pending matches Some(p) && acknowledges(status, p.sequence) {
                Some(AbzZeroingCommandResult::Completed {
                    sequence: old(abz_zeroing).pending->0.sequence->0, result: reported_result(status) })
            } else {
                None::<AbzZeroingCommandResult>
            }
            &&& final(abz_zeroing).pending == if r.completed_abz_zeroing is Some { None } else { old(abz_zeroing).pending }
            &&& final(abz_zeroing).last_result == if r.completed_abz_zeroing is Some { r.completed_abz_zeroing } else {
                old(abz_zeroing).last_result }
        },
        r.cpu1_restarted ==> {
            &&& final(calibration).last_result == old(calibration).last_result
            &&& !final(calibration).show_commit_confirmation
            &&& final(abz_zeroing).last_result == old(abz_zeroing).last_result
        },
        r.expired_command matches Some(e) ==> line_views(r.logs@).last() == (LogLevel::Warn, expiry_text(e)),
        r.stop_wave == (control.stop_on_system_stop && spec_stopped(
            match old(hardware).status { Some(p) => Some(p.system_state), None => None::<SystemState> }, status.system_state)
            && spec_has_stop_target(*final(wave))),
        r.start_wave == (control.capture_on_system_start && !r.cpu1_restarted
            && (old(hardware).pending_system_command matches Some(p) && p.command == SystemCommand::Start)
            && spec_started(match old(hardware).status { Some(p) => Some(p.system_state), None => None::<SystemState> },
                status.system_state)
            && !spec_has_stop_target(*final(wave))),
        r.entered_running == spec_started(
            match old(hardware).status { Some(p) => Some(p.system_state), None => None::<SystemState> }, status.system_state),
        final(hardware).pending_system_command is Some ==> r.expired_command is None,
{
    let mut logs: Vec<(LogLevel, String)> = Vec::new();
    let previous_state: Option<SystemState> = match &hardware.status {
        Some(p) => Some(p.system_state),
        None => None,
    };
    let restarted = match &hardware.status {
        Some(p) => cpu1_status_restarted(p, &status),
        None => false,
    };
    if restarted {
        let (hb, tick) = match &hardware.status {
            Some(p) => (p.cpu1_heartbeat, p.tick),
            None => (0, 0),
        };
        hardware.clear_system_command_state();
        calibration.reset_session(now_ms);
        abz_zeroing.reset_session(now_ms);
        wave.active = false;
        wave.restart_pending = None;
        let mut text = String::new();
        push_str(&mut text, "Viewer2000 CPU1 status restarted: hb ");
        push_decimal(&mut text, hb as u64);
        push_str(&mut text, "/");
        push_decimal(&mut text, status.cpu1_heartbeat as u64);
        push_str(&mut text, " tick ");
        push_decimal(&mut text, tick as u64);
        push_str(&mut text, "/");
        push_decimal(&mut text, status.tick as u64);
        push_str(&mut text, "; cleared pending host commands");
        logs.push((LogLevel::Warn, text));
    }
    let pending_system_start = match &hardware.pending_system_command {
        Some(p) => p.command == SystemCommand::Start,
        None => false,
    };
    let completed_command = hardware.complete_pending_system_command(&status);
    let completed_calibration = calibration.complete_measure_from_status(&status);
    let completed_abz_zeroing = abz_zeroing.complete_from_status(&status);
    let stop_wave = should_stop_on_system_stop(control, previous_state, status.system_state, wave);
    let start_wave = should_capture_on_system_start(control, previous_state, status.system_state, pending_system_start, wave);
    let entered_running = system_started_transition(previous_state, status.system_state);
    let performance = status.performance;
    hardware.status = Some(status);
    hardware.performance.ingest_status(performance);
    if let Some(c) = completed_command {
        completion_log(c, &mut logs);
        if c.command == SystemCommand::Start && c.result == 3 {
            abz_zeroing.next_read_ms = now_ms;
        }
    }
    let expired_command = hardware.expire_pending_system_command(now_ms);
    if let Some(e) = expired_command {
        let mut text = String::new();
        push_str(&mut text, "System command ");
        push_str(&mut text, e.command.label());
        match e.sequence {
            Some(s) => {
                push_str(&mut text, " pending seq ");
                push_decimal(&mut text, s as u64);
                push_str(&mut text, " timed out; released host command state");
            },
            None => {
                push_str(&mut text, " send timed out; released host command state");
            },
        }
        let ghost before = logs@;
        logs.push((LogLevel::Warn, text));
        assert(line_views(logs@).last() == (LogLevel::Warn, expiry_text(e)));
        assert(line_views(logs@).take(line_views(before).len() as int) =~= line_views(before));
    }
    if completed_calibration.is_some() {
        calibration.next_read_ms = now_ms;
    }
    if completed_abz_zeroing.is_some() {
        abz_zeroing.next_read_ms = now_ms;
    }
    StatusReaction {
        cpu1_restarted: restarted,
        completed_command,
        expired_command,
        completed_calibration,
        completed_abz_zeroing,
        stop_wave,
        start_wave,
        entered_running,
        logs,
    }
}

/// A device connected: the host's command state starts over and the
/// identity becomes known.
pub fn react_to_connected(
    hardware: &mut HardwareState,
    calibration: &mut CalibrationState,
    abz_zeroing: &mut AbzZeroingState,
    info: DeviceInfo,
    now_ms: u64,
)
    ensures
        final(hardware).connected,
        !final(hardware).connecting,
        final(hardware).info == Some(info),
        final(hardware).pending_system_command is None,
        final(hardware).last_system_command is None,
        final(hardware).performance@.0,
        final(hardware).status == old(hardware).status,
        final(hardware).device_summary matches Some(t) && t@ == crate::state::hardware::spec_device_summary(info),
        final(calibration).pending is None,
        final(calibration).next_read_ms == now_ms,
        final(abz_zeroing).pending is None,
        final(abz_zeroing).next_read_ms == now_ms,
{
    hardware.clear_system_command_state();
    hardware.connected = true;
    hardware.connecting = false;
    hardware.info = Some(info);
    hardware.device_summary = hardware.device_summary_text();
    hardware.performance.set_available(true);
    calibration.reset_session(now_ms);
    abz_zeroing.reset_session(now_ms);
}

/// The device went away: nothing about it is known any more, nothing is
/// pending and the wave stops.
pub fn react_to_disconnected(
    hardware: &mut HardwareState,
    calibration: &mut CalibrationState,
    abz_zeroing: &mut AbzZeroingState,
    wave: &mut WaveState,
    now_ms: u64,
)
    ensures
        !final(hardware).connected,
        !final(hardware).connecting,
        final(hardware).info is None,
        final(hardware).status is None,
        final(hardware).performance@ == (false, None::<PerformanceSample>),
        final(hardware).pending_system_command is None,
        final(hardware).last_system_command is None,
        final(calibration).pending is None,
        final(calibration).next_read_ms == now_ms,
        final(abz_zeroing).pending is None,
        final(abz_zeroing).next_read_ms == now_ms,
        !final(wave).active,
        final(wave).restart_pending is None,
        final(wave).pending_binding == old(wave).pending_binding,
{
    hardware.clear_system_command_state();
    hardware.connected = false;
    hardware.connecting = false;
    hardware.info = None;
    hardware.status = None;
    hardware.performance.clear();
    calibration.reset_session(now_ms);
    abz_zeroing.reset_session(now_ms);
    wave.active = false;
    wave.restart_pending = None;
}

/// The firmware changed from `old_hash` to `info`: the new identity is
/// kept, the last report and the host's command state are dropped, and the
/// returned line names both build hashes.
pub fn react_to_device_changed(
    hardware: &mut HardwareState,
    calibration: &mut CalibrationState,
    abz_zeroing: &mut AbzZeroingState,
    old_hash: u32,
    info: DeviceInfo,
    now_ms: u64,
) -> (r: String)
    ensures
        final(hardware).info == Some(info),
        final(hardware).status is None,
        final(hardware).performance@ == (false, None::<PerformanceSample>),
        final(hardware).pending_system_command is None,
        final(hardware).last_system_command is None,
        final(hardware).device_summary matches Some(t) && t@ == crate::state::hardware::spec_device_summary(info),
        final(hardware).connected == old(hardware).connected,
        final(calibration).pending is None,
        final(abz_zeroing).pending is None,
        final(calibration).next_read_ms == now_ms,
        final(abz_zeroing).next_read_ms == now_ms,
        r@ == "Firmware changed 0x"@ + hex_fixed(old_hash as nat, 8, true) + " -> 0x"@
            + hex_fixed(info.build_hash as nat, 8, true) + "; re-enumerating"@,
{
    let new_hash = info.build_hash;
    hardware.clear_system_command_state();
    hardware.info = Some(info);
    hardware.status = None;
    hardware.performance.clear();
    calibration.reset_session(now_ms);
    abz_zeroing.reset_session(now_ms);
    hardware.device_summary = hardware.device_summary_text();
    let mut text = String::new();
    push_str(&mut text, "Firmware changed 0x");
    push_hex(&mut text, old_hash as u64, 8, true);
    push_str(&mut text, " -> 0x");
    push_hex(&mut text, new_hash as u64, 8, true);
    push_str(&mut text, "; re-enumerating");
    text
}

/// The worker reported an error: a connection attempt is over, and the
/// pending calibration and ABZ zeroing commands fail with that message.
pub fn react_to_error(
    hardware: &mut HardwareState,
    calibration: &mut CalibrationState,
    abz_zeroing: &mut AbzZeroingState,
    error: &String,
) -> (r: (Option<CalibrationCommandResult>, Option<AbzZeroingCommandResult>))
    ensures
        !final(hardware).connecting,
        final(hardware).connected == old(hardware).connected,
        final(hardware).pending_system_command is None,
        final(hardware).last_system_command is None,
        final(calibration).pending is None,
        final(abz_zeroing).pending is None,
        r.0 == match old(calibration).pending {
            Some(p) => Some(CalibrationCommandResult::Failed { command: p.command, message: *error }),
            None => None::<CalibrationCommandResult>,
        },
        r.1 == if old(abz_zeroing).pending is Some {
            Some(AbzZeroingCommandResult::Failed { message: *error })
        } else {
            None::<AbzZeroingCommandResult>
        },
{
    hardware.clear_system_command_state();
    hardware.connecting = false;
    let calibration_result = calibration.fail_pending(error.clone());
    let abz_result = abz_zeroing.fail_pending(error.clone());
    (calibration_result, abz_result)
}

/// Why the active project may not be switched now: the user system is
/// running, or Wave acquisition is active or about to restart.
pub fn project_switch_refusal(hardware: &HardwareState, wave: &WaveState) -> (r: Option<&'static str>)
    ensures
        r == if hardware.status matches Some(s) && s.system_state == SystemState::Running || wave.active
            || wave.restart_pending is Some {
            Some("Stop the user system and Wave acquisition before switching projects")
        } else {
            None::<&'static str>
        },
{
    if hardware.is_running() || wave.active || wave.restart_pending.is_some() {
        Some("Stop the user system and Wave acquisition before switching projects")
    } else {
        None
    }
}

/// The device acknowledged system command `command` as `sequence`: the
/// pending command of that kind takes the sequence; the line reports the
/// acceptance, or that the acknowledgement matched nothing and was ignored.
pub fn react_to_system_command_accepted(hardware: &mut HardwareState, command: SystemCommand, sequence: u32, now_ms: u64)
    -> (r: (LogLevel, String))
    ensures
        ({
            let matched = old(hardware).pending_system_command matches Some(p) && p.command == command;
            &&& final(hardware).pending_system_command == if matched {
                Some(crate::state::hardware::PendingSystemCommand { command, sequence: Some(sequence),
                    sent_at_ms: old(hardware).pending_system_command->0.sent_at_ms, accepted_at_ms: Some(now_ms) })
            } else {
                old(hardware).pending_system_command
            }
            &&& r.0 == if matched { LogLevel::Info } else { LogLevel::Warn }
            &&& r.1@ == if matched {
                "System command "@ + command.spec_label() + " accepted as sequence "@ + decimal(sequence as nat)
            } else {
                "Ignored system command "@ + command.spec_label() + " ACK sequence "@ + decimal(sequence as nat)
                    + " without matching pending command"@
            }
        }),
        final(hardware).last_system_command == old(hardware).last_system_command,
        final(hardware).status == old(hardware).status,
        final(hardware).info == old(hardware).info,
        final(hardware).connected == old(hardware).connected,
{
    let accepted = hardware.accept_system_command(command, sequence, now_ms);
    let mut text = String::new();
    if accepted {
        push_str(&mut text, "System command ");
        push_str(&mut text, command.label());
        push_str(&mut text, " accepted as sequence ");
        push_decimal(&mut text, sequence as u64);
        (LogLevel::Info, text)
    } else {
        push_str(&mut text, "Ignored system command ");
        push_str(&mut text, command.label());
        push_str(&mut text, " ACK sequence ");
        push_decimal(&mut text, sequence as u64);
        push_str(&mut text, " without matching pending command");
        (LogLevel::Warn, text)
    }
}

/// The device acknowledged Measure Zero as `sequence`: a pending Measure
/// Zero takes it; the line reports the acceptance, or that the
/// acknowledgement matched nothing and was ignored.
pub fn react_to_calibration_measure_accepted(calibration: &mut CalibrationState, sequence: u32) -> (r: (LogLevel, String))
    ensures
        ({
            let matched = old(calibration).pending matches Some(p) && p.command == CalibrationCommand::MeasureZero;
            &&& final(calibration).pending == if matched {
                Some(crate::state::calibration::PendingCalibrationCommand { command: CalibrationCommand::MeasureZero,
                    sequence: Some(sequence) })
            } else {
                old(calibration).pending
            }
            &&& r.0 == if matched { LogLevel::Info } else { LogLevel::Warn }
            &&& r.1@ == if matched {
                "Calibration Measure Zero accepted as sequence "@ + decimal(sequence as nat)
            } else {
                "Ignored calibration Measure Zero ACK sequence "@ + decimal(sequence as nat)
                    + " without matching pending command"@
            }
        }),
        final(calibration).last_result == old(calibration).last_result,
{
    let accepted = calibration.accept_measure(sequence);
    let mut text = String::new();
    if accepted {
        push_str(&mut text, "Calibration Measure Zero accepted as sequence ");
        push_decimal(&mut text, sequence as u64);
        (LogLevel::Info, text)
    } else {
        push_str(&mut text, "Ignored calibration Measure Zero ACK sequence ");
        push_decimal(&mut text, sequence as u64);
        push_str(&mut text, " without matching pending command");
        (LogLevel::Warn, text)
    }
}

/// What follows the device configuring its scope.
#[derive(Debug, Clone, Copy, PartialEq, Eq)]
pub struct ScopeConfiguredReaction {
    /// The acquisition to start now that the scope is off.
    pub restart: Option<ScopeMode>,
    /// Force the armed capture, which has no trigger source.
    pub force_capture: bool,
}

/// The scope is now in `mode`: Wave is active unless it is off; once off, a
/// pending restart is taken; an armed capture without a trigger source is
/// forced.
pub fn react_to_scope_configured(wave: &mut WaveState, mode: ScopeMode, settings: &AcquisitionSettings)
    -> (r: ScopeConfiguredReaction)
    ensures
        final(wave).active == (mode != ScopeMode::Off),
        mode == ScopeMode::Off ==> r.restart == old(wave).restart_pending && final(wave).restart_pending is None,
        mode != ScopeMode::Off ==> r.restart is None && final(wave).restart_pending == old(wave).restart_pending,
        r.force_capture == (mode == ScopeMode::CaptureArmed && settings.trigger_source is None),
        final(wave).pending_binding == old(wave).pending_binding,
{
    let off = match mode {
        ScopeMode::Off => true,
        _ => false,
    };
    wave.active = !off;
    let restart = if off { wave.restart_pending.take() } else { None };
    ScopeConfiguredReaction { restart, force_capture: should_force_capture(mode, settings) }
}

} // verus!
