use scope2000::capture::{AcquisitionSettings, WaveControlSettings, WaveState};
use scope2000::console::LogLevel;
use scope2000::events::{
    react_to_scope_configured, project_switch_refusal, react_to_calibration_measure_accepted, react_to_system_command_accepted, react_to_connected, react_to_device_changed, react_to_disconnected, react_to_error, react_to_status};
use scope2000::source::{CalibrationCommand, DeviceInfo, DeviceStatus, ScopeMode, SystemCommand, SystemState};
use scope2000::state::abz_zeroing::{AbzZeroingCommandResult, AbzZeroingState, PendingAbzZeroingCommand};
use scope2000::state::calibration::{CalibrationCommandResult, CalibrationState};
use scope2000::state::hardware::HardwareState;

fn status(state: SystemState, tick: u32, heartbeat: u32, ack: Option<u32>, result: Option<u16>) -> DeviceStatus {
    DeviceStatus {
        system_state: state,
        fault_code: 0,
        status_flags: 0,
        tick,
        cpu1_heartbeat: heartbeat,
        cpu2_heartbeat: 0,
        applied_seq: 0,
        calibration_result: 0,
        calibration_fail_index: 0,
        build_hash: 0,
        scope_mode: ScopeMode::Off,
        scope_flags: 0,
        command_ack_seq: ack,
        command_result: result,
        performance: None,
        scope_state_seq: 0,
        scope_frozen_count: 0,
        scope_trigger_tick: 0,
        scope_bind_seq: 0,
    }
}

#[test]
fn acknowledged_start_completes_and_arms_a_capture() {
    let mut hardware = HardwareState::default();
    let mut calibration = CalibrationState::new();
    let mut abz = AbzZeroingState::new();
    let mut wave = WaveState::default();
    let control = WaveControlSettings::default();

    let first = react_to_status(&mut hardware, &mut calibration, &mut abz, &mut wave, &control,
        status(SystemState::Idle, 10, 10, None, None), 0);
    assert!(!first.cpu1_restarted && !first.start_wave && !first.entered_running);

    hardware.begin_system_command(SystemCommand::Start, 0);
    assert!(hardware.accept_system_command(SystemCommand::Start, 7, 5));
    let r = react_to_status(&mut hardware, &mut calibration, &mut abz, &mut wave, &control,
        status(SystemState::Running, 20, 20, Some(7), Some(0)), 10);
    let completed = r.completed_command.expect("completed");
    assert_eq!(completed.sequence, 7);
    assert!(r.start_wave);
    assert!(r.entered_running);
    assert!(!r.stop_wave);
    assert_eq!(r.logs.len(), 1);
    assert_eq!(r.logs[0].0, LogLevel::Notice);
    assert_eq!(r.logs[0].1, "System command Start completed OK as sequence 7");
    assert!(hardware.pending_system_command.is_none());
}

#[test]
fn refused_start_explains_why() {
    let mut hardware = HardwareState::default();
    let mut calibration = CalibrationState::new();
    let mut abz = AbzZeroingState::new();
    let mut wave = WaveState::default();
    let control = WaveControlSettings::default();
    hardware.begin_system_command(SystemCommand::Start, 0);
    hardware.accept_system_command(SystemCommand::Start, 3, 0);
    let r = react_to_status(&mut hardware, &mut calibration, &mut abz, &mut wave, &control,
        status(SystemState::Idle, 1, 1, Some(3), Some(5)), 0);
    assert_eq!(r.logs.len(), 2);
    assert_eq!(r.logs[0].0, LogLevel::Warn);
    assert_eq!(r.logs[1].1, "Start refused: Current Zeroing is not trusted.");
}

#[test]
fn cpu1_restart_clears_pending_commands_and_stops_the_wave() {
    let mut hardware = HardwareState::default();
    let mut calibration = CalibrationState::new();
    let mut abz = AbzZeroingState::new();
    let mut wave = WaveState { active: true, ..WaveState::default() };
    let control = WaveControlSettings::default();
    react_to_status(&mut hardware, &mut calibration, &mut abz, &mut wave, &control,
        status(SystemState::Running, 100, 50, None, None), 0);
    hardware.begin_system_command(SystemCommand::Stop, 0);
    calibration.begin(CalibrationCommand::MeasureZero);
    let r = react_to_status(&mut hardware, &mut calibration, &mut abz, &mut wave, &control,
        status(SystemState::Running, 5, 2, None, None), 40);
    assert!(r.cpu1_restarted);
    assert!(hardware.pending_system_command.is_none());
    assert!(calibration.pending.is_none());
    assert_eq!(calibration.next_read_ms, 40);
    assert!(!wave.active);
    assert_eq!(
        r.logs[0].1,
        "Viewer2000 CPU1 status restarted: hb 50/2 tick 100/5; cleared pending host commands"
    );
}

#[test]
fn system_stop_stops_the_wave_and_stale_commands_expire() {
    let mut hardware = HardwareState::default();
    let mut calibration = CalibrationState::new();
    let mut abz = AbzZeroingState::new();
    let mut wave = WaveState { active: true, ..WaveState::default() };
    let control = WaveControlSettings::default();
    react_to_status(&mut hardware, &mut calibration, &mut abz, &mut wave, &control,
        status(SystemState::Running, 1, 1, None, None), 0);
    hardware.begin_system_command(SystemCommand::ClearFault, 0);
    let r = react_to_status(&mut hardware, &mut calibration, &mut abz, &mut wave, &control,
        status(SystemState::Idle, 2, 2, None, None), 5_000);
    assert!(r.stop_wave);
    let expired = r.expired_command.expect("expired");
    assert_eq!(expired.command, SystemCommand::ClearFault);
    assert_eq!(r.logs.last().expect("line").1, "System command Clear Fault send timed out; released host command state");
}

fn info(build_hash: u32) -> DeviceInfo {
    DeviceInfo {
        protocol_version: 1,
        contract_version: 1,
        build_hash,
        descriptor_count: 4,
        firmware_name: String::from("fw"),
        tick_hz: 10_000,
        capabilities: 0,
        project_name: String::from("motor"),
        build_time_utc: 0,
        mcu_model: 1,
        scope_max_ch: 4,
        scope_block_ticks: 1,
        scope_ring_words: 1024,
    }
}

#[test]
fn connecting_starts_command_state_over() {
    let mut hardware = HardwareState::default();
    let mut calibration = CalibrationState::new();
    let mut abz = AbzZeroingState::new();
    hardware.connecting = true;
    hardware.begin_system_command(SystemCommand::Start, 0);
    calibration.begin(CalibrationCommand::MeasureZero);
    abz.pending = Some(PendingAbzZeroingCommand { sequence: None });

    react_to_connected(&mut hardware, &mut calibration, &mut abz, info(0xABCD), 500);
    assert!(hardware.connected);
    assert!(!hardware.connecting);
    assert_eq!(hardware.info.as_ref().map(|i| i.build_hash), Some(0xABCD));
    assert!(hardware.pending_system_command.is_none());
    assert!(hardware.device_summary.as_deref().unwrap().starts_with("F28P65x · "));
    assert!(calibration.pending.is_none());
    assert_eq!(calibration.next_read_ms, 500);
    assert!(abz.pending.is_none());
    assert_eq!(abz.next_read_ms, 500);
}

#[test]
fn disconnecting_forgets_the_device_and_stops_the_wave() {
    let mut hardware = HardwareState::default();
    let mut calibration = CalibrationState::new();
    let mut abz = AbzZeroingState::new();
    let mut wave = WaveState::default();
    react_to_connected(&mut hardware, &mut calibration, &mut abz, info(1), 0);
    wave.active = true;

    react_to_disconnected(&mut hardware, &mut calibration, &mut abz, &mut wave, 900);
    assert!(!hardware.connected);
    assert!(hardware.info.is_none());
    assert!(hardware.status.is_none());
    assert!(!wave.active);
    assert!(wave.restart_pending.is_none());
    assert_eq!(calibration.next_read_ms, 900);
}

#[test]
fn firmware_change_is_logged_with_both_hashes() {
    let mut hardware = HardwareState::default();
    let mut calibration = CalibrationState::new();
    let mut abz = AbzZeroingState::new();
    react_to_connected(&mut hardware, &mut calibration, &mut abz, info(0x1234), 0);
    let text = react_to_device_changed(&mut hardware, &mut calibration, &mut abz, 0x1234, info(0xDEADBEEF), 20);
    assert_eq!(text, "Firmware changed 0x00001234 -> 0xDEADBEEF; re-enumerating");
    assert_eq!(hardware.info.as_ref().map(|i| i.build_hash), Some(0xDEADBEEF));
    assert!(hardware.connected);
    assert!(hardware.status.is_none());
}

#[test]
fn worker_error_fails_pending_calibration_and_zeroing() {
    let mut hardware = HardwareState::default();
    let mut calibration = CalibrationState::new();
    let mut abz = AbzZeroingState::new();
    hardware.connecting = true;
    calibration.begin(CalibrationCommand::CommitToFlash);
    abz.pending = Some(PendingAbzZeroingCommand { sequence: Some(3) });
    let message = String::from("serial port vanished");

    let (cal, zero) = react_to_error(&mut hardware, &mut calibration, &mut abz, &message);
    assert!(!hardware.connecting);
    assert_eq!(cal, Some(CalibrationCommandResult::Failed {
        command: CalibrationCommand::CommitToFlash,
        message: message.clone(),
    }));
    assert_eq!(zero, Some(AbzZeroingCommandResult::Failed { message: message.clone() }));
    assert!(calibration.pending.is_none());
    assert!(abz.pending.is_none());

    let (cal, zero) = react_to_error(&mut hardware, &mut calibration, &mut abz, &message);
    assert!(cal.is_none() && zero.is_none());
}

#[test]
fn project_switch_waits_for_the_system_and_the_wave() {
    let mut hardware = HardwareState::default();
    let mut wave = WaveState::default();
    assert_eq!(project_switch_refusal(&hardware, &wave), None);
    hardware.status = Some(status(SystemState::Running, 1, 1, None, None));
    assert_eq!(
        project_switch_refusal(&hardware, &wave),
        Some("Stop the user system and Wave acquisition before switching projects")
    );
    hardware.status = Some(status(SystemState::Idle, 1, 1, None, None));
    wave.restart_pending = Some(ScopeMode::Stream);
    assert!(project_switch_refusal(&hardware, &wave).is_some());
    wave.restart_pending = None;
    wave.active = true;
    assert!(project_switch_refusal(&hardware, &wave).is_some());
}

#[test]
fn acknowledgements_match_the_pending_command() {
    let mut hardware = HardwareState::default();
    let (level, text) = react_to_system_command_accepted(&mut hardware, SystemCommand::Start, 4, 10);
    assert_eq!(level, LogLevel::Warn);
    assert_eq!(text, "Ignored system command Start ACK sequence 4 without matching pending command");
    hardware.begin_system_command(SystemCommand::Stop, 0);
    let (level, text) = react_to_system_command_accepted(&mut hardware, SystemCommand::Stop, 5, 10);
    assert_eq!(level, LogLevel::Info);
    assert_eq!(text, "System command Stop accepted as sequence 5");
    assert_eq!(hardware.pending_system_command.map(|p| p.sequence), Some(Some(5)));

    let mut calibration = CalibrationState::new();
    let (level, text) = react_to_calibration_measure_accepted(&mut calibration, 8);
    assert_eq!(level, LogLevel::Warn);
    assert_eq!(text, "Ignored calibration Measure Zero ACK sequence 8 without matching pending command");
    calibration.begin(CalibrationCommand::MeasureZero);
    let (level, text) = react_to_calibration_measure_accepted(&mut calibration, 8);
    assert_eq!(level, LogLevel::Info);
    assert_eq!(text, "Calibration Measure Zero accepted as sequence 8");
}

#[test]
fn scope_configuration_restarts_and_forces() {
    let mut wave = WaveState::default();
    wave.restart_pending = Some(ScopeMode::Stream);
    let settings = AcquisitionSettings::default();
    let r = react_to_scope_configured(&mut wave, ScopeMode::CaptureArmed, &settings);
    assert!(wave.active && r.force_capture && r.restart.is_none());
    assert_eq!(wave.restart_pending, Some(ScopeMode::Stream));
    let r = react_to_scope_configured(&mut wave, ScopeMode::Off, &settings);
    assert!(!wave.active && !r.force_capture);
    assert_eq!(r.restart, Some(ScopeMode::Stream));
    assert!(wave.restart_pending.is_none());
    let triggered = AcquisitionSettings { trigger_source: Some("speed".to_owned()), ..AcquisitionSettings::default() };
    assert!(!react_to_scope_configured(&mut wave, ScopeMode::CaptureArmed, &triggered).force_capture);
}

#[test]
fn status_keeps_the_performance_sample_and_schedules_reads_after_completions() {
    let mut hardware = HardwareState::default();
    let mut calibration = CalibrationState::new();
    let mut abz = AbzZeroingState::new();
    let mut wave = WaveState::default();
    let control = WaveControlSettings::default();
    react_to_status(&mut hardware, &mut calibration, &mut abz, &mut wave, &control,
        status(SystemState::Idle, 1, 1, None, None), 0);

    let sample = scope2000::source::PerformanceSample {
        sequence: 4, cycle_budget: 100, load_average: 10, load_peak: 20, control_at_peak: 1, scope_at_peak: 2,
        latency_at_peak: 3, peak_tick: 5, violations: 0, overflows: 0,
    };
    hardware.begin_system_command(SystemCommand::Start, 1_000);
    calibration.begin(CalibrationCommand::MeasureZero);
    assert!(calibration.accept_measure(9));
    let mut report = status(SystemState::Idle, 2, 2, Some(9), Some(0));
    report.performance = Some(sample);
    let r = react_to_status(&mut hardware, &mut calibration, &mut abz, &mut wave, &control, report, 2_000);
    assert!(hardware.performance.is_available());
    assert_eq!(hardware.performance.sample(), Some(sample));
    assert!(r.expired_command.is_none());
    assert!(hardware.pending_system_command.is_some());
    assert_eq!(r.completed_calibration, Some(CalibrationCommandResult::Measure { sequence: 9, result: 0 }));
    assert!(calibration.pending.is_none());
    assert_eq!(calibration.next_read_ms, 2_000);

    let r = react_to_status(&mut hardware, &mut calibration, &mut abz, &mut wave, &control,
        status(SystemState::Idle, 3, 3, None, None), 4_000);
    assert_eq!(hardware.performance.sample(), Some(sample));
    let expired = r.expired_command.expect("expired");
    assert_eq!(expired.command, SystemCommand::Start);
    assert!(hardware.pending_system_command.is_none());
}
