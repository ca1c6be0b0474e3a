use scope2000::source::{
    CalibrationCommand, DeviceInfo, DeviceStatus, PerformanceSample, ScopeMode, SystemCommand, SystemState,
};
use scope2000::state::abz_zeroing::{
    abz_zeroing_block_label, abz_zeroing_result_label, abz_zeroing_state_label, AbzZeroingCommandResult,
    AbzZeroingHealthLevel, AbzZeroingSnapshot, AbzZeroingState, PendingAbzZeroingCommand,
};
use scope2000::state::autosave::WorkspaceAutosaveState;
use scope2000::state::calibration::{
    applied_source_label, cal_result_label, cal_state_label, calibration_gate, store_result_label,
    CalibrationCommandResult, CalibrationGate, CalibrationGateInput, CalibrationHealthLevel, CalibrationSnapshot,
    CalibrationState,
};
use scope2000::state::hardware::{
    HardwareState, PerformanceState, DEFAULT_SERIAL_BAUD, SYSTEM_COMMAND_TIMEOUT_MS,
};
use scope2000::state::srm_open_loop::{
    srm_open_loop_result_label, SrmOpenLoopCommandResult, SrmOpenLoopHealthLevel, SrmOpenLoopPhase,
    SrmOpenLoopSnapshot, SrmOpenLoopState,
};

fn idle_status(sequence: Option<u32>, result: Option<u16>) -> DeviceStatus {
    DeviceStatus {
        system_state: SystemState::Idle,
        fault_code: 0,
        status_flags: 0,
        tick: 0,
        cpu1_heartbeat: 0,
        cpu2_heartbeat: 0,
        applied_seq: 0,
        calibration_result: 0,
        calibration_fail_index: 0,
        build_hash: 0,
        scope_mode: ScopeMode::Off,
        scope_flags: 0,
        command_ack_seq: sequence,
        command_result: result,
        performance: None,
        scope_state_seq: 0,
        scope_frozen_count: 0,
        scope_trigger_tick: 0,
        scope_bind_seq: 0,
    }
}

#[test]
fn completion_requires_matching_status_sequence() {
    let mut state = AbzZeroingState::new();
    state.pending = Some(PendingAbzZeroingCommand { sequence: None });
    assert!(state.accept(10));
    assert!(state.complete_from_status(&idle_status(Some(9), Some(0))).is_none());

    let completed = state
        .complete_from_status(&idle_status(Some(10), Some(2)))
        .expect("matching sequence completes");

    assert_eq!(completed, AbzZeroingCommandResult::Completed { sequence: 10, result: 2 });
    assert!(state.pending.is_none());
}

#[test]
fn snapshot_health_tracks_ready_required_and_failed_states() {
    let ready = AbzZeroingSnapshot { ready: Some(1), state: Some(2), result: Some(1), ..AbzZeroingSnapshot::default() };
    assert_eq!(ready.health().level, AbzZeroingHealthLevel::Normal);

    let required = AbzZeroingSnapshot {
        ready: Some(0),
        state: Some(0),
        result: Some(0),
        block_reason: Some(0),
        ..AbzZeroingSnapshot::default()
    };
    assert_eq!(required.health().level, AbzZeroingHealthLevel::Warning);
    assert_eq!(required.health().label, "Waiting for Z");

    let failed = AbzZeroingSnapshot {
        ready: Some(0),
        state: Some(3),
        result: Some(2),
        block_reason: Some(6),
        ..AbzZeroingSnapshot::default()
    };
    assert_eq!(failed.health().level, AbzZeroingHealthLevel::Error);
}

#[test]
fn labels_name_known_values() {
    assert_eq!(abz_zeroing_state_label(Some(1)), "ZEROING");
    assert_eq!(abz_zeroing_result_label(Some(3)), "CANCELLED");
    assert_eq!(abz_zeroing_block_label(Some(5)), "BLOCK 5");
}

#[test]
fn abz_labels_name_unknown_and_unread_values() {
    assert_eq!(abz_zeroing_state_label(Some(9)), "STATE 9");
    assert_eq!(abz_zeroing_result_label(None), "UNKNOWN");
    assert_eq!(abz_zeroing_block_label(Some(0)), "NONE");
}

#[test]
fn abz_fail_pending_only_fails_a_pending_request() {
    let mut state = AbzZeroingState::new();
    assert!(state.fail_pending("lost".to_owned()).is_none());
    assert!(state.last_result.is_none());
    state.pending = Some(PendingAbzZeroingCommand { sequence: Some(3) });
    let failed = state.fail_pending("lost".to_owned());
    assert_eq!(failed, Some(AbzZeroingCommandResult::Failed { message: "lost".to_owned() }));
    assert!(state.pending.is_none());
    state.reset_session(1234);
    assert_eq!(state.next_read_ms, 1234);
}

#[test]
fn measure_completion_requires_matching_sequence() {
    let mut state = CalibrationState::new();
    state.begin(CalibrationCommand::MeasureZero);
    assert!(state.accept_measure(10));
    assert!(state.complete_measure_from_status(&idle_status(Some(9), Some(0))).is_none());

    let completed = state
        .complete_measure_from_status(&idle_status(Some(10), Some(5)))
        .expect("matching sequence completes");

    assert_eq!(completed, CalibrationCommandResult::Measure { sequence: 10, result: 5 });
    assert!(state.pending.is_none());
}

#[test]
fn gate_requires_idle_capable_safe_device() {
    let ready = CalibrationGateInput {
        connected: true,
        catalog_ready: true,
        has_cal: true,
        has_ct_zero_cal: true,
        can_write_calibration: true,
        system_state: Some(SystemState::Idle),
        system_command_pending: false,
        calibration_command_pending: false,
        measurement_done_ok: true,
    };

    assert_eq!(calibration_gate(ready), CalibrationGate { can_measure: true, can_commit: true, reason: None });
    assert_eq!(calibration_gate(CalibrationGateInput { measurement_done_ok: false, ..ready }).can_commit, false);
    assert_eq!(
        calibration_gate(CalibrationGateInput { system_state: Some(SystemState::Running), ..ready }).reason,
        Some("User system is not IDLE")
    );
}

#[test]
fn calibration_labels_name_known_values() {
    assert_eq!(cal_state_label(Some(1)), "MEASURING");
    assert_eq!(cal_result_label(Some(5)), "UNSTABLE");
    assert_eq!(applied_source_label(Some(2)), "MEASURED");
    assert_eq!(store_result_label(Some(3)), "PROG_FAIL");
}

#[test]
fn calibration_health_distinguishes_normal_fallback_and_failure() {
    let normal = CalibrationSnapshot {
        state: Some(2),
        result: Some(1),
        applied_source: Some(2),
        store_valid: Some(1),
        store_result: Some(0),
        store_sequence: Some(3),
    };
    assert_eq!(normal.health().level, CalibrationHealthLevel::Normal);
    assert!(normal.start_ready());

    let no_golden = CalibrationSnapshot { store_valid: Some(0), ..normal };
    assert_eq!(no_golden.health().level, CalibrationHealthLevel::Warning);

    let drifted = CalibrationSnapshot { applied_source: Some(1), ..normal };
    assert_eq!(drifted.health().level, CalibrationHealthLevel::Error);
    assert_eq!(drifted.health().label, "Golden drift exceeded");

    let rejected_with_fallback = CalibrationSnapshot { result: Some(5), applied_source: Some(1), ..normal };
    assert_eq!(rejected_with_fallback.health().level, CalibrationHealthLevel::Error);

    let rejected_without_fallback = CalibrationSnapshot { applied_source: Some(0), ..rejected_with_fallback };
    assert_eq!(rejected_without_fallback.health().level, CalibrationHealthLevel::Error);

    let flash_failure = CalibrationSnapshot { store_result: Some(4), ..normal };
    assert_eq!(flash_failure.health().level, CalibrationHealthLevel::Error);

    let pending = CalibrationSnapshot { state: Some(0), ..CalibrationSnapshot::default() };
    assert_eq!(pending.health().level, CalibrationHealthLevel::Warning);
    assert!(!pending.start_ready());
}

#[test]
fn calibration_commit_and_failure_record_the_last_result() {
    let mut state = CalibrationState::new();
    state.begin(CalibrationCommand::CommitToFlash);
    let committed = state.complete_commit(12);
    assert_eq!(committed, CalibrationCommandResult::Commit { commit_sequence: 12 });
    assert!(state.pending.is_none());
    assert!(state.fail_pending("gone".to_owned()).is_none());
    state.begin(CalibrationCommand::MeasureZero);
    let failed = state.fail_pending("gone".to_owned()).expect("pending fails");
    assert_eq!(
        failed,
        CalibrationCommandResult::Failed { command: CalibrationCommand::MeasureZero, message: "gone".to_owned() }
    );
}

fn device(mcu_model: u16, project_name: &str, contract_version: u16) -> DeviceInfo {
    DeviceInfo {
        protocol_version: 1,
        contract_version,
        build_hash: 0x3C31_3C66,
        descriptor_count: 0,
        firmware_name: "viewer2000".to_owned(),
        tick_hz: 20_000,
        capabilities: 0,
        project_name: project_name.to_owned(),
        build_time_utc: 0,
        mcu_model,
        scope_max_ch: 32,
        scope_block_ticks: 7,
        scope_ring_words: 0x7000,
    }
}

#[test]
fn default_baud_is_viewer2000_native_rate() {
    let hardware = HardwareState::default();

    assert_eq!(hardware.baud, DEFAULT_SERIAL_BAUD);
    assert_eq!(hardware.baud, 3_125_000);
}

#[test]
fn connection_settings_are_locked_while_connecting_or_connected() {
    let mut hardware = HardwareState::default();
    assert!(hardware.can_configure_connection());

    hardware.connecting = true;
    assert!(!hardware.can_configure_connection());

    hardware.connecting = false;
    hardware.connected = true;
    assert!(!hardware.can_configure_connection());
}

#[test]
fn device_summary_combines_mcu_model_and_tick_rate() {
    let hardware = HardwareState { info: Some(device(2, "", 1)), ..HardwareState::default() };

    assert_eq!(hardware.device_summary_text().as_deref(), Some("F28379D · 20kHz"));
}

#[test]
fn device_summary_does_not_repeat_project_identity() {
    let hardware = HardwareState { info: Some(device(1, "untitled", 14)), ..HardwareState::default() };

    assert_eq!(hardware.device_summary_text().as_deref(), Some("F28P65x · 20kHz"));
}

#[test]
fn performance_state_tracks_status_availability() {
    let mut performance = PerformanceState::default();
    assert!(!performance.is_available());
    assert_eq!(performance.sample(), None);

    performance.set_available(true);
    assert!(performance.is_available());
    assert_eq!(performance.sample(), None);

    performance.clear();
    assert!(!performance.is_available());
}

#[test]
fn performance_state_keeps_last_valid_status_sample() {
    let mut performance = PerformanceState::default();
    let sample = PerformanceSample {
        sequence: 7,
        cycle_budget: 2_000,
        load_average: 824,
        load_peak: 1_224,
        control_at_peak: 700,
        scope_at_peak: 300,
        latency_at_peak: 24,
        peak_tick: 99,
        violations: 0,
        overflows: 0,
    };
    performance.ingest_status(Some(sample));

    assert_eq!(sample.runtime_at_peak(), 200);
    assert_eq!(sample.headroom_at_peak(), 776);
    assert_eq!(performance.sample(), Some(sample));

    performance.ingest_status(None);
    assert_eq!(performance.sample(), Some(sample));

    let overloaded = PerformanceSample {
        sequence: 8,
        cycle_budget: 1_000,
        load_average: 930,
        load_peak: 1_530,
        control_at_peak: 800,
        scope_at_peak: 400,
        latency_at_peak: 30,
        peak_tick: 100,
        violations: 0,
        overflows: 0,
    };
    performance.ingest_status(Some(overloaded));
    let overloaded = performance.sample().expect("overloaded sample");
    assert_eq!(overloaded.headroom_at_peak(), 0);
    assert!(overloaded.has_violation());
}

#[test]
fn pending_system_command_completes_on_matching_status_sequence() {
    let mut hardware = HardwareState::default();
    let now = 5_000;
    hardware.begin_system_command(SystemCommand::Start, now);
    assert_eq!(hardware.pending_system_command_text().as_deref(), Some("Command: Start sending..."));

    assert!(hardware.accept_system_command(SystemCommand::Start, 42, now));
    assert_eq!(hardware.pending_system_command_text().as_deref(), Some("Command: Start pending seq 42"));

    let completed = hardware
        .complete_pending_system_command(&idle_status(Some(42), Some(0)))
        .expect("matching sequence completes");

    assert_eq!(completed.command, SystemCommand::Start);
    assert_eq!(completed.sequence, 42);
    assert_eq!(completed.result, 0);
    assert_eq!(hardware.pending_system_command, None);
    assert_eq!(hardware.last_system_command_text().as_deref(), Some("Last command: Start OK (seq 42)"));
}

#[test]
fn non_matching_status_sequence_does_not_complete_pending_command() {
    let mut hardware = HardwareState::default();
    let now = 5_000;
    hardware.begin_system_command(SystemCommand::Start, now);
    assert!(hardware.accept_system_command(SystemCommand::Start, 42, now));

    assert_eq!(hardware.complete_pending_system_command(&idle_status(Some(41), Some(0))), None);
    assert!(hardware.pending_system_command.is_some());
    assert_eq!(hardware.last_system_command, None);
}

#[test]
fn system_command_state_clear_drops_pending_and_last_command() {
    let mut hardware = HardwareState::default();
    let now = 5_000;
    hardware.begin_system_command(SystemCommand::Stop, now);
    assert!(hardware.accept_system_command(SystemCommand::Stop, 7, now));
    assert!(hardware.complete_pending_system_command(&idle_status(Some(7), Some(4))).is_some());
    hardware.begin_system_command(SystemCommand::ClearFault, now);

    hardware.clear_system_command_state();

    assert_eq!(hardware.pending_system_command, None);
    assert_eq!(hardware.last_system_command, None);
}

#[test]
fn pending_system_command_expires_when_status_ack_never_matches() {
    let mut hardware = HardwareState::default();
    let now = 5_000;
    hardware.begin_system_command(SystemCommand::ClearFault, now);
    assert!(hardware.accept_system_command(SystemCommand::ClearFault, 99, now));

    assert_eq!(hardware.expire_pending_system_command(now + 1_000), None);

    let expired = hardware
        .expire_pending_system_command(now + SYSTEM_COMMAND_TIMEOUT_MS)
        .expect("pending command expires");

    assert_eq!(expired.command, SystemCommand::ClearFault);
    assert_eq!(expired.sequence, Some(99));
    assert_eq!(hardware.pending_system_command, None);
}

#[test]
fn labels_name_known_open_loop_values() {
    assert_eq!(srm_open_loop_result_label(Some(0)), "NONE");
    assert_eq!(srm_open_loop_result_label(Some(1)), "OK");
    assert_eq!(srm_open_loop_result_label(Some(2)), "BAD_STATE");
    assert_eq!(srm_open_loop_result_label(Some(3)), "BAD_DC");
    assert_eq!(srm_open_loop_result_label(Some(4)), "EQEP");
    assert_eq!(srm_open_loop_result_label(Some(5)), "CANCELLED");
}

#[test]
fn health_reports_running_and_failure_values() {
    let running = SrmOpenLoopSnapshot { state: Some(1), result: Some(0), ..SrmOpenLoopSnapshot::default() };
    assert_eq!(running.status_health().expect("running health").level, SrmOpenLoopHealthLevel::Warning);

    let cancelled = SrmOpenLoopSnapshot { state: Some(0), result: Some(5), ..SrmOpenLoopSnapshot::default() };
    assert_eq!(cancelled.status_health(), None);

    let idle = SrmOpenLoopSnapshot { state: Some(0), result: Some(0), ..SrmOpenLoopSnapshot::default() };
    assert_eq!(idle.status_health(), None);
}

#[test]
fn command_ack_only_moves_workflow_to_running() {
    let now = 10_000;
    let mut state = SrmOpenLoopState::new();
    state.begin_workflow(now);
    state.begin_open_loop_command(now);
    assert!(state.accept(9, now));

    assert_eq!(state.phase, SrmOpenLoopPhase::Running);
    assert_eq!(state.command_sequence, Some(9));
    assert!(state.pending.is_none());
    assert_eq!(state.last_result, None);
}

#[test]
fn abz_ready_completes_workflow_and_requests_stop() {
    let now = 10_000;
    let mut state = SrmOpenLoopState::new();
    state.begin_workflow(now);
    state.begin_open_loop_command(now);
    assert!(state.accept(9, now));

    assert!(state
        .fail_if_open_loop_ended_before_abz_ready(SrmOpenLoopSnapshot {
            state: Some(1),
            result: Some(0),
            ..SrmOpenLoopSnapshot::default()
        })
        .is_none());

    let completed = state.complete_when_abz_ready().expect("ABZ ready completes");
    assert_eq!(completed, SrmOpenLoopCommandResult::Completed { sequence: Some(9), result: 1 });
    assert_eq!(state.phase, SrmOpenLoopPhase::StoppingSystem);
}

#[test]
fn stale_terminal_result_is_ignored_until_running_is_observed() {
    let now = 10_000;
    let mut state = SrmOpenLoopState::new();
    state.begin_workflow(now);
    state.begin_open_loop_command(now);
    assert!(state.accept(9, now));

    assert_eq!(
        state.fail_if_open_loop_ended_before_abz_ready(SrmOpenLoopSnapshot {
            state: Some(0),
            result: Some(5),
            ticks: Some(99),
            ..SrmOpenLoopSnapshot::default()
        }),
        None
    );
    assert_eq!(state.phase, SrmOpenLoopPhase::Running);

    assert!(state
        .fail_if_open_loop_ended_before_abz_ready(SrmOpenLoopSnapshot {
            state: Some(1),
            result: Some(0),
            ticks: Some(1),
            ..SrmOpenLoopSnapshot::default()
        })
        .is_none());
    assert!(matches!(
        state.fail_if_open_loop_ended_before_abz_ready(SrmOpenLoopSnapshot {
            state: Some(0),
            result: Some(5),
            ticks: Some(2),
            ..SrmOpenLoopSnapshot::default()
        }),
        Some(SrmOpenLoopCommandResult::Failed { .. })
    ));
}

#[test]
fn open_loop_ok_without_abz_ready_is_not_success() {
    let now = 10_000;
    let mut state = SrmOpenLoopState::new();
    state.begin_workflow(now);
    state.begin_open_loop_command(now);
    assert!(state.accept(9, now));
    assert!(state
        .fail_if_open_loop_ended_before_abz_ready(SrmOpenLoopSnapshot {
            state: Some(1),
            result: Some(0),
            ticks: Some(1),
            ..SrmOpenLoopSnapshot::default()
        })
        .is_none());

    assert!(matches!(
        state.fail_if_open_loop_ended_before_abz_ready(SrmOpenLoopSnapshot {
            state: Some(2),
            result: Some(1),
            ticks: Some(2),
            ..SrmOpenLoopSnapshot::default()
        }),
        Some(SrmOpenLoopCommandResult::Failed { .. })
    ));
    assert_eq!(state.phase, SrmOpenLoopPhase::StoppingSystem);
}

#[test]
fn srm_failure_message_names_the_result() {
    let mut state = SrmOpenLoopState::new();
    state.begin_workflow(0);
    state.begin_open_loop_command(0);
    assert!(state.accept(3, 0));
    assert!(state
        .fail_if_open_loop_ended_before_abz_ready(SrmOpenLoopSnapshot { state: Some(1), ..SrmOpenLoopSnapshot::default() })
        .is_none());
    let failed = state
        .fail_if_open_loop_ended_before_abz_ready(SrmOpenLoopSnapshot {
            state: Some(0),
            result: Some(3),
            ..SrmOpenLoopSnapshot::default()
        })
        .expect("bad DC fails the run");
    assert_eq!(
        failed,
        SrmOpenLoopCommandResult::Failed {
            message: "SRM Open-loop ABZ ended BAD_DC before ABZ Zeroing became ready".to_owned()
        }
    );
    assert_eq!(state.last_result, Some(failed));
}

#[test]
fn srm_acknowledgement_after_the_timeout_does_not_start_the_run() {
    let mut state = SrmOpenLoopState::new();
    state.begin_workflow(0);
    state.begin_open_loop_command(1_000);
    assert!(!state.accept(5, 4_000));
    assert_eq!(state.phase, SrmOpenLoopPhase::RequestingOpenLoop);
    assert_eq!(state.pending.map(|p| p.sequence), Some(Some(5)));
    let expired = state.expire_pending(4_000).expect("request expires");
    assert_eq!(expired, SrmOpenLoopCommandResult::Expired { sequence: Some(5) });
    assert_eq!(state.phase, SrmOpenLoopPhase::StoppingSystem);
    state.finish_stop();
    assert!(!state.active());
}

#[test]
fn autosave_waits_for_a_stable_debounce_window() {
    let start = 100_000;
    let mut state = WorkspaceAutosaveState::new();
    state.reset(1);

    assert!(!state.observe(start, 2));
    assert!(!state.observe(start + 1_000, 2));
    assert!(!state.observe(start + 1_500, 3));
    assert!(!state.observe(start + 3_000, 3));
    assert!(state.observe(start + 3_500, 3));

    state.reset(3);
    assert!(!state.observe(start + 4_000, 3));
    assert!(state.remaining(start + 4_000).is_none());
}

#[test]
fn autosave_reports_remaining_debounce_time() {
    let mut state = WorkspaceAutosaveState::new();
    assert!(!state.observe(0, 7));
    assert!(!state.observe(100, 8));
    assert_eq!(state.remaining(600), Some(1_500));
    assert_eq!(state.remaining(5_000), Some(0));
    assert!(!state.observe(700, 7));
    assert!(state.remaining(800).is_none());
}

#[test]
fn calibration_commands_are_refused_with_the_gate_reason() {
    let ready = CalibrationGateInput {
        connected: true,
        catalog_ready: true,
        has_cal: true,
        has_ct_zero_cal: true,
        can_write_calibration: true,
        system_state: Some(SystemState::Idle),
        system_command_pending: false,
        calibration_command_pending: false,
        measurement_done_ok: false,
    };
    let gate = calibration_gate(ready);
    assert_eq!(gate.refusal(CalibrationCommand::MeasureZero), None);
    assert_eq!(gate.refusal(CalibrationCommand::CommitToFlash), Some("No passing measurement available to commit"));
    let offline = calibration_gate(CalibrationGateInput { connected: false, ..ready });
    assert_eq!(offline.refusal(CalibrationCommand::MeasureZero), Some("Not connected"));
    assert_eq!(offline.refusal(CalibrationCommand::CommitToFlash), Some("Not connected"));
}
