use scope2000::state::hardware::PlugAction;
use scope2000::console::{status_message_expired, LogLevel};
use scope2000::display::{display_name, trim_decimal_zeros, trim_float_text, truncate_from_start};
use scope2000::inspector::{InspectorState, WatchReadSchedule, WATCH_READ_PERIOD_MS};
use scope2000::source::{SystemState, DeviceInfo, VarDescriptor, VarRef, VarType, CAP_ABZ_ZEROING, CAP_CAL, CAP_CT_ZERO_CAL};
use scope2000::state::abz_zeroing::{abz_zeroing_read_names, AbzZeroingState, ABZ_ZEROING_READ_PERIOD_MS};
use scope2000::state::calibration::{
    calibration_read_names, store_result_text, CalibrationState, CALIBRATION_READ_PERIOD_MS, CALIBRATION_STATUS_READ_PERIOD_MS,
};
use scope2000::state::hardware::{user_system_state_label, HardwareState};
use scope2000::tree::WatchEntry;

fn descriptor(name: &str, addr: u32) -> VarDescriptor {
    VarDescriptor { name: name.to_owned(), var: VarRef { addr, ty: VarType::U16 }, kind: 0, prescaler: 1 }
}

fn connected(capabilities: u32) -> HardwareState {
    let mut hardware = HardwareState::default();
    hardware.connected = true;
    hardware.info = Some(DeviceInfo {
        protocol_version: 1,
        contract_version: 1,
        build_hash: 1,
        descriptor_count: 0,
        firmware_name: String::new(),
        tick_hz: 1000,
        capabilities,
        project_name: String::new(),
        build_time_utc: 0,
        mcu_model: 1,
        scope_max_ch: 4,
        scope_block_ticks: 1,
        scope_ring_words: 64,
    });
    hardware
}

#[test]
fn capabilities_need_a_known_device() {
    let mut hardware = connected(CAP_CAL | CAP_ABZ_ZEROING);
    assert!(hardware.has_capability(CAP_CAL));
    assert!(!hardware.has_capability(CAP_CT_ZERO_CAL));
    hardware.info = None;
    assert!(!hardware.has_capability(CAP_CAL));
}

#[test]
fn calibration_read_lists() {
    let status = calibration_read_names(false);
    assert_eq!(status, vec![
        "v2k_cal.state",
        "v2k_cal.result",
        "v2k_cal.applied_src",
        "v2k_cal.store_valid",
        "v2k_cal.store_result",
        "v2k_cal.store_seq",
    ]);
    let detailed = calibration_read_names(true);
    assert_eq!(detailed.len(), 26);
    assert_eq!(detailed[3], "v2k_cal.zero_meas.ct1");
    assert_eq!(detailed[25], "v2k_cal.store_seq");
    assert_eq!(abz_zeroing_read_names(false), vec!["v2k_abz_zeroing.ready"]);
    assert_eq!(abz_zeroing_read_names(true).len(), 22);
}

#[test]
fn calibration_reads_follow_the_period_and_the_gates() {
    let mut inspector = InspectorState::default();
    inspector.set_descriptors(vec![descriptor("v2k_cal.result", 10), descriptor("v2k_cal.state", 11)]);
    let hardware = connected(CAP_CAL | CAP_CT_ZERO_CAL);
    let mut calibration = CalibrationState::new();
    calibration.next_read_ms = 100;

    assert!(calibration.poll_reads(&hardware, &inspector, true, false, 99).is_empty());
    assert_eq!(calibration.next_read_ms, 100);

    let reads = calibration.poll_reads(&hardware, &inspector, true, false, 100);
    assert_eq!(reads.iter().map(|r| r.descriptor_index).collect::<Vec<_>>(), vec![1, 0]);
    assert_eq!(calibration.next_read_ms, 100 + CALIBRATION_STATUS_READ_PERIOD_MS);

    let reads = calibration.poll_reads(&hardware, &inspector, true, true, 2000);
    assert_eq!(reads.len(), 2);
    assert_eq!(calibration.next_read_ms, 2000 + CALIBRATION_READ_PERIOD_MS);

    assert!(calibration.poll_reads(&hardware, &inspector, false, true, 5000).is_empty());
    let no_zero_cal = connected(CAP_CAL);
    assert!(calibration.poll_reads(&no_zero_cal, &inspector, true, true, 5000).is_empty());
    assert_eq!(calibration.next_read_ms, 2000 + CALIBRATION_READ_PERIOD_MS);
}

#[test]
fn abz_reads_stop_once_ready_unless_the_panel_is_open() {
    let mut inspector = InspectorState::default();
    inspector.set_descriptors(vec![descriptor("v2k_abz_zeroing.ready", 1), descriptor("v2k_abz_zeroing.state", 2)]);
    let hardware = connected(CAP_CAL | CAP_ABZ_ZEROING);
    let mut zeroing = AbzZeroingState::new();

    assert!(zeroing.poll_reads(&hardware, &inspector, true, false, Some(1), 0).is_empty());
    let reads = zeroing.poll_reads(&hardware, &inspector, true, false, Some(0), 0);
    assert_eq!(reads.iter().map(|r| r.descriptor_index).collect::<Vec<_>>(), vec![0]);
    let reads = zeroing.poll_reads(&hardware, &inspector, true, true, Some(1), 1000);
    assert_eq!(reads.iter().map(|r| r.descriptor_index).collect::<Vec<_>>(), vec![0, 1]);
    assert_eq!(zeroing.next_read_ms, 1000 + ABZ_ZEROING_READ_PERIOD_MS);
}

#[test]
fn watch_reads_add_the_dc_link_voltages() {
    let mut inspector = InspectorState::default();
    inspector.set_descriptors(vec![
        descriptor("speed", 1),
        descriptor("v2k_adc.voltage.vt2", 2),
        descriptor("v2k_adc.voltage.vt1", 3),
    ]);
    inspector.pinned = vec![0];
    inspector.watch_vars = vec![WatchEntry { var_name: "speed".to_owned(), descriptor_index: 0, write_buf: String::new(), write_selected: false }];
    assert_eq!(inspector.dc_voltage_descriptor_index(1), Some(2));
    assert_eq!(inspector.dc_voltage_descriptor_index(2), Some(1));
    assert_eq!(inspector.dc_voltage_descriptor_index(3), None);
    let voltages = inspector.dc_voltage_reads();
    assert_eq!(voltages.iter().map(|r| r.descriptor_index).collect::<Vec<_>>(), vec![2, 1]);

    let hardware = connected(CAP_CAL);
    let mut schedule = WatchReadSchedule::new();
    let batches = schedule.poll(&hardware, &inspector, false, 50);
    assert_eq!(batches.len(), 2);
    assert_eq!(batches[0].iter().map(|r| r.descriptor_index).collect::<Vec<_>>(), vec![0]);
    assert_eq!(batches[1].iter().map(|r| r.descriptor_index).collect::<Vec<_>>(), vec![2, 1]);
    assert!(!schedule.pending);
    assert_eq!(schedule.next_read_ms, 50 + WATCH_READ_PERIOD_MS);

    assert!(schedule.poll(&hardware, &inspector, false, 5000).is_empty());
    assert_eq!(schedule.poll(&hardware, &inspector, true, 5000).len(), 2);
    schedule.request();
    assert!(schedule.poll(&hardware, &inspector, false, 5001).is_empty());
    assert!(schedule.pending);
}

#[test]
fn user_system_state_labels() {
    assert_eq!(user_system_state_label(Some(SystemState::Running), true), "RUNNING");
    assert_eq!(user_system_state_label(Some(SystemState::Unknown(42)), true), "STATE 42");
    assert_eq!(user_system_state_label(None, true), "UNKNOWN");
    assert_eq!(user_system_state_label(None, false), "DISCONNECTED");
}

#[test]
fn names_are_cut_from_the_start() {
    assert_eq!(truncate_from_start("short", 24), "short");
    assert_eq!(truncate_from_start("abcdefghij", 8), "...fghij");
    assert_eq!(truncate_from_start("abcdefghij", 3), "hij");
    assert_eq!(display_name("v2k_abz_zeroing.npe.last_error_flags", true), "....last_error_flags");
    assert_eq!(display_name("v2k_abz_zeroing.npe.last_error_flags", false).chars().count(), 24);
}

#[test]
fn number_texts_lose_their_trailing_zeros() {
    assert_eq!(trim_decimal_zeros("1.2500".to_owned()), "1.25");
    assert_eq!(trim_decimal_zeros("3.000".to_owned()), "3");
    assert_eq!(trim_decimal_zeros("100".to_owned()), "100");
    assert_eq!(trim_decimal_zeros("-0.000".to_owned()), "0");
    assert_eq!(trim_float_text("1.23450e6".to_owned()), "1.2345e6");
    assert_eq!(trim_float_text("2.00000E-3".to_owned()), "2eE-3");
    assert_eq!(trim_float_text("0.5000".to_owned()), "0.5");
}

#[test]
fn pinned_names_are_inserted_in_order_once() {
    let mut inspector = InspectorState::default();
    inspector.set_descriptors(vec![descriptor("a", 1), descriptor("b", 2), descriptor("c", 3)]);
    inspector.pinned = vec![2];
    assert!(inspector.insert_pinned_names(0, vec!["b".to_owned(), "missing".to_owned(), "c".to_owned(), "a".to_owned()]));
    assert_eq!(inspector.pinned, vec![1, 0, 2]);
    assert!(!inspector.insert_pinned_names(9, vec!["a".to_owned()]));
    assert_eq!(inspector.pinned, vec![1, 0, 2]);
}

#[test]
fn store_result_needs_its_variable() {
    let mut inspector = InspectorState::default();
    assert_eq!(store_result_text(&inspector, Some(1)), "UNAVAILABLE");
    inspector.set_descriptors(vec![descriptor("v2k_cal.store_result", 9)]);
    assert_eq!(store_result_text(&inspector, Some(1)), "OK");
    assert_eq!(store_result_text(&inspector, Some(9)), "STORE_RESULT 9");
    assert_eq!(store_result_text(&inspector, None), "UNKNOWN");
}

#[test]
fn plug_button_and_status_message_rules() {
    let mut hardware = HardwareState::default();
    assert_eq!(hardware.plug_action(), PlugAction::Connect);
    assert_eq!(hardware.plug_hover_text(), "Connect");
    hardware.connecting = true;
    assert_eq!(hardware.plug_action(), PlugAction::CancelConnect);
    assert_eq!(hardware.plug_hover_text(), "Cancel");
    let mut hardware = connected(0);
    assert_eq!(hardware.plug_action(), PlugAction::Disconnect);
    assert_eq!(hardware.plug_hover_text(), "Disconnect");
    hardware.info = None;
    assert_eq!(hardware.plug_action(), PlugAction::Disconnect);

    assert!(status_message_expired(LogLevel::Warn, 5001));
    assert!(!status_message_expired(LogLevel::Warn, 5000));
    assert!(!status_message_expired(LogLevel::Info, 60_000));
    assert!(status_message_expired(LogLevel::Notice, 9_000));
}
