use scope2000::capture::{
    block_matches_binding, capture_pre_samples, compare_wrapped_tick, cpu1_status_restarted, should_capture_on_system_start,
    should_force_capture, should_stop_on_system_stop, sort_blocks_by_start_tick, system_started_transition,
    system_stopped_transition, wave_has_active_or_pending_stop_target, AcquisitionSettings, WaveControlSettings,
    WaveState,
};
use scope2000::natural::natural_descriptor_cmp;
use scope2000::source::{DeviceStatus, ScopeBlock, ScopeMode, SystemState, VarDescriptor, VarRef, VarType};
use scope2000::tree::{build_descriptor_tree, build_descriptor_tree_filtered, DescriptorEntry, DescriptorScope};
use std::cmp::Ordering;

fn descriptor(name: &str) -> VarDescriptor {
    descriptor_with_kind(name, 0x0002)
}

fn descriptor_with_kind(name: &str, kind: u16) -> VarDescriptor {
    VarDescriptor { name: name.to_owned(), var: VarRef { addr: 0, ty: VarType::F32 }, kind, prescaler: 1 }
}

fn f32_block(start_tick: u32, block_seq: u16, bind_seq: u16, value: f32) -> ScopeBlock {
    ScopeBlock {
        start_tick,
        block_seq,
        flags: 0,
        sample_count: 1,
        channel_count: 1,
        bind_seq,
        stride_octets: 4,
        samples: value.to_le_bytes().to_vec(),
    }
}

fn status(tick: u32, cpu1_heartbeat: u32) -> DeviceStatus {
    DeviceStatus {
        system_state: SystemState::Idle,
        fault_code: 0,
        status_flags: 0,
        tick,
        cpu1_heartbeat,
        cpu2_heartbeat: 0,
        applied_seq: 0,
        calibration_result: 0,
        calibration_fail_index: 0,
        build_hash: 0,
        scope_mode: ScopeMode::Off,
        scope_flags: 0,
        command_ack_seq: Some(0),
        command_result: Some(0),
        performance: None,
        scope_state_seq: 0,
        scope_frozen_count: 0,
        scope_trigger_tick: 0,
        scope_bind_seq: 0,
    }
}

#[test]
fn stale_bind_sequence_is_discarded() {
    assert!(block_matches_binding(Some(7), 7));
    assert!(!block_matches_binding(Some(7), 6));
    assert!(!block_matches_binding(None, 7));
}

#[test]
fn system_stopped_transition_only_fires_when_leaving_running() {
    assert!(system_stopped_transition(Some(SystemState::Running), SystemState::Idle));
    assert!(system_stopped_transition(Some(SystemState::Running), SystemState::Fault));
    assert!(!system_stopped_transition(Some(SystemState::Running), SystemState::Running));
    assert!(!system_stopped_transition(Some(SystemState::Idle), SystemState::Idle));
    assert!(!system_stopped_transition(None, SystemState::Idle));
}

#[test]
fn system_started_transition_fires_on_entering_running() {
    assert!(system_started_transition(Some(SystemState::Idle), SystemState::Running));
    assert!(system_started_transition(None, SystemState::Running));
    assert!(!system_started_transition(Some(SystemState::Running), SystemState::Running));
    assert!(!system_started_transition(Some(SystemState::Idle), SystemState::Fault));
}

#[test]
fn capture_follow_system_start_requires_setting_pending_start_and_idle_wave() {
    let control = WaveControlSettings::default();
    assert!(should_capture_on_system_start(
        &control,
        Some(SystemState::Idle),
        SystemState::Running,
        true,
        &WaveState::default()
    ));

    assert!(!should_capture_on_system_start(
        &control,
        Some(SystemState::Idle),
        SystemState::Running,
        false,
        &WaveState::default()
    ));

    let disabled = WaveControlSettings { capture_on_system_start: false, ..WaveControlSettings::default() };
    assert!(!should_capture_on_system_start(
        &disabled,
        Some(SystemState::Idle),
        SystemState::Running,
        true,
        &WaveState::default()
    ));

    let active = WaveState { active: true, ..WaveState::default() };
    assert!(!should_capture_on_system_start(&control, Some(SystemState::Idle), SystemState::Running, true, &active));
}

#[test]
fn stop_follow_system_stop_requires_setting_and_active_or_pending_wave() {
    let control = WaveControlSettings::default();
    let active = WaveState { active: true, ..WaveState::default() };
    assert!(should_stop_on_system_stop(&control, Some(SystemState::Running), SystemState::Idle, &active));

    let disabled = WaveControlSettings { stop_on_system_stop: false, ..WaveControlSettings::default() };
    assert!(!should_stop_on_system_stop(&disabled, Some(SystemState::Running), SystemState::Idle, &active));
    assert!(!should_stop_on_system_stop(
        &control,
        Some(SystemState::Running),
        SystemState::Idle,
        &WaveState::default()
    ));
}

#[test]
fn cpu1_status_restart_requires_heartbeat_and_tick_rollback() {
    let previous = status(20_000, 100_000);

    assert!(cpu1_status_restarted(&previous, &status(100, 500)));
    assert!(!cpu1_status_restarted(&previous, &status(20_100, 500)));
    assert!(!cpu1_status_restarted(&previous, &status(100, 100_100)));
    assert!(!cpu1_status_restarted(&previous, &status(20_100, 100_100)));
}

#[test]
fn wave_stop_target_includes_active_restart_and_pending_start() {
    let descriptor = descriptor("signal");
    assert!(!wave_has_active_or_pending_stop_target(&WaveState::default()));

    let mut active = WaveState { active: true, ..WaveState::default() };
    assert!(wave_has_active_or_pending_stop_target(&active));

    active.active = false;
    active.restart_pending = Some(ScopeMode::CaptureArmed);
    assert!(wave_has_active_or_pending_stop_target(&active));

    active.restart_pending = None;
    active.pending_binding = vec![descriptor];
    assert!(wave_has_active_or_pending_stop_target(&active));
}

#[test]
fn capture_blocks_sort_by_wrapped_tick() {
    let mut blocks = vec![f32_block(10, 2, 1, 2.0), f32_block(u32::MAX - 5, 1, 1, 1.0), f32_block(20, 3, 1, 3.0)];

    sort_blocks_by_start_tick(&mut blocks);

    assert_eq!(blocks.iter().map(|block| block.start_tick).collect::<Vec<_>>(), vec![u32::MAX - 5, 10, 20]);
}

#[test]
fn sorting_keeps_blocks_with_equal_ticks_in_order() {
    let mut blocks = vec![f32_block(5, 1, 1, 0.0), f32_block(3, 2, 1, 0.0), f32_block(5, 3, 1, 0.0)];
    sort_blocks_by_start_tick(&mut blocks);
    assert_eq!(blocks.iter().map(|block| block.block_seq).collect::<Vec<_>>(), vec![2, 1, 3]);
}

#[test]
fn wrapped_tick_order_follows_the_signed_difference() {
    assert_eq!(compare_wrapped_tick(u32::MAX, 1), Ordering::Less);
    assert_eq!(compare_wrapped_tick(1, u32::MAX), Ordering::Greater);
    assert_eq!(compare_wrapped_tick(7, 7), Ordering::Equal);
}

#[test]
fn auto_capture_forces_every_armed_generation_but_explicit_trigger_does_not() {
    let auto = AcquisitionSettings::default();
    assert!(should_force_capture(ScopeMode::CaptureArmed, &auto));
    assert!(should_force_capture(ScopeMode::CaptureArmed, &auto));
    assert!(!should_force_capture(ScopeMode::CapturePost, &auto));

    let mut explicit = auto;
    explicit.trigger_source = Some("speed".to_owned());
    assert!(!should_force_capture(ScopeMode::CaptureArmed, &explicit));
}

#[test]
fn pre_trigger_samples_leave_one_sample_after_the_trigger() {
    assert_eq!(capture_pre_samples(1_000, 30), 300);
    assert_eq!(capture_pre_samples(1_000, 100), 999);
    assert_eq!(capture_pre_samples(1_000, 250), 999);
    assert_eq!(capture_pre_samples(0, 50), 0);
    assert_eq!(capture_pre_samples(7, 50), 3);
}

#[test]
fn descriptor_tree_groups_dot_names() {
    let tree = build_descriptor_tree(&[descriptor("plant.current_a"), descriptor("plant.current_b"), descriptor("status")]);
    assert_eq!(tree.len(), 2);
    let DescriptorEntry::Group { members, .. } = &tree[0] else {
        panic!("first entry should be a group");
    };
    assert_eq!(members.len(), 2);
}

#[test]
fn descriptor_tree_groups_array_indexes() {
    let tree = build_descriptor_tree(&[
        descriptor("offset[0]"),
        descriptor("offset[1]"),
        descriptor("offset[2]"),
        descriptor("trace.err[0]"),
        descriptor("trace.err[1]"),
    ]);

    let DescriptorEntry::Group { label, full_name, members } = &tree[0] else {
        panic!("offset should be a group");
    };
    assert_eq!(label, "offset");
    assert_eq!(full_name, "offset");
    assert_eq!(members.len(), 3);
    assert!(matches!(
        &members[0],
        DescriptorEntry::Var { label, full_name, .. } if label == "[0]" && full_name == "offset[0]"
    ));

    let DescriptorEntry::Group { members, .. } = &tree[1] else {
        panic!("trace should be a group");
    };
    let DescriptorEntry::Group { label, full_name, members } = &members[0] else {
        panic!("trace.err should be a group");
    };
    assert_eq!(label, "err");
    assert_eq!(full_name, "trace.err");
    assert_eq!(members.len(), 2);
}

#[test]
fn descriptor_tree_sorts_root_and_group_members_naturally() {
    let tree = build_descriptor_tree(&[
        descriptor("motor.z"),
        descriptor("10_global"),
        descriptor("motor.a10"),
        descriptor("alpha"),
        descriptor("2_global"),
        descriptor("motor.a2"),
        descriptor("motor.a1"),
        descriptor("1_global"),
    ]);

    let mut names = Vec::new();
    for entry in &tree {
        entry.flatten_names(&mut names);
    }

    assert_eq!(
        names,
        ["1_global", "2_global", "10_global", "alpha", "motor.a1", "motor.a2", "motor.a10", "motor.z"]
    );
}

#[test]
fn descriptor_tree_sorts_array_indexes_numerically() {
    let tree = build_descriptor_tree(&[
        descriptor("offset[10]"),
        descriptor("offset[2]"),
        descriptor("offset[0]"),
        descriptor("offset[1]"),
    ]);

    let DescriptorEntry::Group { members, .. } = &tree[0] else {
        panic!("offset should be a group");
    };
    let labels: Vec<_> = members.iter().map(DescriptorEntry::label).collect();

    assert_eq!(labels, ["[0]", "[1]", "[2]", "[10]"]);
}

#[test]
fn scoped_trees_separate_user_and_system_variables() {
    let descriptors =
        [descriptor_with_kind("sys_state", 0x0002), descriptor_with_kind("offset[0]", 0x0007), descriptor_with_kind("offset[1]", 0x0007)];
    let mut user = Vec::new();
    for entry in &build_descriptor_tree_filtered(&descriptors, DescriptorScope::User) {
        entry.leaf_indexes(&mut user);
    }
    let mut system = Vec::new();
    for entry in &build_descriptor_tree_filtered(&descriptors, DescriptorScope::System) {
        entry.flatten_names(&mut system);
    }
    assert_eq!(user, vec![1, 2]);
    assert_eq!(system, ["sys_state"]);
}

#[test]
fn natural_order_compares_numbers_by_value_and_letters_without_case() {
    assert_eq!(natural_descriptor_cmp(b"a2", b"a10"), Ordering::Less);
    assert_eq!(natural_descriptor_cmp(b"a10", b"a2"), Ordering::Greater);
    assert_eq!(natural_descriptor_cmp(b"Alpha", b"beta"), Ordering::Less);
    assert_eq!(natural_descriptor_cmp(b"x[2]", b"x[10]"), Ordering::Less);
    assert_eq!(natural_descriptor_cmp(b"007", b"7"), Ordering::Greater);
    assert_eq!(natural_descriptor_cmp(b"same", b"same"), Ordering::Equal);
}

#[test]
fn natural_order_chains_on_plain_names_but_not_through_array_indexes() {
    assert_eq!(natural_descriptor_cmp(b"motor2", b"motor10"), Ordering::Less);
    assert_eq!(natural_descriptor_cmp(b"motor10", b"motorB"), Ordering::Less);
    assert_eq!(natural_descriptor_cmp(b"motor2", b"motorB"), Ordering::Less);
    assert_eq!(natural_descriptor_cmp(b"x[5]", b"x5aaaa"), Ordering::Less);
    assert_eq!(natural_descriptor_cmp(b"x5aaaa", b"x5b"), Ordering::Less);
    assert_eq!(natural_descriptor_cmp(b"x5b", b"x[5]"), Ordering::Less);
}

#[test]
fn plain_root_entries_are_sorted_throughout() {
    let tree = build_descriptor_tree(&[
        descriptor("motorB"),
        descriptor("motor10"),
        descriptor("alpha"),
        descriptor("motor2"),
        descriptor("Beta"),
    ]);
    let labels: Vec<&str> = tree.iter().map(|entry| entry.label()).collect();
    assert_eq!(labels, vec!["alpha", "Beta", "motor2", "motor10", "motorB"]);
    for i in 0..labels.len() {
        for j in i + 1..labels.len() {
            assert_ne!(natural_descriptor_cmp(labels[i].as_bytes(), labels[j].as_bytes()), Ordering::Greater);
        }
    }
}
