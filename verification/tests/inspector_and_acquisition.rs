use scope2000::acquisition::{
    check_scope_binding, restart_refusal, should_rearm, wave_start_text,
    check_acquisition_start, check_system_command, check_variable_write, chunk_reads, collect_time_series_vars,
    dc_voltage_read_indexes, rearm_config, resolve_scope_binding, scope_config, stop_config, trigger_slot,
    trigger_source_bound, write_batch_error, zeroing_start_block_reason,
};
use scope2000::capture::{capture_frame_rows, CaptureFrame, capture_row_stride, capture_row_ticks, capture_window, sort_blocks_by_start_tick, AcquisitionSettings};
use scope2000::inspector::{sort_indexes, InspectorState, WatchRef};
use scope2000::project::{latest_build, project_name_from_xml, report_identity, BuildReport, ProjectFileError};
use scope2000::source::{
    ScopeBlock, ScopeMode, TriggerEdge, ValueRead, VarDescriptor, VarRef, VarType, CAP_CAPTURE_FORCE, CAP_NATIVE_BLOCK,
    CAP_PRE_TRIGGER, CAP_SCOPE_CAPTURE, CAP_SCOPE_STREAM, DAQ_FLAG_TRIGGER_DISABLED, NO_CAPTURE_ACK,
};
use scope2000::template::{classify_token, fill_template, template_tokens, unknown_variable_text, TemplateToken};
use scope2000::tree::WatchEntry;

fn descriptor(name: &str) -> VarDescriptor {
    descriptor_with_kind(name, 0)
}

fn descriptor_with_kind(name: &str, kind: u16) -> VarDescriptor {
    VarDescriptor { name: name.to_owned(), var: VarRef { addr: 0, ty: VarType::F32 }, kind, prescaler: 1 }
}

fn scope_descriptor(name: &str, ty: VarType) -> VarDescriptor {
    VarDescriptor { name: name.to_owned(), var: VarRef { addr: 0x1000, ty }, kind: 0x0002, prescaler: 1 }
}

fn watch_ref(name: &str) -> WatchRef {
    WatchRef { var_name: name.to_owned(), ..WatchRef::default() }
}

fn f32_block_samples(start_tick: u32, block_seq: u16, bind_seq: u16, values: &[f32]) -> ScopeBlock {
    let mut samples = Vec::new();
    for value in values {
        samples.extend_from_slice(&value.to_le_bytes());
    }
    ScopeBlock {
        start_tick,
        block_seq,
        flags: 0,
        sample_count: values.len() as u16,
        channel_count: 1,
        bind_seq,
        stride_octets: 4,
        samples,
    }
}

#[test]
fn inspector_separates_user_and_system_trees() {
    let mut state = InspectorState::default();
    state.set_descriptors(vec![
        descriptor_with_kind("sys_state", 0x0002),
        descriptor_with_kind("offset[0]", 0x0007),
        descriptor_with_kind("offset[1]", 0x0007),
    ]);

    let mut user_names = Vec::new();
    for entry in &state.entries {
        entry.flatten_names(&mut user_names);
    }
    let mut system_names = Vec::new();
    for entry in &state.system_entries {
        entry.flatten_names(&mut system_names);
    }

    assert_eq!(user_names, ["offset[0]", "offset[1]"]);
    assert_eq!(system_names, ["sys_state"]);
    assert!(state.is_system_variable_name("sys_state"));
    assert!(state.is_system_variable_index(0));
    assert_eq!(state.system_var_names(), ["sys_state"]);
    assert!(!state.is_system_variable_name("offset[0]"));
}

#[test]
fn read_batches_include_watched_indexes() {
    let mut state = InspectorState::default();
    state.set_descriptors(vec![descriptor("a"), descriptor("b"), descriptor("c"), descriptor("d")]);
    state.pinned = vec![0, 1, 3];
    let batches = state.read_batches();
    assert_eq!(batches.len(), 1);
    let indexes: Vec<_> = batches[0].iter().map(|read| read.descriptor_index).collect();
    assert_eq!(indexes, vec![0, 1, 3]);
}

#[test]
fn set_descriptors_drops_missing_workspace_vars() {
    let mut state = InspectorState::default();
    state.set_descriptors(vec![descriptor("a"), descriptor("b")]);
    state.pinned = vec![0, 1];
    state.watch_vars.push(WatchEntry {
        var_name: "b".to_owned(),
        descriptor_index: 1,
        write_buf: "1.0".to_owned(),
        write_selected: false,
    });
    state.set_descriptors(vec![descriptor("a")]);
    assert_eq!(state.pinned, vec![0]);
    assert!(state.watch_vars.is_empty());
}

#[test]
fn pins_and_watches_follow_their_names_into_a_new_catalog() {
    let mut state = InspectorState::default();
    state.set_descriptors(vec![descriptor("a"), descriptor("b"), descriptor("c")]);
    state.pinned = vec![2, 0];
    state.watch_vars.push(WatchEntry {
        var_name: "b".to_owned(),
        descriptor_index: 1,
        write_buf: "2.5".to_owned(),
        write_selected: true,
    });
    state.set_descriptors(vec![descriptor("c"), descriptor("b"), descriptor("a")]);
    assert_eq!(state.pinned, vec![0, 2]);
    assert_eq!(state.watch_vars.len(), 1);
    assert_eq!(state.watch_vars[0].descriptor_index, 1);
    assert_eq!(state.watch_vars[0].write_buf, "2.5");
    assert!(state.watch_vars[0].write_selected);
    assert_eq!(state.values, vec![None, None, None]);
}

#[test]
fn watched_indexes_are_sorted_and_read_in_batches_of_thirty_two() {
    let mut state = InspectorState::default();
    let names: Vec<String> = (0..40).map(|i| format!("v{i:02}")).collect();
    state.set_descriptors(names.iter().map(|n| descriptor(n)).collect());
    state.pinned = (0..35).rev().collect();
    state.pinned.push(99);
    state.watch_vars.push(WatchEntry { var_name: "v37".to_owned(), descriptor_index: 37, write_buf: String::new(), write_selected: false });
    state.watch_vars.push(WatchEntry { var_name: "v03".to_owned(), descriptor_index: 3, write_buf: String::new(), write_selected: false });
    let watched = state.watched_indexes();
    let mut expected: Vec<usize> = (0..35).collect();
    expected.push(37);
    expected.push(99);
    assert_eq!(watched, expected);
    let batches = state.read_batches();
    assert_eq!(batches.len(), 2);
    assert_eq!(batches[0].len(), 32);
    assert_eq!(batches[1].iter().map(|r| r.descriptor_index).collect::<Vec<_>>(), vec![32, 33, 34, 37]);
    assert_eq!(sort_indexes(vec![3, 1, 2, 1]), vec![1, 1, 2, 3]);
}

#[test]
fn raw_values_are_stored_by_index() {
    let mut state = InspectorState::default();
    state.set_descriptors(vec![descriptor("a"), descriptor("b")]);
    state.update_values(&[1, 7, 0], vec![10, 20]);
    assert_eq!(state.values, vec![None, Some(10)]);
    assert_eq!(state.raw_value_by_name("b"), Some(10));
    assert_eq!(state.raw_value_by_name("a"), None);
    assert_eq!(state.index_by_name("b"), Some(1));
    assert_eq!(state.index_by_name("z"), None);
    assert_eq!(state.var_names(), vec!["a".to_owned(), "b".to_owned()]);
    let mut params = InspectorState::default();
    params.set_descriptors(vec![descriptor_with_kind("p", 0x0001), descriptor("q")]);
    assert!(params.param_write_for(0, 0x3F80_0000).is_some());
    assert!(params.param_write_for(1, 0).is_none());
    assert!(params.param_write_for(5, 0).is_none());
    params.clear();
    assert!(params.descriptors.is_empty());
}

#[test]
fn workspace_restore_retains_missing_variables_as_unresolved() {
    let mut inspector = InspectorState::default();
    inspector.set_descriptors(vec![descriptor("present.pin"), descriptor("present.watch")]);
    let pinned = vec![watch_ref("present.pin"), watch_ref("missing.pin")];
    let watch = vec![watch_ref("present.watch"), watch_ref("missing.watch")];
    let (missing_pinned, missing_watch) = inspector.restore_watch_refs(&pinned, &watch);
    assert_eq!(inspector.pinned, vec![0]);
    assert_eq!(missing_pinned, vec!["missing.pin"]);
    assert_eq!(missing_watch, vec!["missing.watch"]);
}

#[test]
fn workspace_watch_refs_preserve_write_inputs() {
    let mut inspector = InspectorState::default();
    inspector.set_descriptors(vec![descriptor("present.watch")]);
    let watch = vec![WatchRef { var_name: "present.watch".to_owned(), write_buf: "12.5".to_owned(), write_selected: true }];

    let (missing_pinned, missing_watch) = inspector.restore_watch_refs(&[], &watch);

    assert!(missing_pinned.is_empty());
    assert!(missing_watch.is_empty());
    assert_eq!(inspector.watch_vars.len(), 1);
    assert_eq!(inspector.watch_vars[0].write_buf, "12.5");
    assert!(inspector.watch_vars[0].write_selected);

    let (_, saved_watch) = inspector.snapshot_watch_refs(&[], &[]);
    assert_eq!(saved_watch, watch);
}

#[test]
fn complete_catalog_replacement_preserves_refs_that_become_missing() {
    let mut inspector = InspectorState::default();
    inspector.set_descriptors(vec![descriptor("kept.pin"), descriptor("kept.watch")]);
    let initial_pinned = vec![watch_ref("kept.pin")];
    let initial_watch = vec![watch_ref("kept.watch")];
    let unresolved = inspector.restore_watch_refs(&initial_pinned, &initial_watch);
    let (saved_pinned, saved_watch) = inspector.snapshot_watch_refs(&unresolved.0, &unresolved.1);

    inspector.set_descriptors(Vec::new());
    let (missing_pinned, missing_watch) = inspector.restore_watch_refs(&saved_pinned, &saved_watch);

    assert_eq!(missing_pinned, vec!["kept.pin"]);
    assert_eq!(missing_watch, vec!["kept.watch"]);
}

#[test]
fn snapshot_appends_unresolved_names_once() {
    let mut inspector = InspectorState::default();
    inspector.set_descriptors(vec![descriptor("a")]);
    inspector.pinned = vec![0];
    let (pins, watches) = inspector.snapshot_watch_refs(
        &["a".to_owned(), "b".to_owned(), "b".to_owned()],
        &["w".to_owned(), "w".to_owned()],
    );
    assert_eq!(pins, vec![watch_ref("a"), watch_ref("b")]);
    assert_eq!(watches, vec![watch_ref("w")]);
}

#[test]
fn acquisition_start_checks_policy_connection_and_capabilities() {
    let all = CAP_NATIVE_BLOCK | CAP_SCOPE_STREAM | CAP_SCOPE_CAPTURE | CAP_PRE_TRIGGER | CAP_CAPTURE_FORCE;
    let ok = check_acquisition_start(true, true, all, ScopeMode::CaptureArmed, false);
    assert_eq!(ok.refusal, None);
    assert_eq!(ok.warning, None);
    assert_eq!(
        check_acquisition_start(false, true, all, ScopeMode::Stream, false).refusal,
        Some("Wave start blocked by project safety state")
    );
    assert_eq!(check_acquisition_start(true, false, all, ScopeMode::Stream, false).refusal, Some("Not connected"));
    assert_eq!(
        check_acquisition_start(true, true, 0, ScopeMode::Stream, false).refusal,
        Some("NATIVE_BLOCK capability is not available")
    );
    assert_eq!(
        check_acquisition_start(true, true, CAP_NATIVE_BLOCK, ScopeMode::Stream, false).refusal,
        Some("SCOPE_STREAM capability is not available")
    );
    assert_eq!(
        check_acquisition_start(true, true, CAP_NATIVE_BLOCK, ScopeMode::CaptureArmed, true).refusal,
        Some("SCOPE_CAPTURE capability is not available")
    );
    let no_force = check_acquisition_start(true, true, CAP_NATIVE_BLOCK | CAP_SCOPE_CAPTURE, ScopeMode::CaptureArmed, false);
    assert_eq!(no_force.warning, Some("Device does not declare PRE_TRIGGER capability"));
    assert_eq!(no_force.refusal, Some("CAPTURE_FORCE capability is not available"));
    let triggered = check_acquisition_start(true, true, CAP_NATIVE_BLOCK | CAP_SCOPE_CAPTURE, ScopeMode::CaptureArmed, true);
    assert_eq!(triggered.refusal, None);
}

#[test]
fn auto_capture_configuration_disables_the_trigger_and_explicit_trigger_does_not() {
    let binding = vec![scope_descriptor("signal", VarType::F32)];
    let auto = AcquisitionSettings { record_points: 500, prescaler: 2, ..AcquisitionSettings::default() };
    let config = scope_config(ScopeMode::CaptureArmed, &binding, &auto);
    assert_eq!(config.flags, DAQ_FLAG_TRIGGER_DISABLED);
    assert_eq!(config.record_points, 500);
    assert_eq!(config.ack_capture_id, NO_CAPTURE_ACK);
    assert_eq!(config.prescaler, 2);

    let rearm = rearm_config(&binding, &auto, 42);
    assert_eq!(rearm.mode, ScopeMode::CaptureArmed);
    assert_eq!(rearm.ack_capture_id, 42);
    assert_eq!(rearm.flags, DAQ_FLAG_TRIGGER_DISABLED);

    let explicit = AcquisitionSettings { trigger_source: Some("signal".to_owned()), ..auto.clone() };
    let config = scope_config(ScopeMode::CaptureArmed, &binding, &explicit);
    assert_eq!(config.trigger_slot, 0);
    assert_eq!(config.flags, 0);

    let stream = scope_config(ScopeMode::Stream, &binding, &explicit);
    assert_eq!(stream.record_points, 0);

    let stop = stop_config(7);
    assert_eq!(stop.mode, ScopeMode::Off);
    assert_eq!(stop.flags, 0);
    assert_eq!(stop.prescaler, 7);
    assert_eq!(stop.trigger_edge, TriggerEdge::Rise);
    assert_eq!(stop.ack_capture_id, NO_CAPTURE_ACK);
}

#[test]
fn scope_binding_keeps_scope_variables_up_to_the_channel_limit() {
    let descriptors = vec![
        scope_descriptor("a", VarType::F32),
        descriptor("plain"),
        scope_descriptor("b", VarType::U16),
        scope_descriptor("c", VarType::I32),
    ];
    let names: Vec<String> = ["c", "plain", "missing", "a", "b"].iter().map(|s| s.to_string()).collect();
    let binding = resolve_scope_binding(&names, &descriptors, 2);
    assert_eq!(binding.iter().map(|d| d.name.as_str()).collect::<Vec<_>>(), vec!["c", "a"]);
    assert_eq!(trigger_slot(&binding, &Some("a".to_owned())), 1);
    assert_eq!(trigger_slot(&binding, &Some("zz".to_owned())), 0);
    assert!(trigger_source_bound(&binding, &None));
    assert!(!trigger_source_bound(&binding, &Some("b".to_owned())));
    assert_eq!(capture_row_stride(&binding), 8);
}

#[test]
fn time_series_variables_are_collected_once_in_order() {
    let panes = vec![
        vec!["a".to_owned(), "b".to_owned()],
        vec![],
        vec!["b".to_owned(), "c".to_owned(), "a".to_owned()],
    ];
    assert_eq!(collect_time_series_vars(&panes), vec!["a".to_owned(), "b".to_owned(), "c".to_owned()]);
}

#[test]
fn write_and_command_gates() {
    assert_eq!(check_variable_write(false, true, true), Some("Variable write blocked by project safety state"));
    assert_eq!(check_variable_write(true, false, true), Some("CAL capability is not available"));
    assert_eq!(check_variable_write(true, true, true), None);
    assert_eq!(write_batch_error(16), None);
    assert_eq!(
        write_batch_error(17).as_deref(),
        Some("Parameter commit rejected: 17 writes exceed the native batch limit of 16")
    );
    assert_eq!(check_system_command(true, true, true), Some("A system command is already pending"));
    assert_eq!(check_system_command(false, false, true), Some("Not connected"));
    assert_eq!(check_system_command(false, true, false), Some("SYSTEM_CMD capability is not available"));
    assert_eq!(check_system_command(false, true, true), None);
    assert_eq!(zeroing_start_block_reason(false, false), Some("Start requires Current Zeroing and ABZ Zeroing ready"));
    assert_eq!(zeroing_start_block_reason(false, true), Some("Start requires Current Zeroing ready"));
    assert_eq!(zeroing_start_block_reason(true, false), Some("Start requires ABZ Zeroing ready"));
    assert_eq!(zeroing_start_block_reason(true, true), None);
    assert_eq!(dc_voltage_read_indexes(Some(4), Some(4)), vec![4]);
    assert_eq!(dc_voltage_read_indexes(Some(4), Some(5)), vec![4, 5]);
    assert_eq!(dc_voltage_read_indexes(None, Some(5)), vec![5]);
    assert!(dc_voltage_read_indexes(None, None).is_empty());
}

#[test]
fn read_backs_are_chunked_by_the_read_limit() {
    let reads: Vec<ValueRead> = (0..70)
        .map(|i| ValueRead { descriptor_index: i, var: VarRef { addr: i as u32, ty: VarType::U32 } })
        .collect();
    let chunks = chunk_reads(&reads);
    assert_eq!(chunks.iter().map(|c| c.len()).collect::<Vec<_>>(), vec![32, 32, 6]);
    assert_eq!(chunks[2][0].descriptor_index, 64);
    assert!(chunk_reads(&[]).is_empty());
}

#[test]
fn capture_window_trims_to_requested_points_around_trigger() {
    let mut blocks = vec![
        f32_block_samples(10, 2, 3, &[10.0, 11.0, 12.0, 13.0, 14.0, 15.0, 16.0, 17.0, 18.0, 19.0]),
        f32_block_samples(0, 1, 3, &[0.0, 1.0, 2.0, 3.0, 4.0, 5.0, 6.0, 7.0, 8.0, 9.0]),
        f32_block_samples(20, 3, 3, &[20.0, 21.0, 22.0, 23.0, 24.0]),
    ];
    sort_blocks_by_start_tick(&mut blocks);
    let ticks = capture_row_ticks(&blocks, 1, 4, 1).expect("blocks match the binding");
    assert_eq!(ticks, (0..25).collect::<Vec<u32>>());
    assert_eq!(capture_window(&ticks, 15, 20, 50), Ok((5, 25)));
    assert_eq!(
        capture_window(&ticks, 15, 40, 50),
        Err("capture frame has only 15 pre-trigger sample(s), expected 20".to_owned())
    );
    assert_eq!(
        capture_window(&ticks, 15, 30, 10),
        Err("capture frame has 13 sample(s) after trimming start, expected 30".to_owned())
    );
    assert_eq!(capture_window(&ticks, 99, 20, 50), Err("capture trigger tick was not present in drained blocks".to_owned()));
    assert_eq!(capture_window(&ticks, 15, 0, 50), Err("capture record point count is zero".to_owned()));
}

#[test]
fn capture_rows_follow_the_prescaler_and_wrap() {
    let block = f32_block_samples(0xFFFF_FFFE, 1, 1, &[1.0, 2.0, 3.0]);
    assert_eq!(capture_row_ticks(&[block.clone()], 1, 4, 2), Ok(vec![0xFFFF_FFFE, 0, 2]));
    assert_eq!(capture_row_ticks(&[block.clone()], 1, 4, 0), Ok(vec![0xFFFF_FFFE, 0xFFFF_FFFF, 0]));
    assert_eq!(capture_row_ticks(&[block.clone()], 2, 4, 1), Err("block channel count does not match active binding"));
    assert_eq!(capture_row_ticks(&[block.clone()], 1, 8, 1), Err("block stride does not match active binding"));
    let mut short = block;
    short.samples.pop();
    assert_eq!(capture_row_ticks(&[short], 1, 4, 1), Err("block payload length is invalid"));
}

#[test]
fn filename_templates_resolve_placeholders_in_order() {
    let template = "scope_{$DateTime}_{$speed:.2f}_{$open";
    let tokens = template_tokens(template);
    assert_eq!(tokens, vec!["DateTime".to_owned(), "speed:.2f".to_owned()]);
    let filled = fill_template(template, &["20260708_120000".to_owned(), "12.50".to_owned()]);
    assert_eq!(filled, "scope_20260708_120000_12.50_{$open");
    assert_eq!(fill_template("plain {name}", &[]), "plain {name}");
    assert_eq!(classify_token("Date"), TemplateToken::Date);
    assert_eq!(classify_token("Time"), TemplateToken::Time);
    assert_eq!(classify_token("DateTime"), TemplateToken::DateTime);
    assert_eq!(
        classify_token("speed:.2f"),
        TemplateToken::Variable { name: "speed".to_owned(), precision: Some(".2f".to_owned()) }
    );
    assert_eq!(classify_token("speed"), TemplateToken::Variable { name: "speed".to_owned(), precision: None });
    assert_eq!(unknown_variable_text("x"), "Unknown variable: x");
}

#[test]
fn project_files_name_their_project() {
    let xml = "<?xml version=\"1.0\"?><projectDescription><name> motor_ctrl </name><comment/></projectDescription>";
    assert_eq!(project_name_from_xml(xml), Ok("motor_ctrl".to_owned()));
    assert_eq!(project_name_from_xml("<projectDescription></projectDescription>"), Ok("untitled".to_owned()));
    assert_eq!(project_name_from_xml("<projectDescription>"), Err(ProjectFileError::InvalidXml));
    let long = format!("<projectDescription><name>{}</name></projectDescription>", "x".repeat(33));
    assert!(matches!(project_name_from_xml(&long), Err(ProjectFileError::Name(_))));
}

#[test]
fn newest_matching_build_report_wins() {
    let report = BuildReport { project_name: "demo".to_owned(), build_time_utc: 100, build_hash: Some(7) };
    assert_eq!(report_identity(&report, "demo"), Some((100, Some(7))));
    assert_eq!(report_identity(&report, "other"), None);
    let zero = BuildReport { build_time_utc: 0, ..report.clone() };
    assert_eq!(report_identity(&zero, "demo"), None);
    assert_eq!(latest_build(&[]), None);
    assert_eq!(latest_build(&[5, 9, 3, 9, 1]), Some(3));
    assert_eq!(latest_build(&[5]), Some(0));
}

#[test]
fn named_reads_follow_the_catalog() {
    let mut state = InspectorState::default();
    state.set_descriptors(vec![descriptor("v2k_cal.state"), descriptor("v2k_cal.result"), descriptor("v2k_cal.state")]);
    let reads = state.reads_for_names(&["v2k_cal.result", "missing", "v2k_cal.state"]);
    assert_eq!(reads.iter().map(|r| r.descriptor_index).collect::<Vec<_>>(), vec![1, 0]);
}

#[test]
fn scope_binding_needs_variables_and_the_trigger_source() {
    let binding = vec![scope_descriptor("speed", VarType::F32), scope_descriptor("current", VarType::I16)];
    assert_eq!(check_scope_binding(&[], &None), Some("Add scope-capable variables to a Time Series pane first".to_owned()));
    assert_eq!(check_scope_binding(&binding, &None), None);
    assert_eq!(check_scope_binding(&binding, &Some("current".to_owned())), None);
    assert_eq!(
        check_scope_binding(&binding, &Some("torque".to_owned())),
        Some("Trigger source is not in the active scope binding: torque".to_owned())
    );
    assert_eq!(wave_start_text(ScopeMode::CaptureArmed, 2), "Wave start: capture, 2 channel(s)");
    assert_eq!(wave_start_text(ScopeMode::Stream, 1), "Wave start: stream, 1 channel(s)");
    assert!(should_rearm(true, true, true, false, 1));
    assert!(!should_rearm(true, true, true, true, 1));
    assert!(!should_rearm(true, true, true, false, 0));
    assert!(!should_rearm(false, true, true, false, 1));
    assert_eq!(restart_refusal(false), Some("Wave restart blocked by project safety state"));
    assert_eq!(restart_refusal(true), None);
}

/// The (time, value) points a capture frame draws: the shown rows of the
/// single f32 channel, timed relative to the trigger.
fn frame_points(blocks: &[ScopeBlock], ticks: &[u32], start: usize, end: usize, trigger_tick: u32, tick_hz: u32) -> Vec<(f64, f64)> {
    let values: Vec<f32> = blocks
        .iter()
        .flat_map(|b| b.samples.chunks(4).map(|c| f32::from_le_bytes([c[0], c[1], c[2], c[3]])).collect::<Vec<_>>())
        .collect();
    (start..end)
        .map(|i| ((ticks[i] as i64 - trigger_tick as i64) as f64 / tick_hz as f64, values[i] as f64))
        .collect()
}

#[test]
fn capture_frame_redraw_replaces_existing_plot_data() {
    let binding = vec![scope_descriptor("signal", VarType::F32)];
    let mut blocks = vec![f32_block_samples(20, 2, 3, &[2.0]), f32_block_samples(10, 1, 3, &[1.0])];
    let rows = match capture_frame_rows(&mut blocks, &binding, &AcquisitionSettings::default(), 15) {
        CaptureFrame::Rows(rows) => rows,
        other => panic!("expected rows, got {:?}", other),
    };
    assert_eq!(rows.warning.as_deref(), Some("capture trigger tick was not present in drained blocks"));
    let points = frame_points(&blocks, &rows.ticks, rows.start, rows.end, 15, 10);
    assert_eq!(points.iter().map(|p| p.0).collect::<Vec<_>>(), vec![-0.5, 0.5]);
    assert_eq!(points.iter().map(|p| p.1).collect::<Vec<_>>(), vec![1.0, 2.0]);
}

#[test]
fn capture_frame_redraw_trims_to_requested_points_around_trigger() {
    let binding = vec![scope_descriptor("signal", VarType::F32)];
    let mut blocks = vec![
        f32_block_samples(0, 1, 3, &[0.0, 1.0, 2.0, 3.0, 4.0, 5.0, 6.0, 7.0, 8.0, 9.0]),
        f32_block_samples(10, 2, 3, &[10.0, 11.0, 12.0, 13.0, 14.0, 15.0, 16.0, 17.0, 18.0, 19.0]),
        f32_block_samples(20, 3, 3, &[20.0, 21.0, 22.0, 23.0, 24.0]),
    ];
    let settings = AcquisitionSettings { record_points: 20, pre_trigger_percent: 50, ..AcquisitionSettings::default() };
    let rows = match capture_frame_rows(&mut blocks, &binding, &settings, 15) {
        CaptureFrame::Rows(rows) => rows,
        other => panic!("expected rows, got {:?}", other),
    };
    assert!(rows.warning.is_none());
    let points = frame_points(&blocks, &rows.ticks, rows.start, rows.end, 15, 1);
    assert_eq!(points.len(), 20);
    assert_eq!(points.first().map(|p| p.0), Some(-10.0));
    assert_eq!(points.last().map(|p| p.0), Some(9.0));
    assert_eq!(points.first().map(|p| p.1), Some(5.0));
    assert_eq!(points.last().map(|p| p.1), Some(24.0));
}

#[test]
fn workspace_paths_below_a_configuration_directory() {
    let user = std::path::PathBuf::from("/home/u/.config");
    let config = scope2000::project::config_dir_in(&user);
    assert_eq!(config, std::path::PathBuf::from("/home/u/.config/scope2000"));
    let path = scope2000::project::WorkspaceStore::workspace_path_in(&config, "phase4-demo");
    assert!(path.ends_with("7068617365342d64656d6f/workspace.toml"));
    assert_eq!(path, std::path::PathBuf::from("/home/u/.config/scope2000/projects/7068617365342d64656d6f/workspace.toml"));
    assert_eq!(
        scope2000::project::WorkspaceStore::project_dir_in(&config, "ab"),
        std::path::PathBuf::from("/home/u/.config/scope2000/projects/6162")
    );
    assert_eq!(
        scope2000::project::ProjectRegistry::path_in(&config),
        std::path::PathBuf::from("/home/u/.config/scope2000/projects.toml")
    );
}

#[test]
fn wave_start_turns_the_scope_off_binds_the_channels_then_starts() {
    let binding = vec![scope_descriptor("a", VarType::F32), scope_descriptor("b", VarType::U16)];
    let settings = AcquisitionSettings { record_points: 300, prescaler: 4, ..AcquisitionSettings::default() };
    let commands = scope2000::acquisition::wave_start_commands(ScopeMode::CaptureArmed, &binding, &settings);
    assert_eq!(commands.len(), 3);
    match &commands[0] {
        scope2000::source::CatalogCommand::ConfigureScope(config) => {
            assert_eq!(config.mode, ScopeMode::Off);
            assert_eq!(config.prescaler, 4);
        }
        other => panic!("expected the scope to be turned off first, got {:?}", other),
    }
    match &commands[1] {
        scope2000::source::CatalogCommand::BindChannels { channels } => {
            assert_eq!(channels.len(), 2);
            assert_eq!(channels[0], binding[0].var);
            assert_eq!(channels[1], binding[1].var);
        }
        other => panic!("expected the channels to be bound second, got {:?}", other),
    }
    match &commands[2] {
        scope2000::source::CatalogCommand::ConfigureScope(config) => {
            assert_eq!(config.mode, ScopeMode::CaptureArmed);
            assert_eq!(config.record_points, 300);
            assert_eq!(config.flags, DAQ_FLAG_TRIGGER_DISABLED);
        }
        other => panic!("expected the scope to be started last, got {:?}", other),
    }
}

#[test]
fn stored_files_are_read_only_in_the_current_format() {
    let current = scope2000::project::REGISTRY_FORMAT_VERSION;
    assert!(scope2000::project::ProjectRegistry::accepts_format(current));
    assert!(!scope2000::project::ProjectRegistry::accepts_format(current + 1));
    assert!(!scope2000::project::ProjectRegistry::accepts_format(0));
    let workspace = scope2000::project::WORKSPACE_FORMAT_VERSION;
    assert!(scope2000::project::WorkspaceStore::accepts_file(workspace, "motor", "motor"));
    assert!(!scope2000::project::WorkspaceStore::accepts_file(workspace, "motor2", "motor"));
    assert!(!scope2000::project::WorkspaceStore::accepts_file(workspace + 1, "motor", "motor"));
}

#[test]
fn a_refused_wave_start_sends_nothing_and_keeps_the_wave() {
    let descriptors = vec![scope_descriptor("a", VarType::F32), scope_descriptor("b", VarType::F32)];
    let names = vec!["a".to_owned(), "b".to_owned()];
    let settings = AcquisitionSettings { record_points: 200, prescaler: 3, ..AcquisitionSettings::default() };
    let caps = CAP_NATIVE_BLOCK | CAP_SCOPE_CAPTURE | CAP_PRE_TRIGGER | CAP_CAPTURE_FORCE;
    let mut wave = scope2000::capture::WaveState::default();
    wave.pending_binding = vec![descriptor("old")];

    match scope2000::acquisition::start_wave(&mut wave, ScopeMode::CaptureArmed, true, false, caps, &names, &descriptors, 8, &settings) {
        scope2000::acquisition::WaveStart::Refused { warning, reason } => {
            assert_eq!(warning, None);
            assert_eq!(reason, "Not connected");
        }
        other => panic!("expected a refusal, got {:?}", other),
    }
    assert_eq!(wave.pending_binding.len(), 1);
    assert_eq!(wave.pending_binding[0].name, "old");

    let unbound = AcquisitionSettings { trigger_source: Some("zzz".to_owned()), ..settings.clone() };
    match scope2000::acquisition::start_wave(&mut wave, ScopeMode::CaptureArmed, true, true, caps, &names, &descriptors, 8, &unbound) {
        scope2000::acquisition::WaveStart::Refused { reason, .. } => {
            assert_eq!(reason, "Trigger source is not in the active scope binding: zzz");
        }
        other => panic!("expected a refusal, got {:?}", other),
    }
    assert_eq!(wave.pending_binding[0].name, "old");

    match scope2000::acquisition::start_wave(&mut wave, ScopeMode::CaptureArmed, true, true, caps, &names, &descriptors, 8, &settings) {
        scope2000::acquisition::WaveStart::Started { warning, commands, text } => {
            assert_eq!(warning, None);
            assert_eq!(commands.len(), 3);
            assert_eq!(text, "Wave start: capture, 2 channel(s)");
        }
        other => panic!("expected a start, got {:?}", other),
    }
    let bound: Vec<&str> = wave.pending_binding.iter().map(|d| d.name.as_str()).collect();
    assert_eq!(bound, vec!["a", "b"]);
}

#[test]
fn capture_frames_that_do_not_match_the_binding_are_shown_block_by_block() {
    let binding = vec![scope_descriptor("a", VarType::F32), scope_descriptor("b", VarType::F32)];
    let mut blocks = vec![f32_block_samples(20, 2, 3, &[2.0]), f32_block_samples(10, 1, 3, &[1.0])];
    match capture_frame_rows(&mut blocks, &binding, &AcquisitionSettings::default(), 10) {
        CaptureFrame::BlockByBlock { warning } => {
            assert_eq!(warning, "block channel count does not match active binding");
        }
        other => panic!("expected a block-by-block frame, got {:?}", other),
    }
    assert_eq!(blocks[0].start_tick, 10);
    assert_eq!(blocks[1].start_tick, 20);
}
