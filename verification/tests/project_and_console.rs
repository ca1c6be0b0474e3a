use scope2000::console::{log_abz_zeroing_result, log_calibration_result, LogBuffer, LogLevel, MAX_INFO_ENTRIES};
use scope2000::display::{
    dc_voltage_candidate_names, hex_u16_text, hex_u32_text, last_result_text, mode_name, parse_precision, ready_label,
    screenshot_path_for_csv, srm_workflow_text, u16_text, u32_text,
};
use scope2000::project::{
    normalize_project_name, project_key, trim_text, LocalProject, MutationPolicy, ProjectBinding, ProjectContext,
    ProjectRegistry, ProjectStatus, UnresolvedRefs, WorkspaceStore, UNTITLED_PROJECT,
};
use scope2000::release::{is_newer_version, normalize_version, update_status_for_release, GitHubRelease, UpdateCheckStatus};
use scope2000::source::{CalibrationCommand, DeviceInfo, ScopeMode};
use scope2000::state::abz_zeroing::AbzZeroingCommandResult;
use scope2000::state::calibration::{CalibrationCommandResult, CalibrationState};
use scope2000::state::srm_open_loop::SrmOpenLoopState;
use std::path::PathBuf;

fn device(name: &str) -> DeviceInfo {
    DeviceInfo {
        protocol_version: 6,
        contract_version: 13,
        build_hash: 1,
        descriptor_count: 0,
        firmware_name: "viewer2000".to_owned(),
        tick_hz: 20_000,
        capabilities: 0,
        project_name: name.to_owned(),
        build_time_utc: 0,
        mcu_model: 1,
        scope_max_ch: 16,
        scope_block_ticks: 10,
        scope_ring_words: 0x7000,
    }
}

fn context(local: Option<&str>, active: Option<&str>) -> ProjectContext {
    ProjectContext {
        registry: ProjectRegistry::default_with_version(),
        active_name: active.map(str::to_owned),
        local: local.map(|name| LocalProject {
            name: name.to_owned(),
            project_file: PathBuf::from("/.project"),
            build_time_utc: None,
            build_hash: None,
        }),
        unresolved: UnresolvedRefs::default(),
        show_missing: false,
        show_migration: false,
        show_project_manager: false,
        project_search: String::new(),
    }
}

#[test]
fn project_state_matrix_is_explicit() {
    assert_eq!(context(None, None).status(None), ProjectStatus::NoProject);
    assert_eq!(context(Some("B"), Some("B")).status(None), ProjectStatus::LocalUnverified);
    assert_eq!(context(None, Some("A")).status(None), ProjectStatus::CachedDisconnected);
    assert_eq!(context(None, Some("A")).status(Some(&device("A"))), ProjectStatus::FirmwareOnly);
    assert_eq!(context(Some("A"), Some("A")).status(Some(&device("A"))), ProjectStatus::Matched);
    assert_eq!(context(Some("B"), Some("B")).status(Some(&device("A"))), ProjectStatus::Conflict);
    assert_eq!(context(None, None).status(Some(&device("untitled"))), ProjectStatus::UntitledDemo);
}

#[test]
fn conflict_policy_is_read_only_safe() {
    let policy = MutationPolicy::for_status(ProjectStatus::Conflict);
    assert!(!policy.system_start);
    assert!(!policy.wave_start);
    assert!(!policy.calibration_write);
    assert!(!policy.edit_variable_refs);
}

#[test]
fn same_name_build_difference_is_visible_without_becoming_a_conflict() {
    let mut context = context(Some("A"), Some("A"));
    context.local.as_mut().unwrap().build_hash = Some(2);
    let device = device("A");

    assert_eq!(context.status(Some(&device)), ProjectStatus::Matched);
    assert!(context.build_mismatch(Some(&device)));
    assert!(context.policy(Some(&device)).calibration_write);
}

#[test]
fn unreported_firmware_hash_does_not_alarm() {
    let mut context = context(Some("A"), Some("A"));
    context.local.as_mut().unwrap().build_hash = Some(2);
    let mut device = device("A");
    device.build_hash = 0;

    assert_eq!(context.status(Some(&device)), ProjectStatus::Matched);
    assert!(!context.build_mismatch(Some(&device)));
}

#[test]
fn recompile_with_same_contract_still_alarms_on_build_time() {
    let mut context = context(Some("A"), Some("A"));
    let local = context.local.as_mut().unwrap();
    local.build_hash = Some(1);
    local.build_time_utc = Some(200);
    let mut device = device("A");
    device.build_hash = 1;
    device.build_time_utc = 100;

    assert!(context.build_mismatch(Some(&device)));
}

#[test]
fn matching_hash_and_build_time_does_not_alarm() {
    let mut context = context(Some("A"), Some("A"));
    let local = context.local.as_mut().unwrap();
    local.build_hash = Some(1);
    local.build_time_utc = Some(100);
    let mut device = device("A");
    device.build_hash = 1;
    device.build_time_utc = 100;

    assert!(!context.build_mismatch(Some(&device)));
}

#[test]
fn untitled_demo_allows_demo_start_but_not_calibration() {
    let policy = MutationPolicy::for_status(ProjectStatus::UntitledDemo);
    assert!(policy.system_start);
    assert!(policy.wave_start);
    assert!(!policy.calibration_write);
    assert!(policy.edit_variable_refs);
}

#[test]
fn project_name_validation_matches_baker_rules() {
    assert_eq!(normalize_project_name(" demo ").unwrap(), "demo");
    assert_eq!(normalize_project_name(" ").unwrap(), UNTITLED_PROJECT);
    assert!(normalize_project_name("电机").is_err());
    assert!(normalize_project_name(&"x".repeat(33)).is_err());
}

#[test]
fn project_name_error_explains_the_rule() {
    let error = normalize_project_name("tab\tinside").unwrap_err();
    assert_eq!(error.message(), "CCS project name must be 1-32 printable ASCII characters");
    assert_eq!(normalize_project_name(&"x".repeat(32)).unwrap().len(), 32);
    assert_eq!(trim_text("\u{2003} a b \n"), "a b");
}

#[test]
fn workspace_path_uses_project_name_bytes_not_build_hash() {
    let path = WorkspaceStore::workspace_path("phase4-demo").unwrap();
    assert!(path.ends_with("7068617365342d64656d6f/workspace.toml"));
}

#[test]
fn project_key_is_the_hex_of_the_name_bytes() {
    assert_eq!(project_key("phase4-demo"), "7068617365342d64656d6f");
    assert_eq!(project_key("é"), "c3a9");
    assert_eq!(project_key(""), "");
}

#[test]
fn project_titles_name_the_project_and_its_standing() {
    assert_eq!(context(None, None).title(None), "No Project");
    assert_eq!(context(Some("B"), Some("B")).title(None), "B · Unverified");
    assert_eq!(context(None, Some("A")).title(None), "A · Disconnected");
    assert_eq!(context(None, None).title(Some(&device("untitled"))), "untitled · Non-persistent Demo");
    assert_eq!(context(None, Some("A")).title(Some(&device("fw"))), "fw");
    assert!(context(Some("A"), None).can_reconcile(Some(&device("A"))));
    assert!(!context(Some("B"), None).can_reconcile(Some(&device("A"))));
}

#[test]
fn recent_projects_are_most_recent_first_and_capped() {
    let mut registry = ProjectRegistry::default();
    let mut evicted = Vec::new();
    for index in 0..105 {
        evicted.extend(registry.touch(&format!("project-{index}")));
    }

    assert_eq!(registry.recent_projects.len(), 100);
    assert_eq!(registry.recent_projects.first().unwrap(), "project-104");
    assert_eq!(registry.recent_projects.last().unwrap(), "project-5");
    assert_eq!(evicted, (0..5).map(|i| format!("project-{i}")).collect::<Vec<_>>());
    assert!(!registry.projects.iter().any(|(name, _)| name == "project-0"));

    registry.touch("project-50");
    assert_eq!(registry.recent_projects.first().unwrap(), "project-50");
    assert_eq!(registry.recent_projects.len(), 100);
    assert!(registry.touch(UNTITLED_PROJECT).is_empty());
}

#[test]
fn registry_remove_and_unbind_keep_other_projects() {
    let mut registry = ProjectRegistry::default();
    registry.touch("a");
    registry.touch("b");
    registry.projects[0].1 = ProjectBinding {
        project_file: Some(PathBuf::from("/a/.project")),
        verified: true,
        build_time_utc: Some(5),
        build_hash: Some(6),
    };
    registry.unbind("a");
    assert!(registry.projects[0].1.project_file.is_none());
    assert!(!registry.projects[0].1.verified);
    registry.remove("b");
    assert_eq!(registry.recent_names(), vec!["a".to_owned()]);
    assert_eq!(registry.projects.len(), 1);
}

#[test]
fn registry_only_auto_opens_verified_matching_bindings() {
    let mut registry = ProjectRegistry::default();
    registry.projects.push((
        "demo".to_owned(),
        ProjectBinding { project_file: Some(PathBuf::from("/demo/.project")), verified: false, build_time_utc: Some(9), build_hash: None },
    ));
    let load = |file: &PathBuf| {
        Some(LocalProject { name: "demo".to_owned(), project_file: file.clone(), build_time_utc: None, build_hash: None })
    };

    assert!(registry.valid_local("demo", true, load).is_none());
    let local = registry.valid_local("demo", false, load).expect("unverified binding opens on request");
    assert_eq!(local.build_time_utc, Some(9));

    registry.projects[0].1.verified = true;
    assert!(registry.valid_local("demo", true, load).is_some());

    let renamed = |file: &PathBuf| {
        Some(LocalProject { name: "renamed".to_owned(), project_file: file.clone(), build_time_utc: None, build_hash: None })
    };
    assert!(registry.valid_local("demo", true, renamed).is_none());
}

#[test]
fn unresolved_references_are_counted_across_kinds() {
    let refs = UnresolvedRefs {
        pinned: vec!["a".to_owned()],
        watch: vec!["b".to_owned(), "c".to_owned()],
        wave: vec![],
        trigger: vec!["d".to_owned()],
    };
    assert_eq!(refs.count(), 4);
}

#[test]
fn info_entries_are_trimmed_to_the_latest_500() {
    let mut log = LogBuffer::default();

    for index in 0..600 {
        log.push(LogLevel::Info, format!("entry {index}"));
    }

    assert_eq!(log.logs.len(), MAX_INFO_ENTRIES);
    assert_eq!(log.logs.front().map(|entry| entry.message.as_str()), Some("entry 100"));
    assert_eq!(log.logs.back().map(|entry| entry.message.as_str()), Some("entry 599"));
}

#[test]
fn warn_and_error_entries_are_not_trimmed() {
    let mut log = LogBuffer::default();

    for index in 0..600 {
        log.push(LogLevel::Warn, format!("warn {index}"));
        log.push(LogLevel::Error, format!("error {index}"));
    }

    assert_eq!(log.logs.len(), 1200);
    assert_eq!(log.logs.front().map(|entry| entry.message.as_str()), Some("warn 0"));
    assert_eq!(log.logs.back().map(|entry| entry.message.as_str()), Some("error 599"));
}

#[test]
fn info_trim_preserves_warning_entries() {
    let mut log = LogBuffer::default();

    log.push(LogLevel::Warn, "first warning".to_owned());
    for index in 0..600 {
        log.push(LogLevel::Info, format!("entry {index}"));
    }

    assert_eq!(log.logs.len(), MAX_INFO_ENTRIES + 1);
    assert_eq!(log.logs.front().map(|entry| entry.message.as_str()), Some("first warning"));
    assert_eq!(log.visible_entry_count(LogLevel::Info), MAX_INFO_ENTRIES + 1);
    assert_eq!(log.visible_entry_count(LogLevel::Warn), 1);
}

#[test]
fn notices_and_problems_become_the_status_message() {
    let mut log = LogBuffer::default();
    log.push(LogLevel::Info, "quiet".to_owned());
    assert!(log.status_message.is_none());
    log.push(LogLevel::Notice, "saved".to_owned());
    assert_eq!(log.status_message.as_ref().map(|m| m.text.as_str()), Some("saved"));
    log.push(LogLevel::Debug, "detail".to_owned());
    assert_eq!(log.status_message.as_ref().map(|m| m.level), Some(LogLevel::Notice));
    assert_eq!(log.visible_entries(LogLevel::Notice).len(), 1);
    assert_eq!(LogLevel::Warn.label(), "WRN");
    log.clear();
    assert!(log.logs.is_empty());
}

#[test]
fn command_outcomes_are_logged_with_their_severity() {
    let mut log = LogBuffer::default();
    log_calibration_result(&CalibrationCommandResult::Measure { sequence: 4, result: 0 }, &mut log);
    log_calibration_result(
        &CalibrationCommandResult::Failed { command: CalibrationCommand::CommitToFlash, message: "busy".to_owned() },
        &mut log,
    );
    log_abz_zeroing_result(&AbzZeroingCommandResult::Completed { sequence: 8, result: 2 }, &mut log);
    let lines: Vec<_> = log.logs.iter().map(|entry| (entry.level, entry.message.clone())).collect();
    assert_eq!(
        lines,
        vec![
            (LogLevel::Notice, "Calibration Measure Zero completed OK as sequence 4".to_owned()),
            (LogLevel::Warn, "Calibration Commit to Flash failed: busy".to_owned()),
            (LogLevel::Warn, "ABZ Zeroing request completed BAD_STATE as sequence 8".to_owned()),
        ]
    );
}

#[test]
fn update_status_uses_release_url_when_newer() {
    let status = update_status_for_release(
        "0.1.0",
        GitHubRelease {
            tag_name: "v0.2.0".to_owned(),
            name: Some("Scope2000 0.2".to_owned()),
            html_url: "https://github.com/elechou/Scope2000/releases/tag/v0.2.0".to_owned(),
        },
    );

    match status {
        UpdateCheckStatus::UpdateAvailable(update) => {
            assert_eq!(update.version, "v0.2.0");
            assert_eq!(update.title, "Scope2000 0.2");
            assert!(update.url.ends_with("/v0.2.0"));
        }
        other => panic!("expected update, got {other:?}"),
    }
}

#[test]
fn version_compare_accepts_plain_and_v_prefixed_tags() {
    assert!(is_newer_version("0.1.0", "v0.2.0"));
    assert!(is_newer_version("0.1.0", "0.1.1"));
}

#[test]
fn version_compare_rejects_equal_older_and_non_semver_tags() {
    assert!(!is_newer_version("0.1.0", "v0.1.0"));
    assert!(!is_newer_version("0.1.0", "v0.0.9"));
    assert!(!is_newer_version("0.1.0", "latest"));
}

#[test]
fn release_title_falls_back_to_the_tag_and_versions_normalize() {
    assert_eq!(normalize_version("  V1.2.3 "), "1.2.3");
    assert_eq!(normalize_version("1.0"), "1.0");
    let status = update_status_for_release(
        "0.1.0",
        GitHubRelease { tag_name: "v0.3.0".to_owned(), name: Some("  ".to_owned()), html_url: "u".to_owned() },
    );
    assert!(matches!(status, UpdateCheckStatus::UpdateAvailable(ref u) if u.title == "v0.3.0"));
    let same = update_status_for_release(
        "v0.3.0",
        GitHubRelease { tag_name: "0.3.0".to_owned(), name: None, html_url: "u".to_owned() },
    );
    assert_eq!(same, UpdateCheckStatus::UpToDate);
}

#[test]
fn screenshot_path_uses_csv_stem_when_enabled() {
    let csv_path = PathBuf::from("scope_20260708_120000.csv");

    assert_eq!(screenshot_path_for_csv(&csv_path, true), Some(PathBuf::from("scope_20260708_120000.png")));
    assert_eq!(screenshot_path_for_csv(&csv_path, false), None);
}

#[test]
fn precision_specs_parse_with_optional_dot_and_suffix() {
    assert_eq!(parse_precision(".3f"), Ok(3));
    assert_eq!(parse_precision("12"), Ok(12));
    assert_eq!(parse_precision("+4f"), Ok(4));
    assert_eq!(parse_precision(".xf"), Err("Invalid format spec: x".to_owned()));
    assert_eq!(parse_precision(""), Err("Invalid format spec: ".to_owned()));
    assert_eq!(parse_precision("99999999999999999999999"), Err("Invalid format spec: 99999999999999999999999".to_owned()));
}

#[test]
fn panel_texts_render_counters_and_registers() {
    assert_eq!(ready_label(Some(0)), "NO");
    assert_eq!(ready_label(Some(1)), "YES");
    assert_eq!(ready_label(Some(7)), "READY 7");
    assert_eq!(ready_label(None), "UNKNOWN");
    assert_eq!(u16_text(Some(42)), "42");
    assert_eq!(u32_text(None), "-");
    assert_eq!(hex_u16_text(Some(0xBEEF)), "0xBEEF");
    assert_eq!(hex_u32_text(Some(0x12)), "0x00000012");
    assert_eq!(mode_name(ScopeMode::CaptureArmed), "capture");
    assert_eq!(dc_voltage_candidate_names(2), vec!["v2k_adc.voltage.vt2"]);
    assert!(dc_voltage_candidate_names(3).is_empty());
}

#[test]
fn workflow_and_calibration_lines_describe_progress() {
    let mut srm = SrmOpenLoopState::new();
    assert_eq!(srm_workflow_text(&srm), None);
    srm.begin_workflow(0);
    assert_eq!(srm_workflow_text(&srm).as_deref(), Some("SRM Open-loop ABZ: starting Viewer2000..."));

    let mut calibration = CalibrationState::new();
    assert_eq!(last_result_text(&calibration), None);
    calibration.last_result = Some(CalibrationCommandResult::Measure { sequence: 3, result: 5 });
    assert_eq!(last_result_text(&calibration).as_deref(), Some("Measure Zero CAL_FAILED (seq 3)"));
    calibration.last_result = Some(CalibrationCommandResult::Commit { commit_sequence: 9 });
    assert_eq!(last_result_text(&calibration).as_deref(), Some("Commit to Flash OK (seq 9)"));
}

#[test]
fn device_build_time_is_unknown_when_unreported() {
    let info = device("A");
    assert_eq!(info.build_time_local_text(), None);
    assert_eq!(info.build_time_display_text(), "Built Time unknown");
    let mut built = device("A");
    built.build_time_utc = 1_781_913_600;
    assert!(built.build_time_display_text().starts_with("Built Time "));
    let local = LocalProject { name: "A".to_owned(), project_file: PathBuf::from("/p"), build_time_utc: None, build_hash: None };
    assert_eq!(local.build_time_display_text(), "Not available");
}

#[test]
fn log_and_build_times_have_their_pattern_shape() {
    let mut log = LogBuffer::default();
    log.push(LogLevel::Info, "shaped".to_owned());
    let time: Vec<char> = log.logs.back().map(|entry| entry.time.chars().collect()).unwrap_or_default();
    assert!(time.len() >= 20);
    let tail = &time[time.len() - 16..];
    assert_eq!(tail[0], '-');
    assert_eq!(tail[3], '-');
    assert_eq!(tail[6], ',');
    assert_eq!(tail[7], ' ');
    assert_eq!(tail[10], ':');
    assert_eq!(tail[13], ':');
    for i in [1, 2, 4, 5, 8, 9, 11, 12, 14, 15] {
        assert!(tail[i].is_ascii_digit());
    }

    let mut built = device("A");
    built.build_time_utc = 1_781_913_600;
    let text: Vec<char> = built.build_time_local_text().map(|t| t.chars().collect()).unwrap_or_default();
    assert_eq!(text.len(), 16);
    assert_eq!((text[4], text[7], text[10], text[13]), ('-', '-', ' ', ':'));
    assert!(text.iter().enumerate().all(|(i, c)| [4, 7, 10, 13].contains(&i) || c.is_ascii_digit()));
}
