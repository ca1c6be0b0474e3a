use scope2000::project::{contains_text, project_matches_search};
use scope2000::project::{RefKind, UnresolvedRefs};
use scope2000::project::{
    active_project_name, choose_local_project, firmware_project_plan, local_binding, FirmwareProjectPlan, LocalProject,
    LocalProjectChoice, ProjectBinding, RecentOpen, active_after_delete, check_open_recent, leaves_untitled_project,
    ProjectRegistry, MAX_RECENT_PROJECTS,
};

fn registry(names: &[&str], recent: &[&str]) -> ProjectRegistry {
    let mut r = ProjectRegistry::default_with_version();
    for name in names {
        r.projects.push((name.to_string(), ProjectBinding::default()));
    }
    r.recent_projects = recent.iter().map(|s| s.to_string()).collect();
    r
}

fn names(r: &ProjectRegistry) -> Vec<String> {
    r.projects.iter().map(|(n, _)| n.clone()).collect()
}

#[test]
fn loaded_registry_drops_invalid_names_and_repairs_the_recent_list() {
    let mut r = registry(&["alpha", " padded ", "untitled", "beta", "gamma"], &["gamma", "ghost", "gamma", "alpha"]);
    let evicted = r.sanitize(None);
    assert_eq!(r.recent_projects, vec!["gamma", "alpha", "beta"]);
    assert_eq!(names(&r), vec!["alpha", "beta", "gamma"]);
    assert_eq!(evicted, vec![" padded ", "untitled"]);
}

#[test]
fn protected_project_moves_to_the_front() {
    let mut r = registry(&["a", "b", "c"], &["a", "b", "c"]);
    let evicted = r.sanitize(Some("c"));
    assert!(evicted.is_empty());
    assert_eq!(r.recent_projects, vec!["c", "a", "b"]);
    let mut r = registry(&["a", "b"], &["a", "b"]);
    r.sanitize(Some("zzz"));
    assert_eq!(r.recent_projects, vec!["a", "b"]);
}

#[test]
fn loaded_registry_keeps_at_most_one_hundred_projects() {
    let all: Vec<String> = (0..105).map(|i| format!("p{i:03}")).collect();
    let refs: Vec<&str> = all.iter().map(String::as_str).collect();
    let mut r = registry(&refs, &[]);
    let evicted = r.sanitize(Some("p104"));
    assert_eq!(r.recent_projects.len(), MAX_RECENT_PROJECTS);
    assert_eq!(r.recent_projects[0], "p104");
    assert_eq!(r.projects.len(), MAX_RECENT_PROJECTS);
    assert_eq!(evicted, vec!["p099", "p100", "p101", "p102", "p103"]);
}

#[test]
fn reopened_project_comes_from_a_valid_last_name() {
    assert_eq!(active_project_name(Some("  motor ")), Some("motor".to_owned()));
    assert_eq!(active_project_name(Some("untitled")), None);
    assert_eq!(active_project_name(Some("   ")), None);
    assert_eq!(active_project_name(Some("bad\u{7f}name")), None);
    assert_eq!(active_project_name(None), None);
}

#[test]
fn binding_replaces_or_registers() {
    let mut r = registry(&["a", "b"], &["b"]);
    let local = LocalProject {
        name: "b".to_owned(),
        project_file: std::path::PathBuf::from("/work/b/.project"),
        build_time_utc: Some(7),
        build_hash: Some(0xAB),
    };
    r.bind("b", local_binding(&local));
    assert_eq!(names(&r), vec!["a", "b"]);
    let bound = &r.projects[1].1;
    assert!(bound.verified);
    assert_eq!(bound.project_file.as_deref(), Some(std::path::Path::new("/work/b/.project")));
    assert_eq!((bound.build_time_utc, bound.build_hash), (Some(7), Some(0xAB)));
    assert!(!r.projects[0].1.verified);

    r.bind("c", ProjectBinding::default());
    assert_eq!(names(&r), vec!["a", "b", "c"]);
    assert_eq!(r.recent_projects, vec!["b"]);
}

#[test]
fn firmware_project_plans() {
    let bind = firmware_project_plan("motor", Some("motor"), Some("motor"), true);
    assert_eq!(bind, FirmwareProjectPlan {
        bind_local: true,
        activate: None,
        find_bound_local: false,
        offer_migration: true,
        refresh_local: true,
    });
    let other_local = firmware_project_plan("motor", Some("pump"), None, true);
    assert!(!other_local.bind_local && !other_local.offer_migration && other_local.refresh_local);
    let switch = firmware_project_plan("motor", None, Some("pump"), false);
    assert_eq!(switch.activate.as_deref(), Some("motor"));
    assert!(switch.find_bound_local && !switch.offer_migration);
    let untitled = firmware_project_plan("untitled", None, Some("untitled"), true);
    assert_eq!(untitled, FirmwareProjectPlan {
        bind_local: false,
        activate: None,
        find_bound_local: false,
        offer_migration: false,
        refresh_local: false,
    });
}

fn local(name: &str, file: &str) -> LocalProject {
    LocalProject {
        name: name.to_owned(),
        project_file: std::path::PathBuf::from(file),
        build_time_utc: Some(100),
        build_hash: Some(5),
    }
}

#[test]
fn choosing_a_local_project() {
    let mut r = registry(&["motor"], &[]);
    assert_eq!(
        choose_local_project(&r, &local("pump", "/p/.project"), Some("motor")),
        Err("Cannot bind CCS project pump to cached project motor".to_owned())
    );
    assert_eq!(choose_local_project(&r, &local("pump", "/p/.project"), None), Ok(LocalProjectChoice::Accept));
    assert_eq!(choose_local_project(&r, &local("motor", "/m/.project"), Some("motor")), Ok(LocalProjectChoice::ConfirmRebind));
    r.bind("motor", local_binding(&local("motor", "/m/.project")));
    assert_eq!(choose_local_project(&r, &local("motor", "/m/.project"), None), Ok(LocalProjectChoice::Accept));
    assert_eq!(choose_local_project(&r, &local("motor", "/other/.project"), None), Ok(LocalProjectChoice::ConfirmRebind));
    assert_eq!(choose_local_project(&r, &local("untitled", "/u/.project"), None), Ok(LocalProjectChoice::Accept));
}

#[test]
fn accepting_a_local_project_verifies_by_device_or_binding() {
    let mut r = registry(&[], &[]);
    assert!(!r.accept_local(&local("motor", "/m/.project"), None));
    assert_eq!(names(&r), vec!["motor"]);
    assert!(!r.projects[0].1.verified);
    assert!(r.accept_local(&local("motor", "/m/.project"), Some("motor")));
    assert!(r.projects[0].1.verified);
    assert!(r.accept_local(&local("motor", "/m/.project"), None));
    assert!(!r.accept_local(&local("motor", "/elsewhere/.project"), None));
    assert_eq!(r.projects.len(), 1);
    assert!(!r.accept_local(&local("untitled", "/u/.project"), Some("untitled")));
    assert_eq!(r.projects.len(), 1);
}

#[test]
fn recent_projects_open_unless_firmware_only_elsewhere() {
    let r = registry(&["motor", "pump"], &["motor", "pump"]);
    assert_eq!(check_open_recent(&r, "ghost", None, false), RecentOpen::NotRegistered);
    assert_eq!(check_open_recent(&r, "motor", None, false), RecentOpen::Open);
    assert_eq!(check_open_recent(&r, "motor", Some("motor"), false), RecentOpen::Open);
    assert_eq!(check_open_recent(&r, "motor", Some("pump"), true), RecentOpen::Open);
    assert_eq!(
        check_open_recent(&r, "motor", Some("pump"), false),
        RecentOpen::Refused("Cannot open firmware-only cache motor while connected to pump".to_owned())
    );
}

#[test]
fn deleting_or_disconnecting_picks_what_stays_active() {
    assert_eq!(active_after_delete(Some("motor")), Some("motor".to_owned()));
    assert_eq!(active_after_delete(Some("untitled")), None);
    assert_eq!(active_after_delete(None), None);
    assert!(leaves_untitled_project(Some("untitled"), false));
    assert!(!leaves_untitled_project(Some("untitled"), true));
    assert!(!leaves_untitled_project(Some("motor"), false));
    assert!(!leaves_untitled_project(None, false));
}

#[test]
fn unresolved_references_are_removed_by_kind() {
    let mut refs = UnresolvedRefs {
        pinned: vec!["a".to_owned(), "b".to_owned()],
        watch: vec!["a".to_owned()],
        wave: vec![],
        trigger: vec!["a".to_owned()],
    };
    refs.remove(RefKind::Pinned, "a");
    assert_eq!(refs.pinned, vec!["b"]);
    assert_eq!(refs.watch, vec!["a"]);
    refs.remove(RefKind::Trigger, "a");
    assert!(refs.trigger.is_empty());
    assert_eq!(refs.count(), 2);
}

#[test]
fn project_search_ignores_case() {
    assert!(contains_text("motor_ctrl", "or_c"));
    assert!(!contains_text("motor", "motors"));
    assert!(contains_text("abc", ""));
    assert!(project_matches_search("", "anything", "Not indexed"));
    assert!(project_matches_search("MOTOR", "Motor_Ctrl", "Not indexed"));
    assert!(project_matches_search("ccs/work", "pump", "/home/CCS/Work/.project"));
    assert!(!project_matches_search("fan", "pump", "/home/ccs/.project"));
}

#[test]
fn project_file_name_is_the_direct_name_child() {
    let xml = "<?xml version=\"1.0\"?><projectDescription><projects><name>dep</name></projects>\
               <name>motor</name></projectDescription>";
    assert_eq!(scope2000::project::project_name_from_xml(xml), Ok("motor".to_owned()));
    let nested = "<workspace><projectDescription><comment/><name>pump</name></projectDescription></workspace>";
    assert_eq!(scope2000::project::project_name_from_xml(nested), Ok("pump".to_owned()));
}

#[test]
fn touch_keeps_the_binding_of_the_used_project() {
    let mut r = registry(&["a", "b"], &["b"]);
    r.bind("a", local_binding(&local("a", "/a/.project")));
    let evicted = r.touch("a");
    assert!(evicted.is_empty());
    assert_eq!(names(&r), vec!["a", "b"]);
    assert!(r.projects[0].1.project_file.is_some());
    r.touch("c");
    assert_eq!(names(&r), vec!["a", "b", "c"]);
    assert!(r.projects[2].1.project_file.is_none());
    assert_eq!(r.recent_projects, vec!["c", "a", "b"]);
}

#[test]
fn a_stored_registry_binds_each_name_once() {
    let verified = ProjectBinding { verified: true, ..ProjectBinding::default() };
    let entries = vec![
        ("a".to_string(), ProjectBinding::default()),
        ("b".to_string(), ProjectBinding::default()),
        ("a".to_string(), verified),
    ];
    let r = ProjectRegistry::from_entries(1, entries, vec!["b".to_string(), "a".to_string()]);
    assert_eq!(r.format_version, 1);
    assert_eq!(r.projects.len(), 2);
    assert_eq!(r.projects[0].0, "a");
    assert!(r.projects[0].1.verified);
    assert_eq!(r.projects[1].0, "b");
    assert!(!r.projects[1].1.verified);
    assert_eq!(r.recent_projects, vec!["b", "a"]);
}
