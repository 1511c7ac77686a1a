use cheru::entry::AppEntry;
use cheru::index::{bundle_metadata_name, MetadataValue};
use cheru::system::{icon_step, IconStep};
use cheru::catalog::{content_matches, MAX_CONTENT_RESULTS};
use cheru::entry::{CommandError, ResultType};
use cheru::launch::{check_browse_target, check_open_target, check_url};
use cheru::system::{system_action, Platform};

#[test]
fn linux_actions_map_to_commands() {
    let lock = system_action(Platform::Linux, "lock", "ann").unwrap().unwrap();
    assert_eq!(lock.program, "loginctl");
    assert_eq!(lock.args, vec!["lock-session".to_string()]);
    let logout = system_action(Platform::Linux, "logout", "ann").unwrap().unwrap();
    assert_eq!(logout.args, vec!["terminate-user".to_string(), "ann".to_string()]);
}

#[test]
fn macos_actions_map_to_commands() {
    let sleep = system_action(Platform::MacOs, "sleep", "").unwrap().unwrap();
    assert_eq!(sleep.program, "osascript");
    assert_eq!(sleep.args, vec!["-e".to_string(), "tell app \"System Events\" to sleep".to_string()]);
    assert!(system_action(Platform::MacOs, "empty-trash", "").unwrap().is_some());
}

#[test]
fn unknown_actions_are_rejected() {
    match system_action(Platform::Linux, "empty-trash", "ann") {
        Err(CommandError::LaunchError(m)) => assert_eq!(m, "Unknown system command: empty-trash"),
        _ => panic!("expected a rejection"),
    }
    assert!(matches!(system_action(Platform::Other, "lock", ""), Ok(None)));
}

#[test]
fn only_https_urls_open() {
    assert!(check_url("https://example.com").is_ok());
    match check_url("http://example.com") {
        Err(CommandError::LaunchError(m)) => assert_eq!(m, "Only HTTPS URLs allowed"),
        _ => panic!("expected a rejection"),
    }
}

#[test]
fn content_hits_name_file_and_folder() {
    let lines = vec![
        "/home/ann/Documents/report.md".to_string(),
        "notes.txt".to_string(),
        "/top.txt".to_string(),
        "/".to_string(),
    ];
    let hits = content_matches(&lines);
    assert_eq!(hits.len(), 3);
    assert_eq!(hits[0].name, "report.md");
    assert_eq!(hits[0].description, Some("/home/ann/Documents".to_string()));
    assert_eq!(hits[0].launch_target, "/home/ann/Documents/report.md");
    assert_eq!(hits[0].result_type, ResultType::File);
    assert_eq!(hits[1].description, Some(String::new()));
    assert_eq!(hits[2].description, Some("/".to_string()));
}

#[test]
fn content_hits_are_capped() {
    let lines: Vec<String> = (0..50).map(|i| format!("/d/f{}.txt", i)).collect();
    let hits = content_matches(&lines);
    assert_eq!(hits.len(), MAX_CONTENT_RESULTS);
    assert_eq!(hits[19].name, "f19.txt");
}

#[test]
fn bundle_icons_get_the_vector_extension() {
    assert_eq!(cheru::index::icon_file_name("AppIcon"), "AppIcon.icns");
    assert_eq!(cheru::index::icon_file_name("AppIcon.icns"), "AppIcon.icns");
}

#[test]
fn content_hits_read_path_components() {
    let lines = vec!["/home/ann/dir/".to_string(), "d/.".to_string(), "a//b".to_string(), "x/..".to_string()];
    let hits = content_matches(&lines);
    assert_eq!(hits.len(), 3);
    assert_eq!(hits[0].name, "dir");
    assert_eq!(hits[0].description, Some("/home/ann".to_string()));
    assert_eq!(hits[1].name, "d");
    assert_eq!(hits[1].description, Some(String::new()));
    assert_eq!(hits[2].name, "b");
    assert_eq!(hits[2].description, Some("a".to_string()));
}

#[test]
fn short_queries_are_not_searched() {
    assert!(!cheru::catalog::accepts_query("a"));
    assert!(cheru::catalog::accepts_query("ab"));
    assert!(!cheru::catalog::accepts_query(""));
}

#[test]
fn browse_and_open_targets_are_checked_before_resolution() {
    let msg = |r: Result<(), CommandError>| match r {
        Err(CommandError::LaunchError(m)) => m,
        _ => panic!("expected a rejection"),
    };
    assert_eq!(msg(check_browse_target("docs", true)), "Path must be absolute");
    assert_eq!(msg(check_browse_target("/home/ann/a.txt", false)), "Path is not a directory");
    assert!(check_browse_target("/home/ann", true).is_ok());
    assert_eq!(msg(check_open_target("a.png", true)), "Path must be absolute");
    assert_eq!(msg(check_open_target("/home/ann/none", false)), "Path does not exist");
    assert!(check_open_target("/home/ann/a.png", true).is_ok());
}

#[test]
fn bundle_name_prefers_display_name_when_present() {
    let text = |s: &str| MetadataValue::Text(s.to_string());
    assert_eq!(bundle_metadata_name(text("Safari"), text("SafariApp")), Some("Safari".to_string()));
    assert_eq!(bundle_metadata_name(MetadataValue::Absent, text("Notes")), Some("Notes".to_string()));
    assert_eq!(bundle_metadata_name(MetadataValue::NotText, text("Notes")), None);
    assert_eq!(bundle_metadata_name(MetadataValue::Absent, MetadataValue::Absent), None);
}

#[test]
fn icon_steps() {
    let inside = "/Applications/A.app/Contents/Resources/a.icns";
    assert_eq!(icon_step(None, true), IconStep::Skip);
    assert_eq!(icon_step(Some("/tmp/a.icns"), false), IconStep::Skip);
    assert_eq!(icon_step(Some(inside), true), IconStep::UseCache);
    assert_eq!(icon_step(Some(inside), false), IconStep::Convert);
}

#[test]
fn manifests_are_parsed() {
    let files = vec![
        (
            "/usr/share/applications/gimp.desktop".to_string(),
            "[Desktop Entry]\nType=Application\nName=GIMP\nExec=gimp %U\nIcon=gimp\nComment=Image editor\n".to_string(),
        ),
        ("/usr/share/applications/x.desktop".to_string(), "[Desktop Entry]\nType=Link\nName=X\nNoDisplay=true\n".to_string()),
    ];
    let infos = cheru::index::parse_manifests(&files);
    assert_eq!(infos.len(), 2);
    assert_eq!(infos[0].name, Some("GIMP".to_string()));
    assert_eq!(infos[0].command, Some("gimp %U".to_string()));
    assert_eq!(infos[0].entry_type, Some("Application".to_string()));
    assert_eq!(infos[0].comment, Some("Image editor".to_string()));
    assert!(infos[1].no_display);
    let index = cheru::index::build_index(cheru::index::AppSource::Manifests(infos));
    assert_eq!(index.len(), 1);
    assert_eq!(index[0].name, "GIMP");
}

#[test]
fn missing_outcomes_keep_icons() {
    let mut apps = vec![AppEntry {
        name: "A".to_string(),
        launch_target: "/A.app".to_string(),
        icon: Some("/A.app/Contents/Resources/a.icns".to_string()),
        description: None,
        result_type: ResultType::App,
    }];
    cheru::system::convert_icons(&mut apps, &vec![]);
    assert_eq!(apps[0].icon, Some("/A.app/Contents/Resources/a.icns".to_string()));
}

#[test]
fn exact_evaluator_stays_exact() {
    assert_eq!(cheru::calculator::evaluate("9^2"), Some("81".to_string()));
}
