use cheru::catalog::{browse_directory, search_entries, DirChild, MAX_APP_RESULTS, MIN_QUERY_BYTES};
use cheru::entry::{AppEntry, AppResult, ResultType};
use cheru::index::{build_index, AppSource, BundleInfo, DesktopInfo};
use cheru::matcher::FuzzyMatcher;
use cheru::order::sort_by_name;
use cheru::system::{build_system_commands, convert_icons, icon_cache_file, is_bundle_resource, Platform};
use cheru::walk::{TreeWalk, WalkKind, MAX_FOLDERS};

fn desktop(name: &str, command: Option<&str>) -> DesktopInfo {
    DesktopInfo {
        entry_type: Some("Application".to_string()),
        no_display: false,
        hidden: false,
        name: Some(name.to_string()),
        command: command.map(|c| c.to_string()),
        icon: None,
        comment: None,
    }
}

fn names(v: &[AppEntry]) -> Vec<String> {
    v.iter().map(|e| e.name.clone()).collect()
}

fn result_names(v: &[AppResult]) -> Vec<String> {
    v.iter().map(|e| e.name.clone()).collect()
}

fn entry(name: &str, target: &str) -> AppEntry {
    AppEntry {
        name: name.to_string(),
        launch_target: target.to_string(),
        icon: None,
        description: None,
        result_type: ResultType::App,
    }
}

#[test]
fn manifests_are_deduplicated_and_sorted() {
    let mut hidden = desktop("Secret", Some("/usr/bin/secret"));
    hidden.hidden = true;
    let mut link = desktop("Web", Some("/usr/bin/web"));
    link.entry_type = Some("Link".to_string());
    let infos = vec![
        desktop("zed", Some("/usr/bin/zed")),
        desktop("Firefox", Some("/usr/bin/firefox")),
        desktop("Firefox", Some("/opt/firefox")),
        hidden,
        link,
        desktop("alacritty", Some("/usr/bin/alacritty")),
    ];
    let index = build_index(AppSource::Manifests(infos));
    assert_eq!(names(&index), vec!["alacritty", "Firefox", "zed"]);
    assert_eq!(index[1].launch_target, "/usr/bin/firefox");
    assert!(index.iter().all(|e| e.result_type == ResultType::App));
}

#[test]
fn a_manifest_without_command_is_skipped() {
    let infos = vec![desktop("Gimp", None), desktop("Gimp", Some("/usr/bin/gimp"))];
    let index = build_index(AppSource::Manifests(infos));
    assert_eq!(names(&index), vec!["Gimp"]);
    assert_eq!(index[0].launch_target, "/usr/bin/gimp");
}

#[test]
fn bundles_fall_back_to_file_stem() {
    let bundles = vec![
        BundleInfo {
            path: "/Applications/Safari.app".to_string(),
            metadata_name: Some("Safari".to_string()),
            file_stem: Some("Safari".to_string()),
            icon: Some("/Applications/Safari.app/Contents/Resources/AppIcon.icns".to_string()),
            info: None,
        },
        BundleInfo {
            path: "/Applications/Tool.app".to_string(),
            metadata_name: None,
            file_stem: Some("Tool".to_string()),
            icon: None,
            info: Some("Tool 1.0".to_string()),
        },
        BundleInfo {
            path: "/Applications/Copy.app".to_string(),
            metadata_name: Some("safari".to_string()),
            file_stem: None,
            icon: None,
            info: None,
        },
    ];
    let index = build_index(AppSource::Bundles(bundles));
    assert_eq!(names(&index), vec!["Safari", "safari", "Tool"]);
    assert_eq!(index[2].launch_target, "/Applications/Tool.app");
    assert_eq!(index[2].description, Some("Tool 1.0".to_string()));
}

#[test]
fn unsupported_platform_has_empty_index() {
    assert!(build_index(AppSource::Unsupported).is_empty());
}

#[test]
fn sort_is_case_insensitive_and_stable() {
    let v = vec![entry("b", "1"), entry("A", "2"), entry("a", "3"), entry("C", "4")];
    let sorted = sort_by_name(v);
    let targets: Vec<String> = sorted.iter().map(|e| e.launch_target.clone()).collect();
    assert_eq!(targets, vec!["2", "3", "1", "4"]);
}

#[test]
fn system_table_is_sorted() {
    let linux = build_system_commands(Platform::Linux);
    assert_eq!(names(&linux), vec!["Lock Screen", "Log Out", "Restart", "Shut Down", "Sleep"]);
    assert_eq!(linux[4].launch_target, "system:sleep");
    assert_eq!(linux[4].description, Some("Suspend the computer".to_string()));
    assert_eq!(build_system_commands(Platform::MacOs).len(), 7);
    assert!(build_system_commands(Platform::Other).is_empty());
}

#[test]
fn folder_walk_skips_noise_and_duplicates() {
    let mut walk = TreeWalk::new(WalkKind::Folders);
    assert!(walk.should_list(0));
    assert!(!walk.should_list(2));
    assert!(walk.visit("/h/Documents", "work", "/h/Documents/work", true, false));
    assert!(!walk.visit("/h/Documents", "node_modules", "/h/Documents/node_modules", true, false));
    assert!(!walk.visit("/h/Documents", ".git", "/h/Documents/.git", true, false));
    assert!(!walk.visit("/h/Documents", "Tool.app", "/h/Documents/Tool.app", true, false));
    assert!(!walk.visit("/h/Documents", "notes.txt", "/h/Documents/notes.txt", false, true));
    assert!(!walk.visit("/h/Desktop", "work", "/h/Documents/work", true, false));
    assert!(walk.visit("/h/Desktop", "Archive", "/h/Desktop/Archive", true, false));
    let index = walk.finish();
    assert_eq!(names(&index), vec!["Archive", "work"]);
    assert_eq!(index[1].description, Some("/h/Documents".to_string()));
    assert_eq!(index[1].result_type, ResultType::Folder);
}

#[test]
fn image_walk_keeps_images_only() {
    let mut walk = TreeWalk::new(WalkKind::Images);
    assert!(walk.visit("/h", "Pictures", "/h/Pictures", true, false));
    assert!(!walk.visit("/h", "build", "/h/build", true, false));
    assert!(!walk.visit("/h/Pictures", "Cat.JPG", "/h/Pictures/Cat.JPG", false, true));
    assert!(!walk.visit("/h/Pictures", "doc.pdf", "/h/Pictures/doc.pdf", false, true));
    assert!(!walk.visit("/h/Pictures", ".png", "/h/Pictures/.png", false, true));
    assert!(!walk.visit("/h/Pictures", "png", "/h/Pictures/png", false, true));
    assert!(!walk.visit("/h/Pictures", "Cat.JPG", "/h/Pictures/Cat.JPG", false, true));
    let index = walk.finish();
    assert_eq!(index.len(), 1);
    assert_eq!(index[0].icon, Some("/h/Pictures/Cat.JPG".to_string()));
    assert_eq!(index[0].result_type, ResultType::Image);
}

#[test]
fn walk_is_capped() {
    let mut walk = TreeWalk::new(WalkKind::Folders);
    for i in 0..(MAX_FOLDERS + 5) {
        walk.visit("/h", &format!("d{}", i), &format!("/h/d{}", i), true, false);
    }
    assert!(!walk.wants_more());
    assert_eq!(walk.finish().len(), MAX_FOLDERS);
}

#[test]
fn icon_conversion_is_idempotent() {
    let mut apps = vec![
        AppEntry { icon: Some("/A.app/Contents/Resources/a.icns".to_string()), ..entry("A", "/A.app") },
        AppEntry { icon: Some("/B.app/Contents/Resources/b.png".to_string()), ..entry("B", "/B.app") },
        entry("C", "/C.app"),
    ];
    let png = icon_cache_file("/h/.cache/cheru/icons", "A");
    assert_eq!(png, "/h/.cache/cheru/icons/A.png");
    convert_icons(&mut apps, &vec![Some(png.clone()), Some("x".to_string()), Some("y".to_string())]);
    assert_eq!(apps[0].icon, Some(png.clone()));
    assert_eq!(apps[1].icon, Some("/B.app/Contents/Resources/b.png".to_string()));
    assert_eq!(apps[2].icon, None);
    convert_icons(&mut apps, &vec![None, None, None]);
    assert_eq!(apps[0].icon, Some(png));
}

#[test]
fn failed_conversion_keeps_the_icon() {
    let mut apps = vec![
        AppEntry { icon: Some("/A.app/Contents/Resources/a.icns".to_string()), ..entry("A", "/A.app") },
        AppEntry { icon: Some("/B.app/Contents/Resources/b.icns".to_string()), ..entry("B", "/B.app") },
    ];
    convert_icons(&mut apps, &vec![None, Some("/c/B.png".to_string())]);
    assert_eq!(apps[0].icon, Some("/A.app/Contents/Resources/a.icns".to_string()));
    assert_eq!(apps[1].icon, Some("/c/B.png".to_string()));
}

#[test]
fn cache_names_are_sanitized() {
    assert_eq!(icon_cache_file("/c", "Visual Studio Code"), "/c/Visual_Studio_Code.png");
    assert_eq!(icon_cache_file("/c", "a-b_c/d.e"), "/c/a-b_c_d_e.png");
    assert!(is_bundle_resource("/Applications/Safari.app/Contents/Resources/AppIcon.icns"));
    assert!(!is_bundle_resource("/tmp/AppIcon.icns"));
}

#[test]
fn search_caps_and_minimum_length() {
    let entries: Vec<AppEntry> = (0..60).map(|i| entry(&format!("app{:02}", i), "/usr/bin/x")).collect();
    let mut matcher = FuzzyMatcher::new();
    let all = search_entries(&mut matcher, "", &entries, MAX_APP_RESULTS, 0);
    assert_eq!(all.len(), MAX_APP_RESULTS);
    assert_eq!(all[0].name, "app00");
    assert!(search_entries(&mut matcher, "a", &entries, 10, MIN_QUERY_BYTES).is_empty());
    let hits = search_entries(&mut matcher, "app07", &entries, 10, MIN_QUERY_BYTES);
    assert_eq!(hits[0].name, "app07");
}

#[test]
fn browsing_groups_folders_before_images() {
    let child = |name: &str, is_dir: bool| DirChild {
        name: name.to_string(),
        path: format!("/h/{}", name),
        is_dir,
    };
    let children = vec![
        child("zebra.png", false),
        child("Docs", true),
        child(".hidden", true),
        child("notes.txt", false),
        child("alpha", true),
        child("Apple.app", true),
        child("b.gif", false),
    ];
    let listed = browse_directory("/h", children, "");
    assert_eq!(result_names(&listed), vec!["alpha", "Docs", "Apple.app", "b.gif", "zebra.png"]);
    assert_eq!(listed[3].icon, Some("/h/b.gif".to_string()));
    assert_eq!(listed[0].description, Some("/h".to_string()));
    assert_eq!(listed[2].result_type, ResultType::App);
    let filtered = browse_directory("/h", vec![child("zebra.png", false), child("Docs", true)], "zeb");
    assert_eq!(result_names(&filtered), vec!["zebra.png"]);
}
