use cosmic_wanderer::entries::DesktopEntryManager;
use cosmic_wanderer::entries::FsChange;
use cosmic_wanderer::entries::should_refresh;
use cosmic_wanderer::entries::NormalDesktopEntry;
use cosmic_wanderer::entries::RawDescriptor;
use cosmic_wanderer::entries::ResolvedDescriptor;
use cosmic_wanderer::entries::build_catalog;
use cosmic_wanderer::text::normalize_name;

fn desc(
    name: Option<&str>,
    no_display: bool,
    icon_name: &str,
    icon_path: &str,
    appid: &str,
) -> ResolvedDescriptor {
    ResolvedDescriptor {
        desc: RawDescriptor {
            name: name.map(|s| s.to_string()),
            no_display,
            icon_name: icon_name.to_string(),
            exec_template: format!("{} %U", appid),
            comment: String::new(),
            appid: appid.to_string(),
        },
        icon_path: icon_path.to_string(),
    }
}

#[test]
fn normalize_name_case_folds_and_strips() {
    assert_eq!(normalize_name("ABC"), "abc");
    assert_eq!(normalize_name("Fire-Fox 2!"), "firefox2");
    assert_eq!(normalize_name(""), "");
    assert_eq!(normalize_name("!!!"), "");
}

#[test]
fn nameless_and_empty_names_are_dropped() {
    let items = vec![
        desc(None, false, "", "", "a"),
        desc(Some(""), false, "", "", "b"),
        desc(Some("Kept"), false, "", "", "c"),
    ];
    let out = build_catalog(&items);
    assert_eq!(out.len(), 1);
    assert_eq!(out[0].app_name, "Kept");
}

#[test]
fn no_display_never_appears() {
    let items = vec![
        desc(Some("Hidden"), true, "icon", "/p/icon.png", "hidden"),
        desc(Some("Shown"), false, "", "", "shown"),
    ];
    let out = build_catalog(&items);
    assert_eq!(out.len(), 1);
    assert_eq!(out[0].app_name, "Shown");
}

#[test]
fn duplicate_key_first_wins() {
    let items = vec![
        desc(Some("Files"), false, "files", "/p/files.png", "org.a.Files"),
        desc(Some("files"), false, "other", "/p/other.png", "org.b.Files"),
    ];
    let out = build_catalog(&items);
    assert_eq!(out.len(), 1);
    assert_eq!(out[0].app_name, "Files");
    assert_eq!(out[0].appid, "org.a.Files");
    assert_eq!(out[0].icon, "/p/files.png");
}

#[test]
fn icon_completion_replaces_in_place() {
    let items = vec![
        desc(Some("Alpha"), false, "", "/p/alpha.png", "alpha"),
        desc(Some("Fire Fox"), false, "", "", "org.a.firefox"),
        desc(Some("firefox"), false, "firefox", "/p/firefox.png", "org.b.firefox"),
        desc(Some("Zeta"), false, "", "", "zeta"),
    ];
    let out = build_catalog(&items);
    assert_eq!(out.len(), 3);
    // the second same-key descriptor completed the missing icon, at the
    // first one's position
    assert_eq!(out[1].app_name, "firefox");
    assert_eq!(out[1].appid, "org.b.firefox");
    assert_eq!(out[1].icon, "/p/firefox.png");
    assert_eq!(out[0].app_name, "Alpha");
    assert_eq!(out[2].app_name, "Zeta");
}

#[test]
fn icon_completion_needs_an_icon_name() {
    // the newcomer resolves a path but names no icon: it is discarded
    let items = vec![
        desc(Some("App"), false, "", "", "first"),
        desc(Some("app"), false, "", "/p/generic.png", "second"),
    ];
    let out = build_catalog(&items);
    assert_eq!(out.len(), 1);
    assert_eq!(out[0].appid, "first");
}

#[test]
fn pipeline_is_deterministic() {
    let items = vec![
        desc(Some("One"), false, "one", "/p/one.png", "one"),
        desc(Some("one!"), false, "", "", "one-dup"),
        desc(Some("Two"), false, "", "", "two"),
    ];
    let a = build_catalog(&items);
    let b = build_catalog(&items);
    assert_eq!(a, b);
}

#[test]
fn pipeline_is_idempotent_on_its_output() {
    let items = vec![
        desc(Some("One"), false, "one", "/p/one.png", "one"),
        desc(Some("one!"), false, "oneagain", "", "one-dup"),
        desc(Some("Two"), false, "", "", "two"),
        desc(Some("Hidden"), true, "", "", "hidden"),
    ];
    let first: Vec<NormalDesktopEntry> = build_catalog(&items);
    let as_input: Vec<ResolvedDescriptor> = first
        .iter()
        .map(|e| ResolvedDescriptor {
            desc: RawDescriptor {
                name: Some(e.app_name.clone()),
                no_display: false,
                icon_name: e.icon.clone(),
                exec_template: e.exec_template.clone(),
                comment: e.comment.clone(),
                appid: e.appid.clone(),
            },
            icon_path: e.icon.clone(),
        })
        .collect();
    let second = build_catalog(&as_input);
    assert_eq!(first, second);
}

#[test]
fn creation_change_and_removal_trigger_a_rescan() {
    assert!(should_refresh(FsChange::Created));
    assert!(should_refresh(FsChange::DataModified));
    assert!(should_refresh(FsChange::Removed));
    assert!(!should_refresh(FsChange::Other));
}

#[test]
fn manager_resolves_and_normalizes() {
    let descriptors = vec![
        RawDescriptor {
            name: Some("Test App".to_string()),
            no_display: false,
            icon_name: "a-surely-missing-icon-name".to_string(),
            exec_template: "testapp %F".to_string(),
            comment: "a comment".to_string(),
            appid: "test.app".to_string(),
        },
        RawDescriptor {
            name: None,
            no_display: false,
            icon_name: String::new(),
            exec_template: String::new(),
            comment: String::new(),
            appid: "nameless".to_string(),
        },
    ];
    let mut manager = DesktopEntryManager::new(descriptors);
    let out = manager.get_normalized_entries("hicolor");
    assert_eq!(out.len(), 1);
    assert_eq!(out[0].app_name, "Test App");
    assert_eq!(out[0].appid, "test.app");
    assert_eq!(out[0].comment, "a comment");
    assert_eq!(out[0].exec_template, "testapp %F");

    manager.refresh(Vec::new());
    let out = manager.get_normalized_entries("hicolor");
    assert!(out.is_empty());
}
