use std::path::PathBuf;

use kakashi::app_source::{
    desktop_id, keep_parsed, location_dir, parse_loaded, select_desktop_files, DesktopFileCandidate,
    LaunchAction, SourceType, Entry, Icon, PotentialDesktopEntry, SEARCH_LOCATIONS,
};

const FIREFOX: &str = "[Desktop Entry]\nName=Firefox\nExec=firefox %U\nType=Application\n";
const NO_NAME: &str = "[Desktop Entry]\nExec=test\nType=Application\n";

fn candidate(dir: &str, name: &str) -> DesktopFileCandidate {
    DesktopFileCandidate { file_name: name.to_string(), path: PathBuf::from(dir).join(name) }
}

#[test]
fn desktop_id_of_desktop_files() {
    assert_eq!(desktop_id("firefox.desktop"), Some("firefox".to_string()));
    assert_eq!(desktop_id("org.gnome.Nautilus.desktop"), Some("org.gnome.Nautilus".to_string()));
    assert_eq!(desktop_id("a..desktop"), Some("a.".to_string()));
    assert_eq!(desktop_id(".hidden.desktop"), Some(".hidden".to_string()));
    assert_eq!(desktop_id("Déjà vu.desktop"), Some("Déjà vu".to_string()));
}

#[test]
fn desktop_id_of_other_files() {
    assert_eq!(desktop_id(".desktop"), None);
    assert_eq!(desktop_id("desktop"), None);
    assert_eq!(desktop_id("firefox.txt"), None);
    assert_eq!(desktop_id("firefox.desktop.bak"), None);
    assert_eq!(desktop_id("firefox.DESKTOP"), None);
    assert_eq!(desktop_id("firefox"), None);
    assert_eq!(desktop_id(""), None);
}

#[test]
fn desktop_id_agrees_with_std_paths() {
    for name in ["firefox.desktop", ".desktop", "a..desktop", "x.desktop.y", "é.desktop", "..", "a.b", "desktop"] {
        let path = PathBuf::from("/usr/share/applications").join(name);
        let expected = if path.extension().and_then(|s| s.to_str()) == Some("desktop") {
            path.file_stem().and_then(|s| s.to_str()).map(String::from)
        } else {
            None
        };
        assert_eq!(desktop_id(name), expected, "{}", name);
    }
}

#[test]
fn later_locations_override_earlier_ones() {
    let candidates = vec![
        candidate("/usr/share/applications", "firefox.desktop"),
        candidate("/usr/share/applications", "gimp.desktop"),
        candidate("/usr/share/applications", "README"),
        candidate("/usr/local/share/applications", "firefox.desktop"),
        candidate("~/.local/share/applications", "code.desktop"),
    ];
    let entries = select_desktop_files(candidates);
    let mut found: Vec<(String, PathBuf)> =
        entries.iter().map(|e| (e.id().clone(), e.path().clone())).collect();
    found.sort();
    assert_eq!(
        found,
        vec![
            ("code".to_string(), PathBuf::from("~/.local/share/applications/code.desktop")),
            ("firefox".to_string(), PathBuf::from("/usr/local/share/applications/firefox.desktop")),
            ("gimp".to_string(), PathBuf::from("/usr/share/applications/gimp.desktop")),
        ]
    );
}

#[test]
fn no_candidates_no_entries() {
    assert!(select_desktop_files(vec![]).is_empty());
    assert!(select_desktop_files(vec![candidate("/usr/share/applications", "notes.txt")]).is_empty());
}

fn potential(id: &str) -> PotentialDesktopEntry {
    let entries = select_desktop_files(vec![candidate("/usr/share/applications", &format!("{}.desktop", id))]);
    entries.into_iter().next().unwrap()
}

#[test]
fn parse_loaded_skips_unreadable_and_invalid() {
    let loaded = vec![
        (potential("firefox"), Some(FIREFOX.to_string())),
        (potential("broken"), Some(NO_NAME.to_string())),
        (potential("unreadable"), None),
        (potential("editor"), Some("[Desktop Entry]\nName=Editor\nExec=ed\nType=Application".to_string())),
    ];
    let entries = parse_loaded(loaded);
    let ids: Vec<&str> = entries.iter().map(|e| e.id().as_str()).collect();
    assert_eq!(ids, vec!["firefox", "editor"]);
    assert_eq!(entries[0].file().entry.name.default, "Firefox");
    assert_eq!(entries[1].file().entry.name.default, "Editor");
}

#[test]
fn parse_rejects_text_that_is_not_a_desktop_file() {
    let loaded = vec![(potential("plain"), Some("just some text".to_string()))];
    assert!(parse_loaded(loaded).is_empty());
}

#[test]
fn keep_parsed_keeps_order() {
    let file = freedesktop_file_parser::parse(FIREFOX).unwrap();
    let results = vec![("a".to_string(), None), ("b".to_string(), Some(file.clone())), ("c".to_string(), Some(file))];
    let entries = keep_parsed(results);
    let ids: Vec<&str> = entries.iter().map(|e| e.id().as_str()).collect();
    assert_eq!(ids, vec!["b", "c"]);
}

#[test]
fn search_locations_in_priority_order() {
    assert_eq!(SEARCH_LOCATIONS.len(), 5);
    assert_eq!(SEARCH_LOCATIONS[0], "/var/lib/flatpak/exports/share/applications");
    assert_eq!(SEARCH_LOCATIONS[4], "~/.local/share/applications");
}

#[test]
fn entries_hold_their_fields() {
    let entry = Entry {
        id: "firefox".to_string(),
        name: "Firefox".to_string(),
        icon: Some(Icon::Path(PathBuf::from("/usr/share/icons/firefox.png"))),
        action: LaunchAction::Command { command: "firefox %U".to_string(), terminal: false },
        source: SourceType::DesktopFile,
    };
    assert!(matches!(entry.icon, Some(Icon::Path(_))));
    assert!(matches!(entry.action, LaunchAction::Command { terminal: false, .. }));
    let named = Icon::Name("firefox".to_string());
    assert!(matches!(named, Icon::Name(ref n) if n == "firefox"));
}

#[test]
fn entries_clone_with_their_fields() {
    let entry = Entry {
        id: "gimp".to_string(),
        name: "GIMP".to_string(),
        icon: Some(Icon::Path(PathBuf::from("/usr/share/icons/gimp.png"))),
        action: LaunchAction::Command { command: "gimp %U".to_string(), terminal: true },
        source: SourceType::DesktopFile,
    };
    let copy = entry.clone();
    assert_eq!(copy.id, "gimp");
    assert_eq!(copy.name, "GIMP");
    assert!(matches!(copy.icon, Some(Icon::Path(ref p)) if p == &PathBuf::from("/usr/share/icons/gimp.png")));
    assert!(matches!(copy.action, LaunchAction::Command { ref command, terminal: true } if command == "gimp %U"));
    assert!(matches!(copy.source, SourceType::DesktopFile));
}

#[test]
fn home_relative_locations() {
    assert_eq!(
        location_dir("~/.local/share/applications", Some("/home/u")),
        Some("/home/u/.local/share/applications".to_string())
    );
    assert_eq!(location_dir("~/.local/share/applications", None), None);
    assert_eq!(
        location_dir("/usr/share/applications", Some("/home/u")),
        Some("/usr/share/applications".to_string())
    );
    assert_eq!(location_dir("/usr/share/applications", None), Some("/usr/share/applications".to_string()));
    assert_eq!(location_dir("~", Some("/home/u")), Some("~".to_string()));
    assert_eq!(location_dir("~user/apps", Some("/home/u")), Some("~user/apps".to_string()));
    assert_eq!(location_dir("~/", Some("/home/ü")), Some("/home/ü/".to_string()));
}
