use better_launcher::catalog::{build_catalog, Catalog};
use better_launcher::entry::parse_desktop_file;
use std::path::{Path, PathBuf};
use better_launcher::paths::{
    is_entry_file_name, place_of, sorted_unique_paths, visit, FileKind, Place, Visit,
};

fn entry(name: &str, exec: &str) -> String {
    format!("[Desktop Entry]\nType=Application\nName={}\nIcon=icon-{}\nExec={}\n", name, name, exec)
}

fn strings(v: &[&str]) -> Vec<String> {
    v.iter().map(|s| s.to_string()).collect()
}

#[test]
fn paths_are_sorted() {
    let out = sorted_unique_paths(&strings(&["/b/x.desktop", "/a/z.desktop", "/a/y.desktop"]));
    assert_eq!(out, strings(&["/a/y.desktop", "/a/z.desktop", "/b/x.desktop"]));
}

#[test]
fn a_path_found_twice_is_kept_once() {
    let found = strings(&[
        "/usr/share/applications/editor.desktop",
        "/usr/share/applications/browser.desktop",
        "/usr/share/applications/editor.desktop",
        "/usr/share/applications/browser.desktop",
        "/usr/share/applications/editor.desktop",
    ]);
    let out = sorted_unique_paths(&found);
    assert_eq!(
        out,
        strings(&[
            "/usr/share/applications/browser.desktop",
            "/usr/share/applications/editor.desktop",
        ])
    );
}

#[test]
fn sorting_agrees_with_the_order_of_paths() {
    let found = strings(&[
        "/apps/foo/x.desktop", "/apps/foo-bar.desktop", "/apps/foo", "/apps/Foo.desktop",
        "/apps/é.desktop", "/apps/z.desktop", "/apps/foo", "/apps/foo.desktop", "/apps", "/",
        "/apps/foo/a/b.desktop", "/apps/foo!/b.desktop", "/apps/foo /b.desktop", "/a/b/c", "/a/b",
        "/a.b/c", "/a-b", "/a", "/b", "/apps/foo/x.desktop",
    ]);
    let mut by_path: Vec<PathBuf> = found.iter().map(PathBuf::from).collect();
    by_path.sort();
    by_path.dedup();
    let expected: Vec<String> = by_path.iter().map(|p| p.to_string_lossy().into_owned()).collect();
    assert_eq!(sorted_unique_paths(&found), expected);
    assert_eq!(sorted_unique_paths(&Vec::new()), Vec::<String>::new());
}

#[test]
fn a_directory_comes_before_a_neighbour_with_a_longer_name() {
    let out = sorted_unique_paths(&strings(&["/apps/foo-bar.desktop", "/apps/foo/x.desktop"]));
    assert_eq!(out, strings(&["/apps/foo/x.desktop", "/apps/foo-bar.desktop"]));
}

#[test]
fn places_follow_the_order_of_paths() {
    let c = |s: &str| s.chars().collect::<Vec<char>>();
    assert_eq!(place_of(&c("a"), &c("b")), Place::Before);
    assert_eq!(place_of(&c("b"), &c("a")), Place::After);
    assert_eq!(place_of(&c("ab"), &c("ab")), Place::Same);
    assert_eq!(place_of(&c("ab"), &c("abc")), Place::Before);
    assert_eq!(place_of(&c("abc"), &c("ab")), Place::After);
    assert_eq!(place_of(&c(""), &c("")), Place::Same);
    assert_eq!(place_of(&c(""), &c("a")), Place::Before);
    assert_eq!(place_of(&c("foo/x"), &c("foo-bar")), Place::Before);
    assert_eq!(place_of(&c("foo-bar"), &c("foo/x")), Place::After);
    assert_eq!(place_of(&c("a/"), &c("a")), Place::After);
    assert_eq!(place_of(&c("a!"), &c("a/")), Place::After);
}

#[test]
fn the_catalog_keeps_the_order_of_the_files() {
    let contents = vec![
        Some(entry("Zed", "zed")),
        None,
        Some("Type=Link\nName=Skipped\nIcon=i\nExec=e\n".to_string()),
        Some(entry("Alpha", "alpha %U")),
    ];
    let catalog = build_catalog(&contents);
    assert_eq!(catalog.len(), 2);
    assert!(!catalog.is_empty());
    let first = catalog.get(0).unwrap();
    assert_eq!(first.name, "Zed");
    assert_eq!(first.icon_name, "icon-Zed");
    assert_eq!(first.launch_command, "zed");
    let second = catalog.get(1).unwrap();
    assert_eq!(second.name, "Alpha");
    assert_eq!(second.launch_command, "alpha %U");
    assert!(catalog.get(2).is_none());
}

#[test]
fn an_empty_catalog() {
    let catalog = build_catalog(&Vec::new());
    assert_eq!(catalog.len(), 0);
    assert!(catalog.is_empty());
    assert!(catalog.get(0).is_none());
    assert!(catalog.lookup("anything").is_none());
    assert!(Catalog::new().is_empty());
}

#[test]
fn lookup_is_by_the_exact_name() {
    let catalog = build_catalog(&vec![Some(entry("Firefox", "firefox %u"))]);
    assert_eq!(catalog.lookup("Firefox"), Some(&"firefox %u".to_string()));
    assert!(catalog.lookup("firefox").is_none());
    assert!(catalog.lookup("Fire").is_none());
    assert!(catalog.lookup("").is_none());
}

#[test]
fn of_two_files_with_one_name_the_last_by_path_wins() {
    let files = vec![
        ("/usr/share/applications/z-editor.desktop", entry("Editor", "second-editor %F")),
        ("/home/u/.local/share/applications/editor.desktop", entry("Editor", "first-editor")),
    ];
    let found: Vec<String> = files.iter().map(|(p, _)| p.to_string()).collect();
    let ordered = sorted_unique_paths(&found);
    let contents: Vec<Option<String>> = ordered
        .iter()
        .map(|p| files.iter().find(|(q, _)| q == p).map(|(_, text)| text.clone()))
        .collect();
    let catalog = build_catalog(&contents);
    assert_eq!(catalog.len(), 2);
    assert_eq!(catalog.get(0).unwrap().launch_command, "first-editor");
    assert_eq!(catalog.lookup("Editor"), Some(&"second-editor %F".to_string()));
}

#[test]
fn one_path_through_two_roots_contributes_once() {
    let text = entry("Editor", "editor");
    let through_first_root = "/usr/share/applications/editor.desktop";
    let through_second_root = "/usr/share/applications/editor.desktop";
    let ordered = sorted_unique_paths(&strings(&[through_first_root, through_second_root]));
    assert_eq!(ordered.len(), 1);
    let contents: Vec<Option<String>> = ordered.iter().map(|_| Some(text.clone())).collect();
    let catalog = build_catalog(&contents);
    assert_eq!(catalog.len(), 1);
    assert_eq!(catalog.get(0).unwrap().name, "Editor");
}

#[test]
fn entries_can_be_added_one_by_one() {
    let mut catalog = Catalog::new();
    assert!(catalog.add_file(&entry("One", "one")));
    assert!(!catalog.add_file("Type=Application\nName=Broken\n"));
    catalog.insert(parse_desktop_file(&entry("Two", "two")).unwrap());
    catalog.push("Three".to_string(), "i3".to_string(), "three".to_string());
    assert_eq!(catalog.len(), 3);
    assert_eq!(catalog.get(2).unwrap().icon_name, "i3");
    assert_eq!(catalog.lookup("Two"), Some(&"two".to_string()));
}

#[test]
fn entry_files_are_known_by_their_names() {
    assert!(is_entry_file_name("firefox.desktop"));
    assert!(is_entry_file_name("org.gnome.Nautilus.desktop"));
    assert!(is_entry_file_name("..desktop"));
    assert!(is_entry_file_name("é.desktop"));
    assert!(!is_entry_file_name(".desktop"));
    assert!(!is_entry_file_name("desktop"));
    assert!(!is_entry_file_name("firefox.DESKTOP"));
    assert!(!is_entry_file_name("firefox.desktop.bak"));
    assert!(!is_entry_file_name("firefox.desktop "));
    assert!(!is_entry_file_name(""));
    for name in ["a.desktop", ".desktop", "x", "a.b.desktop", "desktop.", "a.desktopx"] {
        let by_path = Path::new(name).extension().map_or(false, |e| e == "desktop");
        assert_eq!(is_entry_file_name(name), by_path, "{:?}", name);
    }
}

#[test]
fn the_walk_collects_files_and_enters_directories() {
    assert_eq!(visit(FileKind::File, "a.desktop"), Visit::Collect);
    assert_eq!(visit(FileKind::File, "a.txt"), Visit::Skip);
    assert_eq!(visit(FileKind::Directory, "kde4"), Visit::Descend);
    assert_eq!(visit(FileKind::Directory, "odd.desktop"), Visit::Descend);
    assert_eq!(visit(FileKind::Other, "a.desktop"), Visit::Skip);
}
