use better_launcher::catalog::Catalog;
use better_launcher::query::{CommitAction, Direction};
use better_launcher::session::Session;

fn sample() -> Session {
    let mut c = Catalog::new();
    c.push("Firefox".to_string(), "firefox".to_string(), "firefox %u".to_string());
    c.push("Files".to_string(), "folder".to_string(), "nautilus %U".to_string());
    c.push("Text Editor".to_string(), "edit".to_string(), "gedit %F".to_string());
    Session::new(c)
}

fn labels(s: &Session) -> Vec<String> {
    s.visible().iter().map(|i| i.label.clone()).collect()
}

#[test]
fn a_new_session_shows_the_catalog() {
    let s = sample();
    assert_eq!(s.query(), "");
    assert_eq!(s.catalog().len(), 3);
    assert_eq!(labels(&s), vec!["Firefox", "Files", "Text Editor"]);
    assert_eq!(s.selection(), Some(0));
    assert!(s.view().synthetic.is_none());
    let empty = Session::new(Catalog::new());
    assert_eq!(empty.selection(), None);
    assert!(empty.visible().is_empty());
}

#[test]
fn typing_filters_and_selects_the_first_row() {
    let mut s = sample();
    s.on_navigate(Direction::Down);
    s.on_navigate(Direction::Down);
    assert_eq!(s.selection(), Some(2));
    s.on_query_changed("fi");
    assert_eq!(s.query(), "fi");
    assert_eq!(labels(&s), vec!["Firefox", "Files"]);
    assert_eq!(s.selection(), Some(0));
    s.on_query_changed("zzz");
    assert!(s.visible().is_empty());
    assert_eq!(s.selection(), None);
    s.on_query_changed("");
    assert_eq!(labels(&s), vec!["Firefox", "Files", "Text Editor"]);
    assert_eq!(s.selection(), Some(0));
}

#[test]
fn the_selection_stays_among_the_rows() {
    let mut s = sample();
    s.on_navigate(Direction::Up);
    assert_eq!(s.selection(), Some(0));
    for _ in 0..5 {
        s.on_navigate(Direction::Down);
    }
    assert_eq!(s.selection(), Some(2));
    s.on_navigate(Direction::Up);
    assert_eq!(s.selection(), Some(1));
    s.on_selected(Some(9));
    assert_eq!(s.selection(), Some(0));
    s.on_selected(Some(2));
    assert_eq!(s.selection(), Some(2));
    s.on_selected(None);
    assert_eq!(s.selection(), None);
    s.on_navigate(Direction::Up);
    assert_eq!(s.selection(), None);
    s.on_navigate(Direction::Down);
    assert_eq!(s.selection(), Some(0));
    s.on_query_changed("nothing matches this");
    s.on_navigate(Direction::Down);
    assert_eq!(s.selection(), None);
    s.on_selected(Some(0));
    assert_eq!(s.selection(), None);
}

#[test]
fn committing_launches_the_selected_application() {
    let mut s = sample();
    s.on_query_changed("edit");
    assert_eq!(s.on_commit(), CommitAction::Launch("gedit %F".to_string()));
    s.on_query_changed("");
    s.on_navigate(Direction::Down);
    assert_eq!(s.on_commit(), CommitAction::Launch("nautilus %U".to_string()));
    assert_eq!(s.on_row_activated(0), CommitAction::Launch("firefox %u".to_string()));
    assert_eq!(s.on_row_activated(3), CommitAction::Nothing);
}

#[test]
fn committing_arithmetic_copies_the_answer() {
    let mut s = sample();
    s.on_query_changed("3*3");
    assert_eq!(labels(&s), vec!["3*3 = 9"]);
    assert_eq!(s.on_commit(), CommitAction::Copy("9".to_string()));
    s.on_selected(None);
    assert_eq!(s.on_commit(), CommitAction::Copy("9".to_string()));
    assert_eq!(s.on_row_activated(0), CommitAction::Copy("9".to_string()));
}

#[test]
fn committing_without_rows_does_nothing() {
    let mut s = sample();
    s.on_query_changed("zzz");
    assert_eq!(s.on_commit(), CommitAction::Nothing);
    assert_eq!(s.on_row_activated(0), CommitAction::Nothing);
}
