use rune::listing::EntryInfo;
use rune::manager::{Manager, ManagerError};
use rune::path::FsPath;

fn entry(p: &str, is_dir: bool) -> EntryInfo {
    EntryInfo { path: FsPath::parse(p), is_dir }
}

#[test]
fn two_changes_undone_by_two_steps_back() {
    let mut m = Manager::new(FsPath::parse("/home/u"));
    let listing = m
        .change_dir(FsPath::parse("/srv/a"), Some(vec![entry("/srv/a/f", false), entry("/srv/a/d", true)]), 3)
        .unwrap();
    assert_eq!(listing[0].path.to_text(), "/srv/a/d");
    m.change_dir(FsPath::parse("/srv/b"), Some(Vec::new()), 0).unwrap();
    assert_eq!(m.get_current_path().to_text(), "/srv/b");
    assert_eq!(m.step_back(), Ok(0));
    assert_eq!(m.get_current_path().to_text(), "/srv/a");
    assert_eq!(m.step_back(), Ok(3));
    assert_eq!(m.get_current_path().to_text(), "/home/u");
}

#[test]
fn step_back_without_history_goes_to_parent() {
    let mut m = Manager::new(FsPath::parse("/home/u"));
    assert_eq!(m.step_back(), Ok(0));
    assert_eq!(m.get_current_path().to_text(), "/home");
    assert_eq!(m.step_back(), Ok(0));
    assert_eq!(m.get_current_path().to_text(), "/");
    assert_eq!(m.step_back(), Err(ManagerError::InvalidPath));
    assert_eq!(m.get_current_path().to_text(), "/");
}

#[test]
fn change_dir_to_missing_path_fails_without_change() {
    let mut m = Manager::new(FsPath::parse("/home/u"));
    assert_eq!(m.change_dir(FsPath::parse("/nope"), None, 5), Err(ManagerError::InvalidPath));
    assert_eq!(m.get_current_path().to_text(), "/home/u");
    assert_eq!(m.step_back(), Ok(0));
    assert_eq!(m.get_current_path().to_text(), "/home");
}

#[test]
fn reload_forgets_the_pushed_location() {
    let mut m = Manager::new(FsPath::parse("/x"));
    m.change_dir(FsPath::parse("/x/y"), Some(Vec::new()), 2).unwrap();
    m.change_dir(FsPath::parse("/x/y"), Some(Vec::new()), 7).unwrap();
    m.after_reload();
    assert_eq!(m.step_back(), Ok(2));
    assert_eq!(m.get_current_path().to_text(), "/x");
}

#[test]
fn change_dir_cancels_search() {
    let mut m = Manager::new(FsPath::parse("/x"));
    let mut items = Vec::new();
    m.perform_search("abc", &mut items, 0).unwrap();
    assert!(m.is_searching());
    m.change_dir(FsPath::parse("/x/y"), Some(Vec::new()), 0).unwrap();
    assert!(!m.is_searching());
}

#[test]
fn flags_start_down() {
    let m = Manager::new(FsPath::parse("/x"));
    assert!(!m.is_searching());
    assert!(!m.is_indexing());
    assert!(!m.is_loading());
    let f = rune::manager::Flags::new();
    assert!(!f.is_searching && !f.is_indexing && !f.is_loading);
}

#[test]
fn flags_can_be_raised() {
    let mut m = Manager::new(FsPath::parse("/x"));
    m.set_indexing(true);
    m.set_loading(true);
    assert!(m.is_indexing());
    assert!(m.is_loading());
    m.set_indexing(false);
    assert!(!m.is_indexing());
}
