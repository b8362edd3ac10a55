use rune::listing::{order_listing, sort_entries, EntryInfo, OpenOption};
use rune::path::{file_extension, file_stem, FsPath};

fn entry(p: &str, is_dir: bool) -> EntryInfo {
    EntryInfo { path: FsPath::parse(p), is_dir }
}

fn names(v: &[EntryInfo]) -> Vec<String> {
    v.iter().map(|e| e.path.file_name().unwrap()).collect()
}

fn strings(v: &[&str]) -> Vec<String> {
    v.iter().map(|s| s.to_string()).collect()
}

#[test]
fn listing_orders_dirs_files_then_hidden() {
    let entries = vec![
        entry("/h/zeta.txt", false),
        entry("/h/.config", true),
        entry("/h/beta", true),
        entry("/h/alpha.rs", false),
        entry("/h/.bashrc", false),
        entry("/h/Alpha", true),
    ];
    let sorted = sort_entries(entries);
    assert_eq!(
        names(&sorted),
        strings(&["Alpha", "beta", "alpha.rs", "zeta.txt", ".bashrc", ".config"])
    );
}

#[test]
fn listing_breaks_ties_by_case_sensitive_name() {
    let entries = vec![
        entry("/d/b", false),
        entry("/d/B", false),
        entry("/d/a", false),
        entry("/d/ab", false),
        entry("/d/A", false),
    ];
    let sorted = sort_entries(entries);
    assert_eq!(names(&sorted), strings(&["A", "B", "a", "ab", "b"]));
}

#[test]
fn listing_of_empty_directory_is_empty() {
    let sorted = order_listing(Vec::new(), OpenOption::Full);
    assert!(sorted.is_empty());
}

#[test]
fn preview_listing_keeps_first_hundred_read() {
    let mut entries = Vec::new();
    for i in 0..150 {
        entries.push(entry(&format!("/big/f{:03}", 149 - i), false));
    }
    let listing = order_listing(entries, OpenOption::Preview);
    assert_eq!(listing.len(), 100);
    assert_eq!(listing[0].path.file_name().unwrap(), "f050");
    assert_eq!(listing[99].path.file_name().unwrap(), "f149");
}

#[test]
fn manager_read_dir_orders_listing() {
    let m = rune::manager::Manager::new(FsPath::root());
    let listing = m.read_dir(vec![entry("/r/z", false), entry("/r/a", true)], OpenOption::Full);
    assert_eq!(names(&listing), strings(&["a", "z"]));
}

#[test]
fn full_listing_keeps_everything() {
    let mut entries = Vec::new();
    for i in 0..150 {
        entries.push(entry(&format!("/big/f{:03}", i), i % 2 == 0));
    }
    let listing = order_listing(entries, OpenOption::Full);
    assert_eq!(listing.len(), 150);
    assert!(listing[0].is_dir);
    assert!(!listing[149].is_dir);
}

#[test]
fn path_parse_join_and_text() {
    let p = FsPath::parse("/home//user/");
    assert_eq!(p.parts, strings(&["home", "user"]));
    assert_eq!(p.to_text(), "/home/user");
    assert_eq!(p.join("x.txt").to_text(), "/home/user/x.txt");
    assert_eq!(FsPath::root().to_text(), "/");
    let mut q = FsPath::parse("/a");
    assert!(q.pop());
    assert!(!q.pop());
    assert_eq!(q.to_text(), "/");
}

#[test]
fn stem_and_extension_follow_last_dot() {
    assert_eq!(file_stem("archive.tar.gz"), "archive.tar");
    assert_eq!(file_extension("archive.tar.gz"), Some("gz".to_string()));
    assert_eq!(file_stem(".bashrc"), ".bashrc");
    assert_eq!(file_extension(".bashrc"), None);
    assert_eq!(file_stem("notes"), "notes");
    assert_eq!(file_extension("notes"), None);
    assert_eq!(file_stem("a."), "a");
    assert_eq!(file_extension("a."), Some(String::new()));
    assert_eq!(file_stem(".."), "..");
}
