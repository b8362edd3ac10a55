use rune::index::Index;
use rune::listing::EntryInfo;
use rune::manager::{Manager, ManagerError};
use rune::path::FsPath;
use rune::search::{is_noisy_path, is_valid_term, name_matches, split_term, text_contains, trim_text};

fn entry(p: &str, is_dir: bool) -> EntryInfo {
    EntryInfo { path: FsPath::parse(p), is_dir }
}

fn texts(v: &[FsPath]) -> Vec<String> {
    let mut r: Vec<String> = v.iter().map(|p| p.to_text()).collect();
    r.sort();
    r
}

#[test]
fn empty_and_parent_terms_are_refused_without_change() {
    let mut m = Manager::new(FsPath::parse("/home/u"));
    m.change_dir(FsPath::parse("/home/u/docs"), Some(Vec::new()), 4).unwrap();
    let mut items = vec![FsPath::parse("/kept")];
    for term in ["", "..", "   ", "a/../b"] {
        let r = m.perform_search(term, &mut items, 9);
        assert!(matches!(r, Err(ManagerError::InvalidInput)));
        assert_eq!(items, vec![FsPath::parse("/kept")]);
        assert_eq!(m.get_current_path().to_text(), "/home/u/docs");
        assert!(!m.is_searching());
    }
    assert_eq!(m.step_back(), Ok(4));
    assert_eq!(m.get_current_path().to_text(), "/home/u");
}

#[test]
fn term_validation() {
    assert!(!is_valid_term(""));
    assert!(!is_valid_term(".."));
    assert!(!is_valid_term(" \t "));
    assert!(is_valid_term(" notes "));
    assert!(is_valid_term(".bashrc"));
    assert_eq!(trim_text("  a b \n"), "a b");
}

#[test]
fn term_splits_at_last_dot() {
    assert_eq!(split_term("report.pdf"), ("report".to_string(), Some("pdf".to_string())));
    assert_eq!(split_term("a.b.c"), ("a.b".to_string(), Some("c".to_string())));
    assert_eq!(split_term("notes"), ("notes".to_string(), None));
    assert_eq!(split_term(".txt"), (String::new(), Some("txt".to_string())));
}

#[test]
fn substring_and_case_insensitive_match() {
    assert!(text_contains("hello world", "lo w"));
    assert!(text_contains("abc", ""));
    assert!(!text_contains("abc", "abcd"));
    assert!(!text_contains("abc", "ac"));
    assert!(name_matches("readme.md", "read"));
    assert!(!name_matches("readme.md", "READ"));
}

#[test]
fn index_tier_fills_results_and_pushes_location() {
    let mut m = Manager::new(FsPath::parse("/home/u"));
    let mut index = Index::new();
    index.add("report".to_string(), FsPath::parse("/home/u/report.pdf"));
    index.add("report".to_string(), FsPath::parse("/home/u/old/report.txt"));
    index.add("report".to_string(), FsPath::parse("/home/u/report"));
    index.add("other".to_string(), FsPath::parse("/home/u/other.pdf"));
    m.install_index(index);

    let mut items = vec![FsPath::parse("/stale")];
    let session = m.perform_search("report.pdf", &mut items, 6).unwrap();
    assert_eq!(texts(&items), vec!["/home/u/report.pdf".to_string()]);
    assert!(m.is_searching());
    assert!(m.search_active(session.id()));

    let mut items2 = Vec::new();
    m.perform_search("report", &mut items2, 1).unwrap();
    assert_eq!(
        texts(&items2),
        vec!["/home/u/old/report.txt".to_string(), "/home/u/report".to_string(), "/home/u/report.pdf".to_string()]
    );
    assert!(!m.search_active(session.id()));

    assert_eq!(m.step_back(), Ok(1));
    assert_eq!(m.step_back(), Ok(6));
    assert_eq!(m.get_current_path().to_text(), "/home/u");
}

/// A directory tree held in memory: each directory with its entries.
fn tree_entries(tree: &[(&str, Vec<EntryInfo>)], dir: &FsPath) -> Vec<EntryInfo> {
    for (d, es) in tree {
        if FsPath::parse(d) == *dir {
            return es.clone();
        }
    }
    Vec::new()
}

#[test]
fn fallback_search_finds_file_five_levels_down() {
    let tree = vec![
        ("/r", vec![entry("/r/a", true), entry("/r/top.txt", false)]),
        ("/r/a", vec![entry("/r/a/b", true)]),
        ("/r/a/b", vec![entry("/r/a/b/c", true)]),
        ("/r/a/b/c", vec![entry("/r/a/b/c/d", true)]),
        ("/r/a/b/c/d", vec![entry("/r/a/b/c/d/e", true)]),
        ("/r/a/b/c/d/e", vec![entry("/r/a/b/c/d/e/Deep-Target.log", false)]),
    ];
    let mut m = Manager::new(FsPath::parse("/r"));
    let mut items = Vec::new();
    let mut session = m.perform_search("target", &mut items, 0).unwrap();
    assert!(m.is_searching());
    let mut downs = 0;
    loop {
        let active = m.search_active(session.id());
        match session.next_directory(1, active, items.len()) {
            Some(dir) => {
                let es = tree_entries(&tree, &dir);
                session.add_directory(&es, &mut items);
            }
            None => {
                if m.is_searching() {
                    downs += 1;
                }
                m.finish_search(session.id());
                break;
            }
        }
    }
    assert!(session.finished());
    assert_eq!(texts(&items), vec!["/r/a/b/c/d/e/Deep-Target.log".to_string()]);
    assert!(!m.is_searching());
    assert_eq!(downs, 1);
    m.finish_search(session.id());
    assert!(!m.is_searching());
    assert_eq!(session.next_directory(0, true, 0), None);
}

#[test]
fn later_search_keeps_its_flag_when_earlier_one_ends() {
    let mut m = Manager::new(FsPath::parse("/r"));
    let mut items = Vec::new();
    let first = m.perform_search("a", &mut items, 0).unwrap();
    let second = m.perform_search("b", &mut items, 0).unwrap();
    m.finish_search(first.id());
    assert!(m.is_searching());
    m.finish_search(second.id());
    assert!(!m.is_searching());
}

#[test]
fn fallback_search_stops_on_time_cancel_and_cap() {
    let mut m = Manager::new(FsPath::parse("/r"));
    let mut items = Vec::new();
    let mut s1 = m.perform_search("x", &mut items, 0).unwrap();
    assert_eq!(s1.next_directory(21, true, 0), None);
    assert!(s1.finished());
    let mut s2 = m.perform_search("x", &mut items, 0).unwrap();
    assert_eq!(s2.next_directory(20, true, 2000), Some(FsPath::parse("/r")));
    assert_eq!(s2.next_directory(0, true, 2001), None);
    let mut s3 = m.perform_search("x", &mut items, 0).unwrap();
    assert_eq!(s3.next_directory(0, false, 0), None);
}

#[test]
fn fallback_search_skips_noisy_trees_and_duplicates() {
    let mut m = Manager::new(FsPath::root());
    let mut items = vec![FsPath::parse("/home/log.txt")];
    let mut index = Index::new();
    index.add("log".to_string(), FsPath::parse("/home/log.txt"));
    m.install_index(index);
    let mut s = m.perform_search("log", &mut items, 0).unwrap();
    assert_eq!(texts(&items), vec!["/home/log.txt".to_string()]);
    let root = s.next_directory(0, true, items.len()).unwrap();
    assert_eq!(root.to_text(), "/");
    s.add_directory(&vec![entry("/proc", true), entry("/home", true), entry("/Logs", false)], &mut items);
    let next = s.next_directory(0, true, items.len()).unwrap();
    assert_eq!(next.to_text(), "/home");
    s.add_directory(&vec![entry("/home/log.txt", false)], &mut items);
    assert_eq!(s.next_directory(0, true, items.len()), None);
    assert_eq!(texts(&items), vec!["/Logs".to_string(), "/home/log.txt".to_string()]);
}

#[test]
fn noisy_paths() {
    assert!(is_noisy_path(&FsPath::parse("/proc/1")));
    assert!(is_noisy_path(&FsPath::parse("/snap")));
    assert!(is_noisy_path(&FsPath::parse("/home/u/.local/state/nvim/x")));
    assert!(!is_noisy_path(&FsPath::parse("/home/u/state")));
    assert!(!is_noisy_path(&FsPath::parse("/home/process")));
}

#[test]
fn unreadable_directories_are_counted() {
    let mut m = Manager::new(FsPath::parse("/r"));
    let mut items = Vec::new();
    let mut s = m.perform_search("x", &mut items, 0).unwrap();
    assert_eq!(s.next_directory(0, true, 0), Some(FsPath::parse("/r")));
    s.skip_unreadable();
    assert_eq!(s.unreadable(), 1);
    assert_eq!(s.next_directory(0, true, 0), None);
}

#[test]
fn multi_dot_term_looks_up_text_before_last_dot() {
    let mut m = Manager::new(FsPath::parse("/x"));
    let mut index = Index::new();
    index.add("a.b".to_string(), FsPath::parse("/x/a.b.c"));
    index.add("a.b".to_string(), FsPath::parse("/x/a.b.d"));
    index.add("a.b".to_string(), FsPath::parse("/x/a.b.c"));
    index.add("a".to_string(), FsPath::parse("/x/a.b"));
    m.install_index(index);
    let mut items = Vec::new();
    m.perform_search("a.b.c", &mut items, 0).unwrap();
    assert_eq!(items, vec![FsPath::parse("/x/a.b.c")]);
    let mut items2 = Vec::new();
    m.perform_search("a.b", &mut items2, 0).unwrap();
    assert_eq!(items2, vec![FsPath::parse("/x/a.b")]);
}
