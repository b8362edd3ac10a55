use rune::index::{is_fresh_entry, needs_rebuild, Index, IndexBuild, IndexOption};
use rune::listing::EntryInfo;
use rune::manager::Manager;
use rune::path::FsPath;

fn entry(p: &str, is_dir: bool) -> EntryInfo {
    EntryInfo { path: FsPath::parse(p), is_dir }
}

fn texts(v: &[FsPath]) -> Vec<String> {
    let mut r: Vec<String> = v.iter().map(|p| p.to_text()).collect();
    r.sort();
    r
}

/// Runs a build over a directory tree held in memory.
fn build(tree: &[(String, Vec<EntryInfo>)], root: &str, option: IndexOption) -> Index {
    let mut index = Index::new();
    let mut b = IndexBuild::start(FsPath::parse(root), option);
    while let Some(dir) = b.next_directory(&index) {
        let mut es = Vec::new();
        for (d, list) in tree {
            if FsPath::parse(d) == dir {
                es = list.clone();
            }
        }
        b.add_directory(&mut index, &es);
    }
    assert!(b.is_done());
    index
}

#[test]
fn directory_over_entry_cap_contributes_nothing() {
    let mut big = Vec::new();
    for i in 0..501 {
        big.push(entry(&format!("/t/big/item{}.txt", i), false));
    }
    let tree = vec![
        ("/t".to_string(), vec![entry("/t/big", true), entry("/t/small", true)]),
        ("/t/big".to_string(), big),
        ("/t/small".to_string(), vec![entry("/t/small/kept.md", false)]),
    ];
    let index = build(&tree, "/t", IndexOption::Recursive);
    for i in 0..501 {
        assert!(index.lookup(&format!("item{}", i)).is_empty());
    }
    assert_eq!(texts(&index.lookup("kept")), vec!["/t/small/kept.md".to_string()]);
    assert_eq!(texts(&index.lookup("big")), vec!["/t/big".to_string()]);
    assert_eq!(index.stem_count(), 3);
}

#[test]
fn directory_at_entry_cap_is_indexed() {
    let mut es = Vec::new();
    for i in 0..500 {
        es.push(entry(&format!("/t/f{}.txt", i), false));
    }
    es.push(entry("/t/.hidden", false));
    let mut index = Index::new();
    let dirs = index.add_directory(&es);
    assert!(dirs.is_empty());
    assert_eq!(index.stem_count(), 500);
    assert!(index.lookup(".hidden").is_empty());
}

#[test]
fn hidden_entries_are_skipped_and_simple_build_stays_put() {
    let tree = vec![
        ("/t".to_string(), vec![entry("/t/.git", true), entry("/t/src", true), entry("/t/main.rs", false)]),
        ("/t/src".to_string(), vec![entry("/t/src/lib.rs", false)]),
    ];
    let simple = build(&tree, "/t", IndexOption::Simple);
    assert_eq!(simple.stem_count(), 2);
    assert!(simple.lookup("lib").is_empty());
    let full = build(&tree, "/t", IndexOption::Recursive);
    assert_eq!(texts(&full.lookup("lib")), vec!["/t/src/lib.rs".to_string()]);
    assert!(full.lookup(".git").is_empty());
}

#[test]
fn shared_stem_keeps_every_path_once() {
    let mut index = Index::new();
    index.add("a".to_string(), FsPath::parse("/x/a.rs"));
    index.add("a".to_string(), FsPath::parse("/x/a.md"));
    index.add("a".to_string(), FsPath::parse("/x/a.rs"));
    assert_eq!(texts(&index.lookup("a")), vec!["/x/a.md".to_string(), "/x/a.rs".to_string()]);
    assert_eq!(index.stem_count(), 1);
}

#[test]
fn build_stops_descending_past_stem_cap() {
    let mut index = Index::new();
    for i in 0..10001 {
        index.add(format!("s{}", i), FsPath::parse(&format!("/p/s{}", i)));
    }
    let mut b = IndexBuild::start(FsPath::parse("/q"), IndexOption::Recursive);
    assert_eq!(b.next_directory(&index), None);
    assert!(b.is_done());
}

#[test]
fn prune_drops_stale_paths_and_empty_stems() {
    let mut index = Index::new();
    index.add("a".to_string(), FsPath::parse("/x/a.rs"));
    index.add("a".to_string(), FsPath::parse("/y/a.rs"));
    index.add("b".to_string(), FsPath::parse("/x/b.rs"));
    index.remove_paths(&vec![FsPath::parse("/x/a.rs"), FsPath::parse("/x/b.rs")]);
    assert_eq!(texts(&index.lookup("a")), vec!["/y/a.rs".to_string()]);
    assert!(index.lookup("b").is_empty());
    assert_eq!(index.stem_count(), 1);
}

#[test]
fn export_and_load_round_trip() {
    let mut index = Index::new();
    index.add("a".to_string(), FsPath::parse("/x/a.rs"));
    index.add("b".to_string(), FsPath::parse("/x/b.rs"));
    index.add("a".to_string(), FsPath::parse("/y/a"));
    let mut m = Manager::new(FsPath::root());
    m.install_index(index);
    let b = m.build_index(FsPath::parse("/x"), IndexOption::Simple, 77);
    assert!(!b.is_done());
    let (pairs, sync) = m.shutdown();
    assert_eq!(sync, Some(77));
    assert_eq!(pairs.len(), 2);
    let loaded = Index::load(pairs, 77);
    assert_eq!(loaded.last_sync(), Some(77));
    assert_eq!(texts(&loaded.lookup("a")), vec!["/x/a.rs".to_string(), "/y/a".to_string()]);
    assert_eq!(texts(&loaded.lookup("b")), vec!["/x/b.rs".to_string()]);
}

#[test]
fn manager_load_drops_stale_paths() {
    let mut m = Manager::new(FsPath::root());
    let pairs = vec![
        ("a".to_string(), vec![FsPath::parse("/x/a.rs"), FsPath::parse("/gone/a.rs")]),
        ("b".to_string(), vec![FsPath::parse("/gone/b.rs")]),
    ];
    m.load_index(pairs, 5, &vec![FsPath::parse("/gone/a.rs"), FsPath::parse("/gone/b.rs")]);
    let (saved, sync) = m.shutdown();
    assert_eq!(sync, Some(5));
    assert_eq!(saved.len(), 1);
    assert_eq!(saved[0].0, "a");
    assert_eq!(texts(&saved[0].1), vec!["/x/a.rs".to_string()]);
}

#[test]
fn startup_rebuild_rules() {
    let day = 86400;
    assert!(needs_rebuild(false, Some(100), 100));
    assert!(needs_rebuild(true, None, 100));
    assert!(!needs_rebuild(true, Some(1000), 1000 + 5 * day));
    assert!(needs_rebuild(true, Some(1000), 1000 + 5 * day + 1));
    assert!(!needs_rebuild(true, Some(2000), 1000));
}

#[test]
fn loaded_paths_must_exist_and_be_recent() {
    let day = 86400;
    assert!(is_fresh_entry(true, Some(29 * day)));
    assert!(!is_fresh_entry(true, Some(30 * day)));
    assert!(!is_fresh_entry(false, Some(0)));
    assert!(is_fresh_entry(true, None));
}

#[test]
fn unreadable_directories_are_counted_by_build() {
    let index = Index::new();
    let mut b = IndexBuild::start(FsPath::parse("/locked"), IndexOption::Recursive);
    assert_eq!(b.next_directory(&index), Some(FsPath::parse("/locked")));
    b.skip_unreadable();
    b.skip_unreadable();
    assert_eq!(b.unreadable(), 2);
    assert!(b.is_done());
}

#[test]
fn build_raises_indexing_flag_before_work() {
    let mut m = Manager::new(FsPath::root());
    assert!(!m.is_indexing());
    let _b = m.build_index(FsPath::parse("/x"), IndexOption::Recursive, 9);
    assert!(m.is_indexing());
}
