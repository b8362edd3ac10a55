use std::collections::BTreeMap;

use rune::fileops::{
    create_target, move_target, rename_target, EntryKind, Removal, MoveOption, StepOutcome,
    Transfer, TransferAction,
};
use rune::manager::{Manager, ManagerError};
use rune::path::FsPath;

/// A filesystem held in memory: each path's text, with the bytes of a file or
/// `None` for a directory.
struct MemFs {
    nodes: BTreeMap<String, Option<Vec<u8>>>,
    blocked_rename_from: Option<String>,
    failing_copy: Option<String>,
}

impl MemFs {
    fn new() -> Self {
        let mut nodes = BTreeMap::new();
        nodes.insert("/".to_string(), None);
        MemFs { nodes, blocked_rename_from: None, failing_copy: None }
    }

    fn dir(&mut self, p: &str) {
        self.nodes.insert(p.to_string(), None);
    }

    fn file(&mut self, p: &str, bytes: &[u8]) {
        self.nodes.insert(p.to_string(), Some(bytes.to_vec()));
    }

    fn below(&self, p: &str) -> Vec<String> {
        let prefix = format!("{}/", p);
        self.nodes.keys().filter(|k| *k == p || k.starts_with(&prefix)).cloned().collect()
    }

    fn parent_exists(&self, p: &str) -> bool {
        let mut q = FsPath::parse(p);
        q.pop();
        self.nodes.get(&q.to_text()) == Some(&None)
    }

    fn apply(&mut self, a: &TransferAction) -> StepOutcome {
        match a {
            TransferAction::Rename(f, t) => {
                let (f, t) = (f.to_text(), t.to_text());
                if self.blocked_rename_from.as_deref() == Some(f.as_str())
                    || !self.nodes.contains_key(&f)
                    || self.nodes.contains_key(&t)
                {
                    return StepOutcome::Failed;
                }
                for k in self.below(&f) {
                    let v = self.nodes.remove(&k).unwrap();
                    self.nodes.insert(format!("{}{}", t, &k[f.len()..]), v);
                }
                StepOutcome::Done
            }
            TransferAction::Inspect(p) => {
                let p = p.to_text();
                match self.nodes.get(&p) {
                    Some(Some(_)) => StepOutcome::Kind(EntryKind::File, Vec::new()),
                    Some(None) => {
                        let prefix = format!("{}/", p);
                        let names = self
                            .nodes
                            .keys()
                            .filter(|k| k.starts_with(&prefix) && !k[prefix.len()..].contains('/'))
                            .map(|k| k[prefix.len()..].to_string())
                            .collect();
                        StepOutcome::Kind(EntryKind::Dir, names)
                    }
                    None => StepOutcome::Failed,
                }
            }
            TransferAction::CopyFile(f, t) => {
                let (f, t) = (f.to_text(), t.to_text());
                if self.failing_copy.as_deref() == Some(f.as_str()) || !self.parent_exists(&t) {
                    return StepOutcome::Failed;
                }
                match self.nodes.get(&f) {
                    Some(Some(bytes)) => {
                        let bytes = bytes.clone();
                        self.nodes.insert(t, Some(bytes));
                        StepOutcome::Done
                    }
                    _ => StepOutcome::Failed,
                }
            }
            TransferAction::MakeDir(p) => {
                let p = p.to_text();
                if self.nodes.contains_key(&p) || !self.parent_exists(&p) {
                    return StepOutcome::Failed;
                }
                self.nodes.insert(p, None);
                StepOutcome::Done
            }
            TransferAction::RemoveTree(p) => {
                let p = p.to_text();
                let gone = self.below(&p);
                if gone.is_empty() {
                    return StepOutcome::Failed;
                }
                for k in gone {
                    self.nodes.remove(&k);
                }
                StepOutcome::Done
            }
            TransferAction::Finish(_) => StepOutcome::Done,
        }
    }

    fn run(&mut self, mut t: Transfer) -> Result<(), ManagerError> {
        let mut outcome = StepOutcome::Done;
        loop {
            let a = t.step(outcome);
            if let TransferAction::Finish(r) = a {
                assert!(t.is_finished());
                return r;
            }
            outcome = self.apply(&a);
        }
    }
}

fn tree_fs() -> MemFs {
    let mut fs = MemFs::new();
    fs.dir("/src");
    fs.dir("/src/proj");
    fs.file("/src/proj/a.txt", b"alpha bytes");
    fs.dir("/src/proj/sub");
    fs.file("/src/proj/sub/b.bin", &[0u8, 159, 146, 150, 255]);
    fs.dir("/mnt");
    fs.dir("/mnt/usb");
    fs
}

#[test]
fn move_falls_back_to_copy_when_rename_fails() {
    let mut fs = tree_fs();
    fs.blocked_rename_from = Some("/src/proj".to_string());
    let m = Manager::new(FsPath::root());
    let t = m.move_fsitem(FsPath::parse("/src/proj"), &FsPath::parse("/mnt/usb"), MoveOption::Move).unwrap();
    assert_eq!(fs.run(t), Ok(()));
    assert_eq!(fs.nodes.get("/mnt/usb/proj/a.txt"), Some(&Some(b"alpha bytes".to_vec())));
    assert_eq!(fs.nodes.get("/mnt/usb/proj/sub/b.bin"), Some(&Some(vec![0u8, 159, 146, 150, 255])));
    assert!(fs.below("/src/proj").is_empty());
    assert!(fs.below("/mnt/usb/.proj.partial").is_empty());
}

#[test]
fn copy_fallback_leaves_source_intact() {
    let mut fs = tree_fs();
    fs.blocked_rename_from = Some("/src/proj".to_string());
    let t = Transfer::new(FsPath::parse("/src/proj"), &FsPath::parse("/mnt/usb"), MoveOption::Copy).unwrap();
    assert_eq!(fs.run(t), Ok(()));
    assert_eq!(fs.nodes.get("/src/proj/a.txt"), Some(&Some(b"alpha bytes".to_vec())));
    assert_eq!(fs.nodes.get("/mnt/usb/proj/a.txt"), Some(&Some(b"alpha bytes".to_vec())));
    assert_eq!(fs.nodes.get("/mnt/usb/proj/sub/b.bin"), fs.nodes.get("/src/proj/sub/b.bin"));
}

#[test]
fn move_by_rename_when_possible() {
    let mut fs = tree_fs();
    let mut t = Transfer::new(FsPath::parse("/src/proj/a.txt"), &FsPath::parse("/mnt"), MoveOption::Move).unwrap();
    let a = t.step(StepOutcome::Done);
    assert_eq!(a, TransferAction::Rename(FsPath::parse("/src/proj/a.txt"), FsPath::parse("/mnt/a.txt")));
    let o = fs.apply(&a);
    assert_eq!(t.step(o), TransferAction::Finish(Ok(())));
    assert_eq!(fs.nodes.get("/mnt/a.txt"), Some(&Some(b"alpha bytes".to_vec())));
    assert!(!fs.nodes.contains_key("/src/proj/a.txt"));
}

#[test]
fn failed_copy_removes_staged_tree_and_keeps_source() {
    let mut fs = tree_fs();
    fs.blocked_rename_from = Some("/src/proj".to_string());
    fs.failing_copy = Some("/src/proj/sub/b.bin".to_string());
    let t = Transfer::new(FsPath::parse("/src/proj"), &FsPath::parse("/mnt/usb"), MoveOption::Move).unwrap();
    assert_eq!(fs.run(t), Err(ManagerError::CrossDeviceFallbackFailure));
    assert!(fs.below("/mnt/usb/.proj.partial").is_empty());
    assert!(fs.below("/mnt/usb/proj").is_empty());
    assert_eq!(fs.nodes.get("/src/proj/sub/b.bin"), Some(&Some(vec![0u8, 159, 146, 150, 255])));
}

#[test]
fn transfer_of_special_file_is_refused() {
    let mut t = Transfer::new(FsPath::parse("/dev/tty"), &FsPath::parse("/mnt"), MoveOption::Copy).unwrap();
    assert_eq!(t.step(StepOutcome::Done), TransferAction::Inspect(FsPath::parse("/dev/tty")));
    assert_eq!(
        t.step(StepOutcome::Kind(EntryKind::Other, Vec::new())),
        TransferAction::RemoveTree(FsPath::parse("/mnt/.tty.partial"))
    );
    assert_eq!(t.step(StepOutcome::Failed), TransferAction::Finish(Err(ManagerError::NoPermission)));
    assert!(t.is_finished());
    assert_eq!(t.step(StepOutcome::Done), TransferAction::Finish(Err(ManagerError::NoPermission)));
}

#[test]
fn transfer_of_root_is_refused() {
    assert!(matches!(
        Transfer::new(FsPath::root(), &FsPath::parse("/mnt"), MoveOption::Move),
        Err(ManagerError::InvalidPath)
    ));
    assert_eq!(move_target(&FsPath::root(), &FsPath::parse("/mnt")), Err(ManagerError::InvalidPath));
    assert_eq!(
        move_target(&FsPath::parse("/a/b.txt"), &FsPath::parse("/mnt")),
        Ok(FsPath::parse("/mnt/b.txt"))
    );
}

#[test]
fn creating_a_directory_twice_fails_the_second_time() {
    let mut fs = MemFs::new();
    fs.dir("/home");
    let m = Manager::new(FsPath::parse("/home"));
    for round in 0..2 {
        let target = create_target(m.get_current_path(), "newdir/").unwrap();
        let exists = fs.nodes.contains_key(&target.path.to_text());
        let r = m.create_fsitem("newdir/", exists);
        if round == 0 {
            let plan = r.unwrap();
            assert!(plan.is_dir);
            assert_eq!(plan.path.to_text(), "/home/newdir");
            fs.dir(&plan.path.to_text());
        } else {
            assert_eq!(r, Err(ManagerError::AlreadyExists));
        }
    }
}

#[test]
fn creating_over_an_existing_file_is_refused() {
    let m = Manager::new(FsPath::parse("/w"));
    assert_eq!(m.create_fsitem("notes.txt", true), Err(ManagerError::AlreadyExists));
    let plan = m.create_fsitem("notes.txt", false).unwrap();
    assert!(!plan.is_dir);
    assert_eq!(m.create_fsitem("", false), Err(ManagerError::InvalidPath));
}

#[test]
fn create_plans() {
    let here = FsPath::parse("/w");
    let f = create_target(&here, "notes.txt").unwrap();
    assert!(!f.is_dir);
    assert_eq!(f.path.to_text(), "/w/notes.txt");
    let nested = create_target(&here, "a/b/").unwrap();
    assert!(nested.is_dir);
    assert_eq!(nested.path.to_text(), "/w/a/b");
    assert!(matches!(create_target(&here, ""), Err(ManagerError::InvalidPath)));
    assert!(matches!(create_target(&here, "//"), Err(ManagerError::InvalidPath)));
}

#[test]
fn rename_targets_same_parent() {
    let m = Manager::new(FsPath::parse("/w"));
    assert_eq!(m.rename_fsitem(&FsPath::parse("/w/old.txt"), "new.txt", false), Ok(FsPath::parse("/w/new.txt")));
    assert_eq!(m.rename_fsitem(&FsPath::parse("/w/old.txt"), "new.txt", true), Err(ManagerError::AlreadyExists));
    assert_eq!(m.rename_fsitem(&FsPath::root(), "x", false), Err(ManagerError::InvalidPath));
    assert_eq!(rename_target(&FsPath::parse("/w/a"), ""), Err(ManagerError::InvalidPath));
    assert_eq!(rename_target(&FsPath::parse("/w/a"), "b/c"), Ok(FsPath::parse("/w/b/c")));
}

#[test]
fn delete_picks_tree_or_file() {
    let m = Manager::new(FsPath::root());
    assert_eq!(m.delete_fsitem(FsPath::parse("/a"), true), Removal::Tree(FsPath::parse("/a")));
    assert_eq!(m.delete_fsitem(FsPath::parse("/a.txt"), false), Removal::File(FsPath::parse("/a.txt")));
}
