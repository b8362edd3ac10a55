use vstd::prelude::*;
use vstd::string::*;

use crate::manager::ManagerError;
use crate::path::{segments_of, split_segments, FsPath};

verus! {

/// Whether a transfer keeps the source.
#[derive(Debug, Clone, Copy, PartialEq, Eq)]
pub enum MoveOption {
    Move,
    Copy,
}

/// What a filesystem entry turned out to be.
#[derive(Debug, Clone, Copy, PartialEq, Eq)]
pub enum EntryKind {
    File,
    Dir,
    Other,
}

/// What came of the last action a transfer asked for.
#[derive(Debug, PartialEq, Eq)]
pub enum StepOutcome {
    /// The action succeeded.
    Done,
    /// The action failed.
    Failed,
    /// What an inspected path is; for a directory, the names it holds.
    Kind(EntryKind, Vec<String>),
}

/// The next thing a transfer asks the filesystem to do.
#[derive(Debug, PartialEq, Eq)]
pub enum TransferAction {
    /// Rename the first path to the second, in one step.
    Rename(FsPath, FsPath),
    /// Report what the path is.
    Inspect(FsPath),
    /// Copy the file's bytes from the first path to the second.
    CopyFile(FsPath, FsPath),
    /// Create the directory.
    MakeDir(FsPath),
    /// Remove the path and everything below it.
    RemoveTree(FsPath),
    /// The transfer is over, with this result.
    Finish(Result<(), ManagerError>),
}

/// Where a transfer stands.
#[derive(Debug, Clone, Copy, PartialEq, Eq)]
pub enum Phase {
    Start,
    Renaming,
    Inspecting,
    Copying,
    MakingDir,
    Publishing,
    RemovingSource,
    CleaningUp,
    Finished,
}

/// How an item is deleted.
#[derive(Debug, PartialEq, Eq)]
pub enum Removal {
    /// Remove the directory and everything below it.
    Tree(FsPath),
    /// Remove the single file.
    File(FsPath),
}

/// An item to make: where, and whether it is a directory.
#[derive(Debug, PartialEq, Eq)]
pub struct CreatePlan {
    pub path: FsPath,
    pub is_dir: bool,
}

/// The last character of a text, if any.
pub open spec fn ends_with_sep(s: Seq<char>) -> bool {
    s.len() > 0 && s.last() == '/'
}

/// Where an item named `file_name` is made: the name's segments below `dir`. A name that
/// ends with '/' names a directory.
pub fn create_target(dir: &FsPath, file_name: &str) -> (r: Result<CreatePlan, ManagerError>)
    ensures
        segments_of(file_name@).len() == 0 ==> r == Err::<CreatePlan, ManagerError>(ManagerError::InvalidPath),
        segments_of(file_name@).len() > 0 ==> r is Ok && r->Ok_0.path@ == dir@ + segments_of(file_name@)
            && r->Ok_0.is_dir == ends_with_sep(file_name@),
{
    let segs = split_segments(file_name);
    if segs.len() == 0 {
        return Err(ManagerError::InvalidPath);
    }
    let mut path = dir.duplicate();
    let mut i: usize = 0;
    while i < segs.len()
        invariant
            i <= segs@.len(),
            path@ == dir@ + segs@.map_values(|x: String| x@).subrange(0, i as int),
        decreases segs@.len() - i,
    {
        let ghost before = path@;
        let next = path.join(segs[i].as_str());
        path = next;
        assert(segs@.map_values(|x: String| x@).subrange(0, i + 1) =~= segs@.map_values(|x: String| x@).subrange(0, i as int).push(segs@[i as int]@));
        i = i + 1;
    }
    assert(segs@.map_values(|x: String| x@).subrange(0, i as int) =~= segs@.map_values(|x: String| x@));
    let n = file_name.unicode_len();
    let is_dir = n > 0 && file_name.get_char(n - 1) == '/';
    Ok(CreatePlan { path, is_dir })
}

/// Where a rename of `source` to `dest` puts it: the new name's segments in the same parent.
pub fn rename_target(source: &FsPath, dest: &str) -> (r: Result<FsPath, ManagerError>)
    ensures
        (source@.len() == 0 || segments_of(dest@).len() == 0) ==> r == Err::<FsPath, ManagerError>(
            ManagerError::InvalidPath,
        ),
        (source@.len() > 0 && segments_of(dest@).len() > 0) ==> r is Ok && r->Ok_0@ == source@.drop_last()
            + segments_of(dest@),
{
    let mut parent = source.duplicate();
    if !parent.pop() {
        return Err(ManagerError::InvalidPath);
    }
    match create_target(&parent, dest) {
        Ok(plan) => Ok(plan.path),
        Err(e) => Err(e),
    }
}

/// Where a move of `source` into `dest_dir` puts it: under `dest_dir`, with the same name.
pub fn move_target(source: &FsPath, dest_dir: &FsPath) -> (r: Result<FsPath, ManagerError>)
    ensures
        source@.len() == 0 ==> r == Err::<FsPath, ManagerError>(ManagerError::InvalidPath),
        source@.len() > 0 ==> r is Ok && r->Ok_0@ == dest_dir@.push(source@.last()),
{
    match source.file_name() {
        Some(n) => Ok(dest_dir.join(n.as_str())),
        None => Err(ManagerError::InvalidPath),
    }
}

/// The name a copy is built under before it is put in place.
pub open spec fn staging_name(n: Seq<char>) -> Seq<char> {
    seq!['.'] + n + seq!['.', 'p', 'a', 'r', 't', 'i', 'a', 'l']
}

/// A move or copy of `source` into a directory, run as a sequence of filesystem
/// actions. A move first tries a rename. Otherwise the source is copied under a
/// staging name beside the destination, and the copy is renamed into place only
/// once complete; only then does a move remove the source. Any failure while
/// copying removes the staged copy.
pub struct Transfer {
    source: FsPath,
    dest: FsPath,
    staging: FsPath,
    keep_source: bool,
    phase: Phase,
    todo: Vec<(FsPath, FsPath)>,
    current: (FsPath, FsPath),
    error: ManagerError,
    succeeded: bool,
}

/// The staged copy never stands where its source does: its name is longer.
/// So a transfer that keeps its source never asks to remove it.
pub proof fn lemma_staging_differs(source: Seq<Seq<char>>, dest_dir: Seq<Seq<char>>)
    requires
        source.len() > 0,
    ensures
        dest_dir.push(staging_name(source.last())) != source,
{
    let staged = dest_dir.push(staging_name(source.last()));
    assert(staged.last() == staging_name(source.last()));
    assert(staging_name(source.last()).len() == source.last().len() + 9);
}

/// The pairs queued for a directory's entries: each name below the source directory
/// and below its copy.
pub open spec fn child_pairs(from: Seq<Seq<char>>, to: Seq<Seq<char>>, names: Seq<Seq<char>>) -> Seq<
    (Seq<Seq<char>>, Seq<Seq<char>>),
> {
    names.map_values(|n: Seq<char>| (from.push(n), to.push(n)))
}

impl Transfer {
    pub closed spec fn source(&self) -> Seq<Seq<char>> {
        self.source@
    }

    pub closed spec fn dest(&self) -> Seq<Seq<char>> {
        self.dest@
    }

    pub closed spec fn staging(&self) -> Seq<Seq<char>> {
        self.staging@
    }

    /// Whether the source stays: a copy.
    pub closed spec fn keeps_source(&self) -> bool {
        self.keep_source
    }

    pub closed spec fn phase(&self) -> Phase {
        self.phase
    }

    /// The pairs (from, to) still to copy, the next one last.
    pub closed spec fn todo(&self) -> Seq<(Seq<Seq<char>>, Seq<Seq<char>>)> {
        self.todo@.map_values(|p: (FsPath, FsPath)| (p.0@, p.1@))
    }

    /// The pair being copied.
    pub closed spec fn current_pair(&self) -> (Seq<Seq<char>>, Seq<Seq<char>>) {
        (self.current.0@, self.current.1@)
    }

    /// The error a failed transfer ends with.
    pub closed spec fn failure(&self) -> ManagerError {
        self.error
    }

    /// Whether the transfer ended in success.
    pub closed spec fn has_succeeded(&self) -> bool {
        self.succeeded
    }

    /// A transfer of `source` into `dest_dir`. Fails when `source` is the root.
    pub fn new(source: FsPath, dest_dir: &FsPath, option: MoveOption) -> (r: Result<Transfer, ManagerError>)
        ensures
            source@.len() == 0 ==> r == Err::<Transfer, ManagerError>(ManagerError::InvalidPath),
            source@.len() > 0 ==> r is Ok && r->Ok_0.source() == source@ && r->Ok_0.dest()
                == dest_dir@.push(source@.last()) && r->Ok_0.staging() == dest_dir@.push(
                staging_name(source@.last()),
            ) && r->Ok_0.keeps_source() == (option is Copy) && r->Ok_0.phase() is Start
                && !r->Ok_0.has_succeeded(),
    {
        let name = match source.file_name() {
            Some(n) => n,
            None => {
                return Err(ManagerError::InvalidPath);
            },
        };
        let dest = dest_dir.join(name.as_str());
        let mut staged = ".".to_owned();
        staged.append(name.as_str());
        staged.append(".partial");
        proof {
            reveal_strlit(".");
            reveal_strlit(".partial");
            assert(staged@ =~= staging_name(source@.last()));
        }
        let staging = dest_dir.join(staged.as_str());
        let keep_source = match option {
            MoveOption::Move => false,
            MoveOption::Copy => true,
        };
        let current = (FsPath::root(), FsPath::root());
        Ok(Transfer {
            source,
            dest,
            staging,
            keep_source,
            phase: Phase::Start,
            todo: Vec::new(),
            current,
            error: ManagerError::CrossDeviceFallbackFailure,
            succeeded: false,
        })
    }

    /// Whether the transfer is over.
    pub fn is_finished(&self) -> (r: bool)
        ensures
            r == (self.phase() is Finished),
    {
        match self.phase {
            Phase::Finished => true,
            _ => false,
        }
    }

    fn begin_copy(&mut self) -> (a: TransferAction)
        ensures
            final(self).source() == old(self).source(),
            final(self).dest() == old(self).dest(),
            final(self).staging() == old(self).staging(),
            final(self).keeps_source() == old(self).keeps_source(),
            final(self).has_succeeded() == old(self).has_succeeded(),
            final(self).phase() is Inspecting,
            final(self).todo().len() == 0,
            final(self).current_pair() == (old(self).source(), old(self).staging()),
            a is Inspect && a->Inspect_0@ == old(self).source(),
    {
        self.todo = Vec::new();
        self.current = (self.source.duplicate(), self.staging.duplicate());
        self.phase = Phase::Inspecting;
        assert(self.todo() =~= Seq::<(Seq<Seq<char>>, Seq<Seq<char>>)>::empty());
        TransferAction::Inspect(self.source.duplicate())
    }

    fn next_copy(&mut self) -> (a: TransferAction)
        ensures
            final(self).source() == old(self).source(),
            final(self).dest() == old(self).dest(),
            final(self).staging() == old(self).staging(),
            final(self).keeps_source() == old(self).keeps_source(),
            final(self).has_succeeded() == old(self).has_succeeded(),
            old(self).todo().len() > 0 ==> a is Inspect && a->Inspect_0@ == old(self).todo().last().0
                && final(self).phase() is Inspecting && final(self).current_pair() == old(self).todo().last()
                && final(self).todo() == old(self).todo().drop_last(),
            old(self).todo().len() == 0 ==> a is Rename && a->Rename_0@ == old(self).staging()
                && a->Rename_1@ == old(self).dest() && final(self).phase() is Publishing,
    {
        let ghost before = self.todo();
        match self.todo.pop() {
            Some(pair) => {
                assert(self.todo() =~= before.drop_last());
                let f = pair.0.duplicate();
                self.current = pair;
                self.phase = Phase::Inspecting;
                TransferAction::Inspect(f)
            },
            None => {
                self.phase = Phase::Publishing;
                TransferAction::Rename(self.staging.duplicate(), self.dest.duplicate())
            },
        }
    }

    fn clean_up(&mut self, error: ManagerError) -> (a: TransferAction)
        ensures
            final(self).source() == old(self).source(),
            final(self).dest() == old(self).dest(),
            final(self).staging() == old(self).staging(),
            final(self).keeps_source() == old(self).keeps_source(),
            final(self).has_succeeded() == old(self).has_succeeded(),
            final(self).phase() is CleaningUp,
            final(self).failure() == error,
            a is RemoveTree && a->RemoveTree_0@ == old(self).staging(),
    {
        self.error = error;
        self.phase = Phase::CleaningUp;
        TransferAction::RemoveTree(self.staging.duplicate())
    }

    /// Takes the outcome of the last action asked for (the first call's outcome is not
    /// looked at) and returns the next action.
    pub fn step(&mut self, outcome: StepOutcome) -> (a: TransferAction)
        ensures
            final(self).source() == old(self).source(),
            final(self).dest() == old(self).dest(),
            final(self).staging() == old(self).staging(),
            final(self).keeps_source() == old(self).keeps_source(),
            // the source is removed only by a move, right after its copy was put in place
            a is RemoveTree ==> a->RemoveTree_0@ == old(self).staging() || (!old(self).keeps_source()
                && old(self).phase() is Publishing && outcome is Done && a->RemoveTree_0@ == old(self).source()),
            // success comes only from a rename of the source, or once the copy is in
            // place and, for a move, the source is gone
            (a is Finish && a->Finish_0 is Ok) ==> (old(self).phase() is Renaming && outcome is Done)
                || (old(self).phase() is Publishing && outcome is Done && old(self).keeps_source())
                || (old(self).phase() is RemovingSource && outcome is Done)
                || (old(self).phase() is Finished && old(self).has_succeeded()),
            (old(self).phase() is Start && !old(self).keeps_source()) ==> (a is Rename
                && a->Rename_0@ == old(self).source() && a->Rename_1@ == old(self).dest()
                && final(self).phase() is Renaming),
            (old(self).phase() is Start && old(self).keeps_source()) ==> (a is Inspect
                && a->Inspect_0@ == old(self).source() && final(self).current_pair() == (old(self).source(), old(self).staging())
                && final(self).todo().len() == 0 && final(self).phase() is Inspecting),
            (old(self).phase() is Renaming && outcome is Done) ==> (a is Finish && a->Finish_0 is Ok),
            (old(self).phase() is Renaming && !(outcome is Done)) ==> (a is Inspect
                && a->Inspect_0@ == old(self).source() && final(self).current_pair() == (old(self).source(), old(self).staging())
                && final(self).todo().len() == 0 && final(self).phase() is Inspecting),
            (old(self).phase() is Inspecting && outcome is Kind && outcome->Kind_0 is File) ==> (
            a is CopyFile && a->CopyFile_0@ == old(self).current_pair().0 && a->CopyFile_1@ == old(
                self,
            ).current_pair().1 && final(self).phase() is Copying && final(self).todo() == old(self).todo()),
            (old(self).phase() is Inspecting && outcome is Kind && outcome->Kind_0 is Dir) ==> (
            a is MakeDir && a->MakeDir_0@ == old(self).current_pair().1 && final(self).phase() is MakingDir
                && final(self).todo() == old(self).todo() + child_pairs(
                old(self).current_pair().0,
                old(self).current_pair().1,
                outcome->Kind_1@.map_values(|n: String| n@),
            )),
            (old(self).phase() is Inspecting && outcome is Kind && outcome->Kind_0 is Other) ==> (
            a is RemoveTree && a->RemoveTree_0@ == old(self).staging() && final(self).failure()
                == ManagerError::NoPermission && final(self).phase() is CleaningUp),
            (old(self).phase() is Inspecting && !(outcome is Kind)) ==> (a is RemoveTree
                && a->RemoveTree_0@ == old(self).staging() && final(self).failure()
                == ManagerError::CrossDeviceFallbackFailure && final(self).phase() is CleaningUp),
            ((old(self).phase() is Copying || old(self).phase() is MakingDir) && outcome is Done
                && old(self).todo().len() > 0) ==> (a is Inspect && a->Inspect_0@ == old(self).todo().last().0
                && final(self).current_pair() == old(self).todo().last() && final(self).todo() == old(
                self,
            ).todo().drop_last() && final(self).phase() is Inspecting),
            ((old(self).phase() is Copying || old(self).phase() is MakingDir) && outcome is Done
                && old(self).todo().len() == 0) ==> (a is Rename && a->Rename_0@ == old(self).staging()
                && a->Rename_1@ == old(self).dest() && final(self).phase() is Publishing),
            (old(self).phase() is Publishing && outcome is Done && !old(self).keeps_source()) ==> (
            a is RemoveTree && a->RemoveTree_0@ == old(self).source() && final(self).phase() is RemovingSource),
            (old(self).phase() is Publishing && outcome is Done && old(self).keeps_source()) ==> (
            a is Finish && a->Finish_0 is Ok && final(self).phase() is Finished),
            (old(self).phase() is RemovingSource && outcome is Done) ==> (a is Finish && a->Finish_0 is Ok),
            (old(self).phase() is RemovingSource && !(outcome is Done)) ==> (a is Finish
                && a->Finish_0 == Err::<(), ManagerError>(ManagerError::CrossDeviceFallbackFailure)),
            ((old(self).phase() is Copying || old(self).phase() is MakingDir || old(self).phase() is Publishing)
                && !(outcome is Done)) ==> (a is RemoveTree && a->RemoveTree_0@ == old(self).staging()
                && final(self).failure() == ManagerError::CrossDeviceFallbackFailure
                && final(self).phase() is CleaningUp),
            // the copy is put in place only once every queued entry was copied, and the
            // source is removed only right after that
            final(self).phase() is Publishing ==> (old(self).phase() is Copying || old(self).phase() is MakingDir)
                && outcome is Done && old(self).todo().len() == 0,
            final(self).phase() is RemovingSource ==> old(self).phase() is Publishing && outcome is Done
                && !old(self).keeps_source(),
            old(self).phase() is CleaningUp ==> (a is Finish && a->Finish_0 == Err::<(), ManagerError>(
                old(self).failure(),
            ) && final(self).phase() is Finished && !final(self).has_succeeded()),
            old(self).phase() is Finished ==> final(self).phase() is Finished && (a is Finish
                && a->Finish_0 == if old(self).has_succeeded() {
                Ok::<(), ManagerError>(())
            } else {
                Err(old(self).failure())
            }),
            (a is Finish) == (final(self).phase() is Finished),
            final(self).phase() is Finished ==> (final(self).has_succeeded() == (a is Finish && a->Finish_0 is Ok)),
    {
        match self.phase {
            Phase::Start => {
                if self.keep_source {
                    self.begin_copy()
                } else {
                    self.phase = Phase::Renaming;
                    TransferAction::Rename(self.source.duplicate(), self.dest.duplicate())
                }
            },
            Phase::Renaming => match outcome {
                StepOutcome::Done => {
                    self.phase = Phase::Finished;
                    self.succeeded = true;
                    TransferAction::Finish(Ok(()))
                },
                _ => self.begin_copy(),
            },
            Phase::Inspecting => match outcome {
                StepOutcome::Kind(EntryKind::File, _) => {
                    self.phase = Phase::Copying;
                    TransferAction::CopyFile(self.current.0.duplicate(), self.current.1.duplicate())
                },
                StepOutcome::Kind(EntryKind::Dir, names) => {
                    let ghost start = self.todo();
                    let ghost from = self.current.0@;
                    let ghost to = self.current.1@;
                    let ghost ns = names@.map_values(|n: String| n@);
                    let mut i: usize = 0;
                    assert(child_pairs(from, to, ns.subrange(0, 0)) =~= Seq::<(Seq<Seq<char>>, Seq<Seq<char>>)>::empty());
                    assert(start + child_pairs(from, to, ns.subrange(0, 0)) =~= start);
                    while i < names.len()
                        invariant
                            i <= names@.len(),
                            ns == names@.map_values(|n: String| n@),
                            self.source@ == old(self).source@,
                            self.dest@ == old(self).dest@,
                            self.staging@ == old(self).staging@,
                            self.keep_source == old(self).keep_source,
                            self.succeeded == old(self).succeeded,
                            self.phase == old(self).phase,
                            self.current.0@ == from,
                            self.current.1@ == to,
                            self.todo() == start + child_pairs(from, to, ns.subrange(0, i as int)),
                        decreases names@.len() - i,
                    {
                        let f = self.current.0.join(names[i].as_str());
                        let t = self.current.1.join(names[i].as_str());
                        let ghost before = self.todo();
                        self.todo.push((f, t));
                        assert(self.todo() =~= before.push((from.push(ns[i as int]), to.push(ns[i as int]))));
                        assert(child_pairs(from, to, ns.subrange(0, i + 1)) =~= child_pairs(from, to, ns.subrange(0, i as int)).push((from.push(ns[i as int]), to.push(ns[i as int]))));
                        i = i + 1;
                    }
                    assert(ns.subrange(0, i as int) =~= ns);
                    self.phase = Phase::MakingDir;
                    TransferAction::MakeDir(self.current.1.duplicate())
                },
                StepOutcome::Kind(EntryKind::Other, _) => self.clean_up(ManagerError::NoPermission),
                _ => self.clean_up(ManagerError::CrossDeviceFallbackFailure),
            },
            Phase::Copying | Phase::MakingDir => match outcome {
                StepOutcome::Done => self.next_copy(),
                _ => self.clean_up(ManagerError::CrossDeviceFallbackFailure),
            },
            Phase::Publishing => match outcome {
                StepOutcome::Done => {
                    if self.keep_source {
                        self.phase = Phase::Finished;
                        self.succeeded = true;
                        TransferAction::Finish(Ok(()))
                    } else {
                        self.phase = Phase::RemovingSource;
                        TransferAction::RemoveTree(self.source.duplicate())
                    }
                },
                _ => self.clean_up(ManagerError::CrossDeviceFallbackFailure),
            },
            Phase::RemovingSource => {
                self.phase = Phase::Finished;
                match outcome {
                    StepOutcome::Done => {
                        self.succeeded = true;
                        TransferAction::Finish(Ok(()))
                    },
                    _ => {
                        self.succeeded = false;
                        self.error = ManagerError::CrossDeviceFallbackFailure;
                        TransferAction::Finish(Err(ManagerError::CrossDeviceFallbackFailure))
                    },
                }
            },
            Phase::CleaningUp => {
                self.phase = Phase::Finished;
                self.succeeded = false;
                TransferAction::Finish(Err(self.error.duplicate()))
            },
            Phase::Finished => {
                if self.succeeded {
                    TransferAction::Finish(Ok(()))
                } else {
                    TransferAction::Finish(Err(self.error.duplicate()))
                }
            },
        }
    }
}

impl ManagerError {
    /// The same error.
    pub fn duplicate(&self) -> (r: ManagerError)
        ensures
            r == *self,
    {
        match self {
            ManagerError::InvalidPath => ManagerError::InvalidPath,
            ManagerError::NoPermission => ManagerError::NoPermission,
            ManagerError::InvalidInput => ManagerError::InvalidInput,
            ManagerError::AlreadyExists => ManagerError::AlreadyExists,
            ManagerError::IsADirectory => ManagerError::IsADirectory,
            ManagerError::NotUtf8 => ManagerError::NotUtf8,
            ManagerError::CrossDeviceFallbackFailure => ManagerError::CrossDeviceFallbackFailure,
        }
    }
}

} // verus!
