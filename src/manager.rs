use vstd::prelude::*;
use vstd::utf8::{decode_utf8, valid_utf8};

use crate::fileops::{
    create_target, ends_with_sep, rename_target, staging_name, CreatePlan, MoveOption, Removal, Transfer,
};
use crate::index::{
    lemma_push_no_duplicates, path_set, paths_of, visible_count, visible_dirs, with_pairs, with_visible, without_paths, Index, IndexBuild,
    IndexOption, DIR_ENTRY_LIMIT, STEM_LIMIT,
};
use crate::listing::{is_ordered, limit_of, order_listing, EntryInfo, OpenOption};
use crate::path::{extension_of, file_extension, name_of, segments_of, FsPath};
use crate::preview::{file_preview, first_lines, preview_head, PREVIEW_LINES};
use crate::search::{
    is_valid_term, lowercase, lower_of, split_term, term_extension, term_stem, trim_text, trimmed,
    valid_term, SearchSession,
};

verus! {

/// What can go wrong in the manager's operations.
#[derive(Debug, PartialEq, Eq)]
pub enum ManagerError {
    /// The target does not exist or is not of the expected kind.
    InvalidPath,
    /// The filesystem refused access.
    NoPermission,
    /// The search term is malformed.
    InvalidInput,
    /// Something already stands where an item was to be made.
    AlreadyExists,
    /// A file was expected and a directory was found.
    IsADirectory,
    /// A file preview found bytes that are not UTF-8 text.
    NotUtf8,
    /// A copy that stood in for a rename failed part way.
    CrossDeviceFallbackFailure,
}

/// The status shown to the user while background work runs.
pub struct Flags {
    pub is_searching: bool,
    pub is_indexing: bool,
    pub is_loading: bool,
}

impl Flags {
    /// All flags down.
    pub fn new() -> (r: Flags)
        ensures
            !r.is_searching && !r.is_indexing && !r.is_loading,
    {
        Flags { is_searching: false, is_indexing: false, is_loading: false }
    }
}

/// Where the navigator is: the current directory, and the stack of earlier
/// locations with the cursor index to restore on return.
pub type NavState = (Seq<Seq<char>>, Seq<(Seq<Seq<char>>, usize)>);

/// The location after moving into `p` with the cursor at `idx`.
pub open spec fn nav_change(s: NavState, p: Seq<Seq<char>>, idx: usize) -> NavState {
    (p, s.1.push((s.0, idx)))
}

/// The location after one step back, and what the step returns: the last location
/// pushed with its cursor index, else the parent with cursor 0, else an error at the root.
pub open spec fn nav_back(s: NavState) -> (NavState, Result<usize, ManagerError>) {
    if s.1.len() > 0 {
        ((s.1.last().0, s.1.drop_last()), Ok(s.1.last().1))
    } else if s.0.len() > 0 {
        ((s.0.drop_last(), s.1), Ok(0))
    } else {
        (s, Err(ManagerError::InvalidPath))
    }
}

/// Whether a candidate path has the extension a term asks for.
pub open spec fn extension_ok(p: Seq<Seq<char>>, ext: Option<Seq<char>>) -> bool {
    match ext {
        None => true,
        Some(e) => name_of(p) is Some && extension_of(name_of(p)->0) == Some(e),
    }
}

/// The paths that the index answers for a trimmed term.
pub open spec fn index_hits(m: Map<Seq<char>, Set<Seq<Seq<char>>>>, t: Seq<char>) -> Set<
    Seq<Seq<char>>,
> {
    if m.contains_key(term_stem(t)) {
        m[term_stem(t)].filter(|p: Seq<Seq<char>>| extension_ok(p, term_extension(t)))
    } else {
        Set::empty()
    }
}

/// The search id that follows `id`.
pub open spec fn next_id(id: u64) -> u64 {
    if id == u64::MAX {
        0
    } else {
        (id + 1) as u64
    }
}

/// Moving into a directory and stepping back returns to where one was, with the
/// cursor index one had.
pub proof fn lemma_step_back_undoes_change(s: NavState, p: Seq<Seq<char>>, idx: usize)
    ensures
        nav_back(nav_change(s, p, idx)) == (s, Ok::<usize, ManagerError>(idx)),
{
    assert(nav_change(s, p, idx).1.drop_last() =~= s.1);
}

/// Two moves undone by two steps back: the first location comes back, and the second
/// step returns the cursor index given with the first move.
pub proof fn lemma_two_steps_back(s: NavState, a: Seq<Seq<char>>, i: usize, b: Seq<Seq<char>>, j: usize)
    ensures
        ({
            let s2 = nav_change(nav_change(s, a, i), b, j);
            let (s3, r1) = nav_back(s2);
            let (s4, r2) = nav_back(s3);
            s4 == s && r1 == Ok::<usize, ManagerError>(j) && r2 == Ok::<usize, ManagerError>(i)
        }),
{
    lemma_step_back_undoes_change(nav_change(s, a, i), b, j);
    lemma_step_back_undoes_change(s, a, i);
}

/// The navigation and search engine: the current directory, the way back, the
/// filename index and the status flags.
pub struct Manager {
    homedir: FsPath,
    current: FsPath,
    flags: Flags,
    pathstack: Vec<(FsPath, usize)>,
    index: Index,
    search_id: u64,
}

impl Manager {
    pub closed spec fn current_path(&self) -> Seq<Seq<char>> {
        self.current@
    }

    pub closed spec fn home_path(&self) -> Seq<Seq<char>> {
        self.homedir@
    }

    pub closed spec fn stack(&self) -> Seq<(Seq<Seq<char>>, usize)> {
        self.pathstack@.map_values(|e: (FsPath, usize)| (e.0@, e.1))
    }

    /// Where the navigator is.
    pub open spec fn nav(&self) -> NavState {
        (self.current_path(), self.stack())
    }

    pub closed spec fn searching(&self) -> bool {
        self.flags.is_searching
    }

    pub closed spec fn indexing(&self) -> bool {
        self.flags.is_indexing
    }

    pub closed spec fn loading(&self) -> bool {
        self.flags.is_loading
    }

    /// The id of the latest search.
    pub closed spec fn current_search(&self) -> u64 {
        self.search_id
    }

    pub closed spec fn index_model(&self) -> Map<Seq<char>, Set<Seq<Seq<char>>>> {
        self.index.model()
    }

    pub closed spec fn index_sync(&self) -> Option<u64> {
        self.index.synced_at()
    }

    pub closed spec fn wf(&self) -> bool {
        self.index.wf()
    }

    /// A manager that starts in `home`, with an empty index and all flags down.
    pub fn new(home: FsPath) -> (r: Manager)
        ensures
            r.wf(),
            r.current_path() == home@,
            r.home_path() == home@,
            r.stack().len() == 0,
            !r.searching() && !r.indexing() && !r.loading(),
            r.index_model() == Map::<Seq<char>, Set<Seq<Seq<char>>>>::empty(),
    {
        let current = home.duplicate();
        let r = Manager {
            homedir: home,
            current,
            flags: Flags::new(),
            pathstack: Vec::new(),
            index: Index::new(),
            search_id: 0,
        };
        assert(r.stack() =~= Seq::<(Seq<Seq<char>>, usize)>::empty());
        r
    }

    /// The directory the manager is in.
    pub fn get_current_path(&self) -> (r: &FsPath)
        ensures
            r@ == self.current_path(),
    {
        &self.current
    }

    /// Whether a fallback search is running.
    pub fn is_searching(&self) -> (r: bool)
        ensures
            r == self.searching(),
    {
        self.flags.is_searching
    }

    /// Whether an index build is running.
    pub fn is_indexing(&self) -> (r: bool)
        ensures
            r == self.indexing(),
    {
        self.flags.is_indexing
    }

    /// Whether the index is being loaded.
    pub fn is_loading(&self) -> (r: bool)
        ensures
            r == self.loading(),
    {
        self.flags.is_loading
    }

    /// Raises or lowers the indexing flag.
    pub fn set_indexing(&mut self, on: bool)
        ensures
            final(self).indexing() == on,
            final(self).searching() == old(self).searching(),
            final(self).loading() == old(self).loading(),
            final(self).nav() == old(self).nav(),
            final(self).current_search() == old(self).current_search(),
            final(self).index_model() == old(self).index_model(),
            final(self).index_sync() == old(self).index_sync(),
            final(self).wf() == old(self).wf(),
    {
        self.flags.is_indexing = on;
    }

    /// Raises or lowers the loading flag.
    pub fn set_loading(&mut self, on: bool)
        ensures
            final(self).loading() == on,
            final(self).searching() == old(self).searching(),
            final(self).indexing() == old(self).indexing(),
            final(self).nav() == old(self).nav(),
            final(self).current_search() == old(self).current_search(),
            final(self).index_model() == old(self).index_model(),
            final(self).index_sync() == old(self).index_sync(),
            final(self).wf() == old(self).wf(),
    {
        self.flags.is_loading = on;
    }

    /// Forgets the last location pushed: a reload of the current directory goes
    /// through `change_dir`, which pushes the directory it leaves.
    pub fn after_reload(&mut self)
        ensures
            final(self).current_path() == old(self).current_path(),
            old(self).stack().len() > 0 ==> final(self).stack() == old(self).stack().drop_last(),
            old(self).stack().len() == 0 ==> final(self).stack() == old(self).stack(),
            final(self).searching() == old(self).searching(),
            final(self).index_model() == old(self).index_model(),
            final(self).wf() == old(self).wf(),
    {
        let ghost before = self.stack();
        let popped = self.pathstack.pop();
        proof {
            if popped is Some {
                assert(self.stack() =~= before.drop_last());
            }
        }
    }

    /// Moves into `new_path`, remembering where the manager was and the cursor index
    /// there. `entries` is what reading `new_path` gave: `None` when it does not exist
    /// or is not a directory. Returns the new directory's listing. Any running search
    /// is cancelled.
    pub fn change_dir(&mut self, new_path: FsPath, entries: Option<Vec<EntryInfo>>, cursor_idx: usize) -> (r: Result<Vec<EntryInfo>, ManagerError>)
        ensures
            entries is None ==> r == Err::<Vec<EntryInfo>, ManagerError>(ManagerError::InvalidPath)
                && *final(self) == *old(self),
            entries is Some ==> r is Ok && final(self).nav() == nav_change(old(self).nav(), new_path@, cursor_idx)
                && !final(self).searching() && is_ordered(r->Ok_0@) && r->Ok_0@.to_multiset()
                == entries->0@.to_multiset(),
            final(self).index_model() == old(self).index_model(),
            final(self).index_sync() == old(self).index_sync(),
            final(self).indexing() == old(self).indexing(),
            final(self).loading() == old(self).loading(),
            final(self).current_search() == old(self).current_search(),
            final(self).wf() == old(self).wf(),
    {
        match entries {
            None => Err(ManagerError::InvalidPath),
            Some(es) => {
                self.flags.is_searching = false;
                let ghost before = self.stack();
                let mut old_current = new_path;
                std::mem::swap(&mut self.current, &mut old_current);
                self.pathstack.push((old_current, cursor_idx));
                assert(self.stack() =~= before.push((old(self).current_path(), cursor_idx)));
                let ghost all = es@;
                let n = es.len();
                assert(all.len() == n);
                assert(all.subrange(0, all.len() as int) =~= all);
                let listing = order_listing(es, OpenOption::Full);
                Ok(listing)
            },
        }
    }

    /// Goes back to the last location pushed and returns its cursor index; with
    /// nothing pushed, goes to the parent directory with cursor 0. Fails only at the
    /// root. Any running search is cancelled.
    pub fn step_back(&mut self) -> (r: Result<usize, ManagerError>)
        ensures
            (final(self).nav(), r) == nav_back(old(self).nav()),
            !final(self).searching(),
            final(self).index_model() == old(self).index_model(),
            final(self).index_sync() == old(self).index_sync(),
            final(self).indexing() == old(self).indexing(),
            final(self).loading() == old(self).loading(),
            final(self).current_search() == old(self).current_search(),
            final(self).wf() == old(self).wf(),
    {
        self.flags.is_searching = false;
        let ghost before = self.stack();
        match self.pathstack.pop() {
            Some((prev, cursor_idx)) => {
                assert(self.stack() =~= before.drop_last());
                self.current = prev;
                Ok(cursor_idx)
            },
            None => {
                assert(before.len() == 0);
                if self.current.pop() {
                    Ok(0)
                } else {
                    Err(ManagerError::InvalidPath)
                }
            },
        }
    }

    /// Starts a search for `term` from the current directory. A term that is empty
    /// once trimmed, or that holds "..", is refused and nothing changes. Otherwise the
    /// current location is pushed (so that stepping back leaves the results), the
    /// results are cleared and filled with what the index answers, the searching flag
    /// goes up under a new search id, and the walk for the fallback search is returned.
    pub fn perform_search(&mut self, term: &str, items: &mut Vec<FsPath>, cursor_idx: usize) -> (r: Result<SearchSession, ManagerError>)
        requires
            old(self).wf(),
        ensures
            final(self).wf(),
            !valid_term(term@) ==> r is Err && r->Err_0 == ManagerError::InvalidInput
                && *final(self) == *old(self) && *final(items) == *old(items),
            valid_term(term@) ==> r is Ok,
            valid_term(term@) ==> final(self).nav() == (old(self).current_path(), old(self).stack().push((old(self).current_path(), cursor_idx))),
            valid_term(term@) ==> final(self).searching(),
            valid_term(term@) ==> final(self).current_search() == next_id(old(self).current_search()),
            valid_term(term@) ==> path_set(final(items)@) == index_hits(old(self).index_model(), trimmed(term@)),
            valid_term(term@) ==> paths_of(final(items)@).no_duplicates(),
            r matches Ok(session) ==> session.wf() && !session.is_finished()
                && session.search_id() == final(self).current_search()
                && session.pending() == seq![old(self).current_path()]
                && session.lower_term() == lower_of(trimmed(term@)),
            final(self).index_model() == old(self).index_model(),
            final(self).index_sync() == old(self).index_sync(),
            final(self).indexing() == old(self).indexing(),
            final(self).loading() == old(self).loading(),
    {
        if !is_valid_term(term) {
            return Err(ManagerError::InvalidInput);
        }
        let t = trim_text(term);
        let ghost before = self.stack();
        self.pathstack.push((self.current.duplicate(), cursor_idx));
        assert(self.stack() =~= before.push((old(self).current_path(), cursor_idx)));
        items.clear();
        self.flags.is_searching = true;
        self.search_id = if self.search_id == u64::MAX {
            0
        } else {
            self.search_id + 1
        };
        self.index_search(t.as_str(), items);
        let lower = lowercase(t.as_str());
        Ok(SearchSession::start(lower, self.current.duplicate(), self.search_id))
    }

    /// Appends to `items` the indexed paths whose stem is the term's stem and whose
    /// extension is the one the term asks for, if any.
    fn index_search(&self, t: &str, items: &mut Vec<FsPath>)
        requires
            self.wf(),
            old(items)@.len() == 0,
        ensures
            path_set(final(items)@) == index_hits(self.index_model(), t@),
            paths_of(final(items)@).no_duplicates(),
    {
        let (stem, ext) = split_term(t);
        let ghost want = term_extension(t@);
        let cands = self.index.lookup(stem.as_str());
        let ghost cs = path_set(cands@);
        let mut i: usize = 0;
        assert(path_set(items@) =~= Set::<Seq<Seq<char>>>::empty());
        assert(paths_of(items@) =~= Seq::<Seq<Seq<char>>>::empty());
        while i < cands.len()
            invariant
                i <= cands@.len(),
                paths_of(cands@).no_duplicates(),
                paths_of(items@).no_duplicates(),
                match ext {
                    Some(e) => want == Some(e@),
                    None => want is None,
                },
                forall|x: Seq<Seq<char>>|
                    #![trigger path_set(items@).contains(x)]
                    #![trigger path_set(cands@.subrange(0, i as int)).contains(x)]
                    path_set(items@).contains(x) <==> (path_set(cands@.subrange(0, i as int)).contains(x)
                        && extension_ok(x, want)),
            decreases cands@.len() - i,
        {
            let ghost items_before = items@.map_values(|q: FsPath| q@);
            let ghost set_before = path_set(items@);
            let ghost pre = cands@.subrange(0, i as int).map_values(|q: FsPath| q@);
            let ghost x_i = cands@[i as int]@;
            assert(cands@.subrange(0, i + 1).map_values(|q: FsPath| q@) =~= pre.push(x_i));
            proof {
                pre.lemma_push_to_set_commute(x_i);
            }
            let keep = Self::has_extension(&cands[i], &ext);
            if keep {
                assert(!items_before.contains(x_i)) by {
                    if items_before.contains(x_i) {
                        assert(set_before.contains(x_i));
                        assert(pre.contains(x_i));
                        let j = choose|j: int| 0 <= j < pre.len() && #[trigger] pre[j] == x_i;
                        assert(paths_of(cands@)[j] == paths_of(cands@)[i as int]);
                    }
                }
                items.push(cands[i].duplicate());
                assert(items@.map_values(|q: FsPath| q@) =~= items_before.push(x_i));
                proof {
                    items_before.lemma_push_to_set_commute(x_i);
                    lemma_push_no_duplicates(items_before, x_i);
                }
                assert(path_set(items@) == set_before.insert(x_i));
            }
            proof {
                assert(keep == extension_ok(x_i, want));
                assert(path_set(cands@.subrange(0, i + 1)) == path_set(cands@.subrange(0, i as int)).insert(x_i));
                assert forall|x: Seq<Seq<char>>|
                    path_set(items@).contains(x) <==> (path_set(cands@.subrange(0, i + 1)).contains(x)
                        && extension_ok(x, want)) by {
                    assert(set_before.contains(x) <==> (path_set(cands@.subrange(0, i as int)).contains(x)
                        && extension_ok(x, want)));
                }
            }
            i = i + 1;
        }
        assert(cands@.subrange(0, i as int) =~= cands@);
        assert(path_set(items@) =~= index_hits(self.index_model(), t@));
    }

    /// Whether the path's name has extension `ext`; any path passes when `ext` is `None`.
    fn has_extension(p: &FsPath, ext: &Option<String>) -> (r: bool)
        ensures
            r == extension_ok(
                p@,
                match ext {
                    Some(e) => Some(e@),
                    None => None,
                },
            ),
    {
        match ext {
            None => true,
            Some(e) => match p.file_name() {
                Some(n) => match file_extension(n.as_str()) {
                    Some(x) => x == *e,
                    None => false,
                },
                None => false,
            },
        }
    }

    /// Whether the search `id` is still the running one.
    pub fn search_active(&self, id: u64) -> (r: bool)
        ensures
            r == (self.searching() && self.current_search() == id),
    {
        self.flags.is_searching && self.search_id == id
    }

    /// Marks the search `id` as over. The flag goes down only for the running search:
    /// a later search keeps its flag up, and a second call changes nothing.
    pub fn finish_search(&mut self, id: u64)
        ensures
            final(self).searching() == (old(self).searching() && old(self).current_search() != id),
            final(self).current_search() == old(self).current_search(),
            final(self).nav() == old(self).nav(),
            final(self).index_model() == old(self).index_model(),
            final(self).index_sync() == old(self).index_sync(),
            final(self).indexing() == old(self).indexing(),
            final(self).loading() == old(self).loading(),
            final(self).wf() == old(self).wf(),
    {
        if self.search_id == id {
            self.flags.is_searching = false;
        }
    }

    /// The next directory an index build reads, if it goes on.
    pub fn next_index_directory(&self, build: &mut IndexBuild) -> (r: Option<FsPath>)
        ensures
            self.index_model().dom().len() > STEM_LIMIT ==> r is None && final(build).pending().len() == 0,
            self.index_model().dom().len() <= STEM_LIMIT ==> match r {
                Some(d) => old(build).pending().len() > 0 && d@ == old(build).pending().last()
                    && final(build).pending() == old(build).pending().drop_last(),
                None => old(build).pending().len() == 0,
            },
            final(build).descends() == old(build).descends(),
    {
        build.next_directory(&self.index)
    }

    /// Records a directory that an index build read.
    pub fn index_directory(&mut self, build: &mut IndexBuild, entries: &Vec<EntryInfo>)
        requires
            old(self).wf(),
        ensures
            final(self).wf(),
            visible_count(entries@) <= DIR_ENTRY_LIMIT ==> final(self).index_model() == with_visible(
                old(self).index_model(),
                entries@,
            ) && final(build).pending() == old(build).pending() + (if old(build).descends() {
                visible_dirs(entries@)
            } else {
                seq![]
            }),
            visible_count(entries@) > DIR_ENTRY_LIMIT ==> final(self).index_model() == old(self).index_model()
                && final(build).pending() == old(build).pending(),
            final(build).descends() == old(build).descends(),
            final(self).nav() == old(self).nav(),
            final(self).searching() == old(self).searching(),
            final(self).indexing() == old(self).indexing(),
            final(self).loading() == old(self).loading(),
            final(self).current_search() == old(self).current_search(),
            final(self).index_sync() == old(self).index_sync(),
    {
        build.add_directory(&mut self.index, entries);
    }

    /// Puts a loaded index in place.
    pub fn install_index(&mut self, index: Index)
        requires
            index.wf(),
        ensures
            final(self).wf(),
            final(self).index_model() == index.model(),
            final(self).index_sync() == index.synced_at(),
            final(self).nav() == old(self).nav(),
            final(self).searching() == old(self).searching(),
    {
        self.index = index;
    }

    /// A directory listing: the entries read from it, cut to the option's limit, in
    /// the listing order.
    pub fn read_dir(&self, entries: Vec<EntryInfo>, option: OpenOption) -> (r: Vec<EntryInfo>)
        ensures
            is_ordered(r@),
            r@.to_multiset() == entries@.subrange(
                0,
                if entries@.len() <= limit_of(option) {
                    entries@.len() as int
                } else {
                    limit_of(option)
                },
            ).to_multiset(),
    {
        order_listing(entries, option)
    }

    /// The preview of a file from the bytes read from its start: an error for anything
    /// but a regular file or for bytes that are not UTF-8, else its first lines.
    pub fn read_file(&self, is_file: bool, bytes: &Vec<u8>) -> (r: Result<String, ManagerError>)
        ensures
            !is_file ==> r == Err::<String, ManagerError>(ManagerError::IsADirectory),
            is_file && !valid_utf8(preview_head(bytes@)) ==> r == Err::<String, ManagerError>(
                ManagerError::NotUtf8,
            ),
            is_file && valid_utf8(preview_head(bytes@)) ==> r is Ok && r->Ok_0@ == first_lines(
                decode_utf8(preview_head(bytes@)),
                PREVIEW_LINES as int,
            ),
    {
        file_preview(is_file, bytes)
    }

    /// Makes an item named `file_name` in the current directory: a directory when the
    /// name ends with '/', else a new file. `target_exists` is whether something already
    /// stands where the item goes (see `create_target`); then nothing is made.
    pub fn create_fsitem(&self, file_name: &str, target_exists: bool) -> (r: Result<CreatePlan, ManagerError>)
        ensures
            segments_of(file_name@).len() == 0 ==> r == Err::<CreatePlan, ManagerError>(ManagerError::InvalidPath),
            segments_of(file_name@).len() > 0 && target_exists ==> r == Err::<CreatePlan, ManagerError>(
                ManagerError::AlreadyExists,
            ),
            segments_of(file_name@).len() > 0 && !target_exists ==> r is Ok && r->Ok_0.path@
                == self.current_path() + segments_of(file_name@) && r->Ok_0.is_dir == ends_with_sep(file_name@),
    {
        let plan = create_target(&self.current, file_name)?;
        if target_exists {
            return Err(ManagerError::AlreadyExists);
        }
        Ok(plan)
    }

    /// Where a rename of `source` to `dest` puts it: in the same parent directory.
    /// `target_exists` is whether something already stands there (see `rename_target`);
    /// then the rename is refused, for nothing is overwritten.
    pub fn rename_fsitem(&self, source: &FsPath, dest: &str, target_exists: bool) -> (r: Result<FsPath, ManagerError>)
        ensures
            (source@.len() == 0 || segments_of(dest@).len() == 0) ==> r == Err::<FsPath, ManagerError>(
                ManagerError::InvalidPath,
            ),
            (source@.len() > 0 && segments_of(dest@).len() > 0 && target_exists) ==> r == Err::<
                FsPath,
                ManagerError,
            >(ManagerError::AlreadyExists),
            (source@.len() > 0 && segments_of(dest@).len() > 0 && !target_exists) ==> r is Ok && r->Ok_0@
                == source@.drop_last() + segments_of(dest@),
    {
        let target = rename_target(source, dest)?;
        if target_exists {
            return Err(ManagerError::AlreadyExists);
        }
        Ok(target)
    }

    /// How `path` is deleted: a directory with everything below it, anything else
    /// as a single file.
    pub fn delete_fsitem(&self, path: FsPath, is_dir: bool) -> (r: Removal)
        ensures
            is_dir ==> r is Tree && r->Tree_0@ == path@,
            !is_dir ==> r is File && r->File_0@ == path@,
    {
        if is_dir {
            Removal::Tree(path)
        } else {
            Removal::File(path)
        }
    }

    /// The transfer that moves or copies `source` into `dest`.
    pub fn move_fsitem(&self, source: FsPath, dest: &FsPath, option: MoveOption) -> (r: Result<Transfer, ManagerError>)
        ensures
            source@.len() == 0 ==> r == Err::<Transfer, ManagerError>(ManagerError::InvalidPath),
            source@.len() > 0 ==> r is Ok && r->Ok_0.source() == source@ && r->Ok_0.dest()
                == dest@.push(source@.last()) && r->Ok_0.staging() == dest@.push(
                staging_name(source@.last()),
            ) && r->Ok_0.keeps_source() == (option is Copy) && r->Ok_0.phase() is Start,
    {
        Transfer::new(source, dest, option)
    }

    /// Starts an index build at `dir`, stamping the index with the time `now`.
    pub fn build_index(&mut self, dir: FsPath, option: IndexOption, now: u64) -> (r: IndexBuild)
        requires
            old(self).wf(),
        ensures
            final(self).wf(),
            final(self).index_sync() == Some(now),
            final(self).index_model() == old(self).index_model(),
            final(self).nav() == old(self).nav(),
            final(self).searching() == old(self).searching(),
            final(self).loading() == old(self).loading(),
            final(self).current_search() == old(self).current_search(),
            final(self).indexing(),
            r.pending() == seq![dir@],
            r.descends() == (option is Recursive),
    {
        self.flags.is_indexing = true;
        self.index.set_last_sync(now);
        IndexBuild::start(dir, option)
    }

    /// Puts in place the index read from disk, built at `last_sync`, without the
    /// paths found stale.
    pub fn load_index(&mut self, pairs: Vec<(String, Vec<FsPath>)>, last_sync: u64, stale: &Vec<FsPath>)
        ensures
            final(self).wf(),
            final(self).index_model() == without_paths(with_pairs(Map::empty(), pairs@), path_set(stale@)),
            final(self).index_sync() == Some(last_sync),
            final(self).nav() == old(self).nav(),
            final(self).searching() == old(self).searching(),
    {
        let mut loaded = Index::load(pairs, last_sync);
        loaded.remove_paths(stale);
        self.index = loaded;
    }

    /// What to write to disk on shutdown: every stem with its paths, and the time of
    /// the last build.
    pub fn shutdown(&self) -> (r: (Vec<(String, Vec<FsPath>)>, Option<u64>))
        requires
            self.wf(),
        ensures
            r.1 == self.index_sync(),
            forall|i: int|
                0 <= i < r.0@.len() ==> self.index_model().contains_key(#[trigger] r.0@[i].0@)
                    && path_set(r.0@[i].1@) == self.index_model()[r.0@[i].0@],
            forall|k: Seq<char>|
                self.index_model().contains_key(k) ==> exists|i: int| 0 <= i < r.0@.len() && #[trigger] r.0@[i].0@ == k,
    {
        (self.index.export(), self.index.last_sync())
    }
}

} // verus!
