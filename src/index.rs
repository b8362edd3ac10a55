use vstd::hash_map::StringHashMap;
use vstd::prelude::*;

use crate::listing::{entry_name, EntryInfo};
use crate::path::{copy_string, file_stem, hidden_name, is_hidden_name, name_of, stem_of, FsPath};

verus! {

/// A directory with more visible entries than this is left out of the index.
pub const DIR_ENTRY_LIMIT: usize = 500;

/// Indexing stops descending once the index holds more stems than this.
pub const STEM_LIMIT: usize = 10000;

/// Whether an index build covers one directory or everything below it.
#[derive(Debug, Clone, Copy, PartialEq, Eq)]
pub enum IndexOption {
    Simple,
    Recursive,
}

/// The set of paths a list of paths holds.
pub open spec fn path_set(v: Seq<FsPath>) -> Set<Seq<Seq<char>>> {
    v.map_values(|p: FsPath| p@).to_set()
}

/// The segments of each path of a list, in order.
pub open spec fn paths_of(v: Seq<FsPath>) -> Seq<Seq<Seq<char>>> {
    v.map_values(|p: FsPath| p@)
}

/// A list without duplicates keeps none after a new element is added.
pub proof fn lemma_push_no_duplicates<A>(s: Seq<A>, x: A)
    requires
        s.no_duplicates(),
        !s.contains(x),
    ensures
        s.push(x).no_duplicates(),
{
    assert forall|i: int, j: int| 0 <= i < s.push(x).len() && 0 <= j < s.push(x).len() && i != j implies s.push(x)[i]
        != s.push(x)[j] by {
        if i < s.len() && j < s.len() {
        } else if i < s.len() {
            assert(s.contains(s[i]));
        } else {
            assert(s.contains(s[j]));
        }
    }
}

/// An entry that indexing looks at: a named entry that is not hidden.
pub open spec fn visible(e: EntryInfo) -> bool {
    name_of(e.path@) is Some && !hidden_name(entry_name(e))
}

pub open spec fn visible_count(s: Seq<EntryInfo>) -> nat
    decreases s.len(),
{
    if s.len() == 0 {
        0
    } else {
        visible_count(s.drop_last()) + if visible(s.last()) {
            1nat
        } else {
            0nat
        }
    }
}

/// The index map with path `p` recorded under `stem`.
pub open spec fn add_pair(
    m: Map<Seq<char>, Set<Seq<Seq<char>>>>,
    stem: Seq<char>,
    p: Seq<Seq<char>>,
) -> Map<Seq<char>, Set<Seq<Seq<char>>>> {
    m.insert(
        stem,
        if m.contains_key(stem) {
            m[stem].insert(p)
        } else {
            Set::empty().insert(p)
        },
    )
}

/// The index map with every visible entry of `s` recorded under its stem.
pub open spec fn with_visible(m: Map<Seq<char>, Set<Seq<Seq<char>>>>, s: Seq<EntryInfo>) -> Map<
    Seq<char>,
    Set<Seq<Seq<char>>>,
>
    decreases s.len(),
{
    if s.len() == 0 {
        m
    } else {
        let m2 = with_visible(m, s.drop_last());
        if visible(s.last()) {
            add_pair(m2, stem_of(entry_name(s.last())), s.last().path@)
        } else {
            m2
        }
    }
}

/// The visible directories of `s`, in order.
pub open spec fn visible_dirs(s: Seq<EntryInfo>) -> Seq<Seq<Seq<char>>>
    decreases s.len(),
{
    if s.len() == 0 {
        seq![]
    } else {
        let d = visible_dirs(s.drop_last());
        if visible(s.last()) && s.last().is_dir {
            d.push(s.last().path@)
        } else {
            d
        }
    }
}

/// The index map with every pair of `s` recorded.
pub open spec fn with_pairs(m: Map<Seq<char>, Set<Seq<Seq<char>>>>, s: Seq<(String, Vec<FsPath>)>) -> Map<
    Seq<char>,
    Set<Seq<Seq<char>>>,
>
    decreases s.len(),
{
    if s.len() == 0 {
        m
    } else {
        with_paths(with_pairs(m, s.drop_last()), s.last().0@, s.last().1@)
    }
}

/// The index map with every path of `ps` recorded under `stem`.
pub open spec fn with_paths(
    m: Map<Seq<char>, Set<Seq<Seq<char>>>>,
    stem: Seq<char>,
    ps: Seq<FsPath>,
) -> Map<Seq<char>, Set<Seq<Seq<char>>>>
    decreases ps.len(),
{
    if ps.len() == 0 {
        m
    } else {
        add_pair(with_paths(m, stem, ps.drop_last()), stem, ps.last()@)
    }
}

/// The index map without the paths in `stale`, and without stems left with no path.
pub open spec fn without_paths(m: Map<Seq<char>, Set<Seq<Seq<char>>>>, stale: Set<Seq<Seq<char>>>) -> Map<
    Seq<char>,
    Set<Seq<Seq<char>>>,
> {
    Map::new(
        |k: Seq<char>| m.contains_key(k) && !m[k].difference(stale).is_empty(),
        |k: Seq<char>| m[k].difference(stale),
    )
}

/// A list of paths with the same segments as `v`.
pub fn copy_paths(v: &Vec<FsPath>) -> (r: Vec<FsPath>)
    ensures
        r@.map_values(|p: FsPath| p@) == v@.map_values(|p: FsPath| p@),
{
    let mut r: Vec<FsPath> = Vec::new();
    let mut i: usize = 0;
    while i < v.len()
        invariant
            i <= v@.len(),
            r@.map_values(|p: FsPath| p@) == v@.map_values(|p: FsPath| p@).subrange(0, i as int),
        decreases v@.len() - i,
    {
        let ghost before = r@.map_values(|p: FsPath| p@);
        r.push(v[i].duplicate());
        assert(r@.map_values(|p: FsPath| p@) =~= before.push(v@[i as int]@));
        i = i + 1;
        assert(r@.map_values(|p: FsPath| p@) =~= v@.map_values(|p: FsPath| p@).subrange(0, i as int));
    }
    assert(v@.map_values(|p: FsPath| p@).subrange(0, i as int) =~= v@.map_values(|p: FsPath| p@));
    r
}

/// Whether the list holds a path with the same segments as `p`.
pub fn holds_path(v: &Vec<FsPath>, p: &FsPath) -> (r: bool)
    ensures
        r == path_set(v@).contains(p@),
{
    let mut i: usize = 0;
    while i < v.len()
        invariant
            i <= v@.len(),
            forall|j: int| 0 <= j < i ==> v@[j]@ != p@,
        decreases v@.len() - i,
    {
        if v[i].same_as(p) {
            assert(v@.map_values(|q: FsPath| q@)[i as int] == p@);
            return true;
        }
        i = i + 1;
    }
    proof {
        if path_set(v@).contains(p@) {
            let mv = v@.map_values(|q: FsPath| q@);
            assert(mv.contains(p@));
            let k = choose|k: int| 0 <= k < mv.len() && #[trigger] mv[k] == p@;
            assert(v@[k]@ == p@);
        }
    }
    false
}

/// The filename index: each stem with the paths that have it, and the time of the last build.
pub struct Index {
    map: StringHashMap<Vec<FsPath>>,
    stems: Vec<String>,
    last_sync: Option<u64>,
}

impl Index {
    /// Each stem with the set of paths recorded under it.
    pub closed spec fn model(&self) -> Map<Seq<char>, Set<Seq<Seq<char>>>> {
        Map::new(|k: Seq<char>| self.map@.contains_key(k), |k: Seq<char>| path_set(self.map@[k]@))
    }

    /// When the index was last built, in seconds since the epoch.
    pub closed spec fn synced_at(&self) -> Option<u64> {
        self.last_sync
    }

    pub closed spec fn stem_seq(&self) -> Seq<Seq<char>> {
        self.stems@.map_values(|s: String| s@)
    }

    /// The stems are listed once each, and exactly the map's keys are listed.
    pub closed spec fn wf(&self) -> bool {
        &&& self.stem_seq().no_duplicates()
        &&& forall|i: int| 0 <= i < self.stem_seq().len() ==> self.map@.contains_key(#[trigger] self.stem_seq()[i])
        &&& forall|k: Seq<char>| self.map@.contains_key(k) ==> self.stem_seq().contains(k)
        &&& forall|k: Seq<char>| #[trigger] self.map@.contains_key(k) ==> self.map@[k]@.len() > 0
        &&& forall|k: Seq<char>|
            #[trigger] self.map@.contains_key(k) ==> paths_of(self.map@[k]@).no_duplicates()
    }

    /// An empty index that was never built.
    pub fn new() -> (r: Index)
        ensures
            r.wf(),
            r.model() == Map::<Seq<char>, Set<Seq<Seq<char>>>>::empty(),
            r.synced_at() is None,
    {
        let r = Index { map: StringHashMap::new(), stems: Vec::new(), last_sync: None };
        assert(r.stem_seq() =~= Seq::<Seq<char>>::empty());
        assert(r.model() =~= Map::<Seq<char>, Set<Seq<Seq<char>>>>::empty());
        r
    }

    /// The number of distinct stems.
    pub fn stem_count(&self) -> (r: usize)
        ensures
            r as int == self.model().dom().len(),
    {
        broadcast use vstd::hash_map::axiom_string_hash_map_spec_len;
        assert(self.model().dom() =~= self.map@.dom());
        self.map.len()
    }

    /// When the index was last built.
    pub fn last_sync(&self) -> (r: Option<u64>)
        ensures
            r == self.synced_at(),
    {
        self.last_sync
    }

    /// Records the time of a build.
    pub fn set_last_sync(&mut self, t: u64)
        requires
            old(self).wf(),
        ensures
            final(self).wf(),
            final(self).model() == old(self).model(),
            final(self).synced_at() == Some(t),
    {
        self.last_sync = Some(t);
    }

    /// Records `path` under `stem`.
    pub fn add(&mut self, stem: String, path: FsPath)
        requires
            old(self).wf(),
        ensures
            final(self).wf(),
            final(self).model() == add_pair(old(self).model(), stem@, path@),
            final(self).synced_at() == old(self).synced_at(),
    {
        let ghost old_model = self.model();
        let ghost p = path@;
        match self.map.get(stem.as_str()) {
            Some(v) => {
                let mut nv = copy_paths(v);
                assert(path_set(nv@) == old_model[stem@]);
                assert(paths_of(nv@).no_duplicates());
                if !holds_path(&nv, &path) {
                    let ghost before = nv@;
                    nv.push(path);
                    assert(nv@.map_values(|q: FsPath| q@) =~= before.map_values(|q: FsPath| q@).push(p));
                    proof {
                        before.map_values(|q: FsPath| q@).lemma_push_to_set_commute(p);
                        lemma_push_no_duplicates(paths_of(before), p);
                    }
                    assert(path_set(nv@) =~= old_model[stem@].insert(p));
                } else {
                    assert(path_set(nv@) =~= old_model[stem@].insert(p));
                }
                let ghost map_before = self.map@;
                self.map.insert(stem, nv);
                assert(self.map@.dom() =~= map_before.dom());
            },
            None => {
                let key = copy_string(&stem);
                let mut nv: Vec<FsPath> = Vec::new();
                nv.push(path);
                assert(nv@.map_values(|q: FsPath| q@) =~= seq![p]);
                assert(paths_of(nv@).no_duplicates());
                assert(path_set(nv@) =~= Set::empty().insert(p)) by {
                    assert(seq![p].to_set() =~= Set::empty().insert(p)) by {
                        assert forall|x| seq![p].contains(x) <==> x == p by {
                            if x == p {
                                assert(seq![p][0] == p);
                            }
                        }
                    }
                }
                let ghost stems_before = self.stem_seq();
                let ghost map_before = self.map@;
                assert(!stems_before.contains(stem@));
                self.map.insert(stem, nv);
                self.stems.push(key);
                assert(self.stem_seq() =~= stems_before.push(stem@));
                assert forall|k: Seq<char>| self.map@.contains_key(k) implies self.stem_seq().contains(k) by {
                    if k != stem@ {
                        assert(map_before.contains_key(k));
                        assert(stems_before.contains(k));
                        let j = choose|j: int| 0 <= j < stems_before.len() && #[trigger] stems_before[j] == k;
                        assert(self.stem_seq()[j] == k);
                    } else {
                        assert(self.stem_seq()[stems_before.len() as int] == k);
                    }
                }
                assert forall|i: int, j: int|
                    0 <= i < self.stem_seq().len() && 0 <= j < self.stem_seq().len() && i != j
                    implies #[trigger] self.stem_seq()[i] != #[trigger] self.stem_seq()[j] by {
                    if i < stems_before.len() && j < stems_before.len() {
                    } else if i < stems_before.len() {
                        assert(stems_before[i] != stem@);
                    } else {
                        assert(stems_before[j] != stem@);
                    }
                }
                assert forall|i: int| 0 <= i < self.stem_seq().len() implies self.map@.contains_key(
                    #[trigger] self.stem_seq()[i],
                ) by {
                    if i < stems_before.len() {
                        assert(map_before.contains_key(stems_before[i]));
                    }
                }
            },
        }
        assert(self.model() =~= add_pair(old_model, stem@, p));
    }

    /// The paths recorded under `stem`.
    pub fn lookup(&self, stem: &str) -> (r: Vec<FsPath>)
        requires
            self.wf(),
        ensures
            paths_of(r@).no_duplicates(),
            path_set(r@) == (if self.model().contains_key(stem@) {
                self.model()[stem@]
            } else {
                Set::empty()
            }),
    {
        match self.map.get(stem) {
            Some(v) => copy_paths(v),
            None => {
                let r: Vec<FsPath> = Vec::new();
                assert(path_set(r@) =~= Set::empty());
                r
            },
        }
    }
}

/// Recording paths under one stem leaves the other stems alone, and adds the paths
/// to the set of that stem.
pub proof fn lemma_with_paths(m: Map<Seq<char>, Set<Seq<Seq<char>>>>, k: Seq<char>, ps: Seq<FsPath>)
    ensures
        forall|k2: Seq<char>|
            k2 != k ==> (#[trigger] with_paths(m, k, ps).contains_key(k2) == m.contains_key(k2)) && (
            m.contains_key(k2) ==> with_paths(m, k, ps)[k2] == m[k2]),
        ps.len() == 0 ==> with_paths(m, k, ps) == m,
        ps.len() > 0 ==> with_paths(m, k, ps).contains_key(k) && with_paths(m, k, ps)[k] == (if m.contains_key(k) {
            m[k]
        } else {
            Set::empty()
        }).union(path_set(ps)),
    decreases ps.len(),
{
    if ps.len() > 0 {
        let rest = ps.drop_last();
        let x = ps.last()@;
        lemma_with_paths(m, k, rest);
        assert(ps.map_values(|p: FsPath| p@) =~= rest.map_values(|p: FsPath| p@).push(x));
        rest.map_values(|p: FsPath| p@).lemma_push_to_set_commute(x);
        let base = if m.contains_key(k) {
            m[k]
        } else {
            Set::<Seq<Seq<char>>>::empty()
        };
        assert forall|k2: Seq<char>| k2 != k implies (#[trigger] with_paths(m, k, ps).contains_key(k2)
            == m.contains_key(k2)) && (m.contains_key(k2) ==> with_paths(m, k, ps)[k2] == m[k2]) by {
            assert(with_paths(m, k, rest).contains_key(k2) == m.contains_key(k2));
        }
        if rest.len() == 0 {
            assert(rest.map_values(|p: FsPath| p@) =~= Seq::<Seq<Seq<char>>>::empty());
            assert(path_set(rest) =~= Set::<Seq<Seq<char>>>::empty());
            assert(base.insert(x) =~= base.union(path_set(ps)));
        } else {
            assert(base.union(path_set(rest)).insert(x) =~= base.union(path_set(ps)));
        }
    }
}

/// Whether indexing looks at this entry.
pub fn is_visible(e: &EntryInfo) -> (r: bool)
    ensures
        r == visible(*e),
{
    match e.path.file_name() {
        Some(n) => !is_hidden_name(n.as_str()),
        None => false,
    }
}

/// The paths of `v` that are not in `stale`.
pub fn paths_not_in(v: &Vec<FsPath>, stale: &Vec<FsPath>) -> (r: Vec<FsPath>)
    ensures
        path_set(r@) == path_set(v@).difference(path_set(stale@)),
{
    let mut r: Vec<FsPath> = Vec::new();
    let mut i: usize = 0;
    while i < v.len()
        invariant
            i <= v@.len(),
            forall|x: Seq<Seq<char>>|
                path_set(r@).contains(x) <==> (path_set(v@.subrange(0, i as int)).contains(x)
                    && !path_set(stale@).contains(x)),
        decreases v@.len() - i,
    {
        let ghost r_before = r@;
        let ghost pre = v@.subrange(0, i as int);
        let ghost x_i = v@[i as int]@;
        assert(v@.subrange(0, i + 1).map_values(|q: FsPath| q@) =~= pre.map_values(|q: FsPath| q@).push(x_i));
        proof {
            pre.map_values(|q: FsPath| q@).lemma_push_to_set_commute(x_i);
        }
        if !holds_path(stale, &v[i]) {
            r.push(v[i].duplicate());
            assert(r@.map_values(|q: FsPath| q@) =~= r_before.map_values(|q: FsPath| q@).push(x_i));
            proof {
                r_before.map_values(|q: FsPath| q@).lemma_push_to_set_commute(x_i);
            }
        }
        i = i + 1;
    }
    assert(v@.subrange(0, i as int) =~= v@);
    assert(path_set(r@) =~= path_set(v@).difference(path_set(stale@)));
    r
}

impl Index {
    /// Records each visible entry of one directory under its stem, unless the directory
    /// has more than `DIR_ENTRY_LIMIT` visible entries: then nothing of it is recorded.
    /// Returns the visible subdirectories that were recorded.
    pub fn add_directory(&mut self, entries: &Vec<EntryInfo>) -> (dirs: Vec<FsPath>)
        requires
            old(self).wf(),
        ensures
            final(self).wf(),
            final(self).synced_at() == old(self).synced_at(),
            visible_count(entries@) > DIR_ENTRY_LIMIT ==> final(self).model() == old(self).model()
                && dirs@.len() == 0,
            visible_count(entries@) <= DIR_ENTRY_LIMIT ==> final(self).model() == with_visible(
                old(self).model(),
                entries@,
            ) && dirs@.map_values(|p: FsPath| p@) == visible_dirs(entries@),
    {
        let mut count: usize = 0;
        let mut i: usize = 0;
        while i < entries.len()
            invariant
                i <= entries@.len(),
                count <= i,
                count == visible_count(entries@.subrange(0, i as int)),
            decreases entries@.len() - i,
        {
            assert(entries@.subrange(0, i + 1).drop_last() =~= entries@.subrange(0, i as int));
            if is_visible(&entries[i]) {
                count = count + 1;
            }
            i = i + 1;
        }
        assert(entries@.subrange(0, i as int) =~= entries@);
        let mut dirs: Vec<FsPath> = Vec::new();
        if count > DIR_ENTRY_LIMIT {
            return dirs;
        }
        let ghost start = self.model();
        let mut i: usize = 0;
        assert(entries@.subrange(0, 0) =~= Seq::<EntryInfo>::empty());
        assert(dirs@.map_values(|p: FsPath| p@) =~= Seq::<Seq<Seq<char>>>::empty());
        while i < entries.len()
            invariant
                i <= entries@.len(),
                self.wf(),
                self.synced_at() == old(self).synced_at(),
                start == old(self).model(),
                self.model() == with_visible(start, entries@.subrange(0, i as int)),
                dirs@.map_values(|p: FsPath| p@) == visible_dirs(entries@.subrange(0, i as int)),
            decreases entries@.len() - i,
        {
            assert(entries@.subrange(0, i + 1).drop_last() =~= entries@.subrange(0, i as int));
            let e = &entries[i];
            match e.path.file_name() {
                Some(n) => {
                    if !is_hidden_name(n.as_str()) {
                        let st = file_stem(n.as_str());
                        self.add(st, e.path.duplicate());
                        if e.is_dir {
                            let ghost before = dirs@.map_values(|p: FsPath| p@);
                            dirs.push(e.path.duplicate());
                            assert(dirs@.map_values(|p: FsPath| p@) =~= before.push(e.path@));
                        }
                    }
                },
                None => {},
            }
            i = i + 1;
        }
        dirs
    }

    /// Records each path of `paths` under `stem`.
    pub fn add_all(&mut self, stem: &String, paths: &Vec<FsPath>)
        requires
            old(self).wf(),
        ensures
            final(self).wf(),
            final(self).model() == with_paths(old(self).model(), stem@, paths@),
            final(self).synced_at() == old(self).synced_at(),
    {
        let ghost base = self.model();
        let mut j: usize = 0;
        assert(paths@.subrange(0, 0) =~= Seq::<FsPath>::empty());
        while j < paths.len()
            invariant
                j <= paths@.len(),
                self.wf(),
                self.synced_at() == old(self).synced_at(),
                base == old(self).model(),
                self.model() == with_paths(base, stem@, paths@.subrange(0, j as int)),
            decreases paths@.len() - j,
        {
            assert(paths@.subrange(0, j + 1).drop_last() =~= paths@.subrange(0, j as int));
            self.add(copy_string(stem), paths[j].duplicate());
            j = j + 1;
        }
        assert(paths@.subrange(0, j as int) =~= paths@);
    }

    /// An index holding the given stems and paths, built at time `last_sync`.
    pub fn load(pairs: Vec<(String, Vec<FsPath>)>, last_sync: u64) -> (r: Index)
        ensures
            r.wf(),
            r.model() == with_pairs(Map::empty(), pairs@),
            r.synced_at() == Some(last_sync),
    {
        let mut r = Index::new();
        r.set_last_sync(last_sync);
        let mut i: usize = 0;
        assert(pairs@.subrange(0, 0) =~= Seq::<(String, Vec<FsPath>)>::empty());
        while i < pairs.len()
            invariant
                i <= pairs@.len(),
                r.wf(),
                r.synced_at() == Some(last_sync),
                r.model() == with_pairs(Map::empty(), pairs@.subrange(0, i as int)),
            decreases pairs@.len() - i,
        {
            assert(pairs@.subrange(0, i + 1).drop_last() =~= pairs@.subrange(0, i as int));
            let ghost base = r.model();
            let (stem, paths) = (&pairs[i].0, &pairs[i].1);
            r.add_all(stem, paths);
            i = i + 1;
        }
        assert(pairs@.subrange(0, i as int) =~= pairs@);
        r
    }

    /// Every stem once, with the paths recorded under it.
    pub fn export(&self) -> (r: Vec<(String, Vec<FsPath>)>)
        requires
            self.wf(),
        ensures
            forall|i: int|
                0 <= i < r@.len() ==> self.model().contains_key(#[trigger] r@[i].0@)
                    && path_set(r@[i].1@) == self.model()[r@[i].0@],
            forall|k: Seq<char>|
                self.model().contains_key(k) ==> exists|i: int| 0 <= i < r@.len() && #[trigger] r@[i].0@ == k,
            forall|i: int, j: int| 0 <= i < j < r@.len() ==> #[trigger] r@[i].0@ != #[trigger] r@[j].0@,
    {
        let mut r: Vec<(String, Vec<FsPath>)> = Vec::new();
        let mut i: usize = 0;
        while i < self.stems.len()
            invariant
                self.wf(),
                i <= self.stems@.len(),
                r@.len() == i,
                forall|j: int| 0 <= j < i ==> (#[trigger] r@[j]).0@ == self.stem_seq()[j],
                forall|j: int|
                    0 <= j < i ==> path_set((#[trigger] r@[j]).1@) == self.model()[self.stem_seq()[j]],
            decreases self.stems@.len() - i,
        {
            let stem = &self.stems[i];
            assert(self.stem_seq()[i as int] == stem@);
            assert(self.map@.contains_key(stem@));
            match self.map.get(stem.as_str()) {
                Some(v) => {
                    r.push((copy_string(stem), copy_paths(v)));
                },
                None => {},
            }
            i = i + 1;
        }
        proof {
            assert forall|k: Seq<char>| self.model().contains_key(k) implies exists|i: int|
                0 <= i < r@.len() && #[trigger] r@[i].0@ == k by {
                assert(self.stem_seq().contains(k));
                let j = choose|j: int| 0 <= j < self.stem_seq().len() && #[trigger] self.stem_seq()[j] == k;
                assert(r@[j].0@ == k);
            }
            assert forall|i: int, j: int| 0 <= i < j < r@.len() implies #[trigger] r@[i].0@
                != #[trigger] r@[j].0@ by {
                assert(self.stem_seq()[i] != self.stem_seq()[j]);
            }
        }
        r
    }

    /// Drops the paths in `stale`, and the stems left with no path.
    pub fn remove_paths(&mut self, stale: &Vec<FsPath>)
        requires
            old(self).wf(),
        ensures
            final(self).wf(),
            final(self).model() == without_paths(old(self).model(), path_set(stale@)),
            final(self).synced_at() == old(self).synced_at(),
    {
        let ghost m = self.model();
        let ghost gone = path_set(stale@);
        let mut fresh = Index::new();
        let mut i: usize = 0;
        while i < self.stems.len()
            invariant
                self.wf(),
                self.model() == m,
                gone == path_set(stale@),
                i <= self.stems@.len(),
                fresh.wf(),
                forall|k: Seq<char>|
                    fresh.model().contains_key(k) <==> (self.stem_seq().subrange(0, i as int).contains(k)
                        && !m[k].difference(gone).is_empty()),
                forall|k: Seq<char>|
                    #[trigger] fresh.model().contains_key(k) ==> fresh.model()[k] == m[k].difference(gone),
            decreases self.stems@.len() - i,
        {
            let stem = &self.stems[i];
            let ghost k_i = stem@;
            assert(self.stem_seq()[i as int] == k_i);
            assert(self.stem_seq().subrange(0, i + 1) =~= self.stem_seq().subrange(0, i as int).push(k_i));
            assert(!self.stem_seq().subrange(0, i as int).contains(k_i)) by {
                if self.stem_seq().subrange(0, i as int).contains(k_i) {
                    let j = choose|j: int| 0 <= j < i && #[trigger] self.stem_seq().subrange(0, i as int)[j] == k_i;
                    assert(self.stem_seq()[j] == k_i);
                }
            }
            let ghost fm = fresh.model();
            let ghost pre = self.stem_seq().subrange(0, i as int);
            let ghost post = self.stem_seq().subrange(0, i + 1);
            assert(self.map@.contains_key(k_i));
            let v = self.map.get(stem.as_str()).unwrap();
            assert(m[k_i] == path_set(v@));
            let kept = paths_not_in(v, stale);
            if kept.len() > 0 {
                fresh.add_all(stem, &kept);
            }
            proof {
                lemma_with_paths(fm, k_i, kept@);
                assert(Set::<Seq<Seq<char>>>::empty().union(path_set(kept@)) =~= path_set(kept@));
                if kept@.len() > 0 {
                    assert(path_set(kept@).contains(kept@[0]@)) by {
                        assert(kept@.map_values(|q: FsPath| q@)[0] == kept@[0]@);
                    }
                } else {
                    assert(path_set(kept@) =~= Set::<Seq<Seq<char>>>::empty());
                }
                assert(!fm.contains_key(k_i));
                assert forall|k: Seq<char>|
                    fresh.model().contains_key(k) <==> (post.contains(k) && !m[k].difference(gone).is_empty()) by {
                    if k != k_i {
                        assert(fm.contains_key(k) <==> (pre.contains(k) && !m[k].difference(gone).is_empty()));
                        assert(post.contains(k) == pre.contains(k)) by {
                            if post.contains(k) {
                                let j = choose|j: int| 0 <= j < post.len() && #[trigger] post[j] == k;
                                assert(pre[j] == k);
                            }
                            if pre.contains(k) {
                                let j = choose|j: int| 0 <= j < pre.len() && #[trigger] pre[j] == k;
                                assert(post[j] == k);
                            }
                        }
                    } else {
                        assert(post[i as int] == k_i);
                        assert(m[k_i].difference(gone) == path_set(kept@));
                        if kept@.len() > 0 {
                            assert(fresh.model() == with_paths(fm, k_i, kept@));
                            assert(fresh.model().contains_key(k_i));
                            assert(m[k_i].difference(gone).contains(kept@[0]@));
                        } else {
                            assert(fresh.model() == fm);
                            assert(m[k_i].difference(gone) =~= Set::<Seq<Seq<char>>>::empty());
                        }
                    }
                }
                assert forall|k: Seq<char>| #[trigger] fresh.model().contains_key(k) implies fresh.model()[k]
                    == m[k].difference(gone) by {
                    if k != k_i {
                        assert(fm.contains_key(k));
                    } else {
                        assert(m[k_i].difference(gone) == path_set(kept@));
                    }
                }
            }
            i = i + 1;
        }
        assert(self.stem_seq().subrange(0, i as int) =~= self.stem_seq());
        assert forall|k: Seq<char>| fresh.model().contains_key(k) implies m.contains_key(k) by {
            assert(self.stem_seq().contains(k));
            let j = choose|j: int| 0 <= j < self.stem_seq().len() && #[trigger] self.stem_seq()[j] == k;
        }
        assert(fresh.model() =~= without_paths(m, gone));
        fresh.last_sync = self.last_sync;
        *self = fresh;
    }
}

/// Whether a recorded path stays in the index on load: it still exists, and it was
/// not last modified more than `max_age_secs` ago. An unknown modification time keeps it.
pub open spec fn fresh_entry(exists: bool, modified_age_secs: Option<u64>, max_age_secs: u64) -> bool {
    exists && match modified_age_secs {
        Some(a) => a < max_age_secs,
        None => true,
    }
}

/// Paths older than this (thirty days, in seconds) are dropped from a loaded index.
pub const ENTRY_MAX_AGE_SECS: u64 = 2592000;

/// An index older than this (five days, in seconds) is rebuilt on startup.
pub const INDEX_MAX_AGE_SECS: u64 = 432000;

/// Whether a recorded path stays in the index on load.
pub fn is_fresh_entry(exists: bool, modified_age_secs: Option<u64>) -> (r: bool)
    ensures
        r == fresh_entry(exists, modified_age_secs, ENTRY_MAX_AGE_SECS),
{
    exists && match modified_age_secs {
        Some(a) => a < ENTRY_MAX_AGE_SECS,
        None => true,
    }
}

/// Whether startup must rebuild the index: no index was found on disk, it could not be
/// loaded, or its last build is more than five days before `now` (seconds since the epoch).
pub fn needs_rebuild(found: bool, loaded_sync: Option<u64>, now: u64) -> (r: bool)
    ensures
        r == (!found || loaded_sync is None || (loaded_sync->0 <= now && now - loaded_sync->0
            > INDEX_MAX_AGE_SECS)),
{
    if !found {
        return true;
    }
    match loaded_sync {
        None => true,
        Some(t) => t <= now && now - t > INDEX_MAX_AGE_SECS,
    }
}

/// A build of the index under way: the directories still to read.
pub struct IndexBuild {
    pending: Vec<FsPath>,
    recursive: bool,
    unreadable: u64,
}

impl IndexBuild {
    /// The directories still to read, the next one last.
    pub closed spec fn pending(&self) -> Seq<Seq<Seq<char>>> {
        self.pending@.map_values(|p: FsPath| p@)
    }

    /// Whether subdirectories are read too.
    pub closed spec fn descends(&self) -> bool {
        self.recursive
    }

    /// A build that starts at `dir`.
    pub fn start(dir: FsPath, option: IndexOption) -> (r: IndexBuild)
        ensures
            r.pending() == seq![dir@],
            r.descends() == (option is Recursive),
    {
        let recursive = match option {
            IndexOption::Simple => false,
            IndexOption::Recursive => true,
        };
        let mut pending: Vec<FsPath> = Vec::new();
        let ghost d = dir@;
        pending.push(dir);
        let r = IndexBuild { pending, recursive, unreadable: 0 };
        assert(r.pending() =~= seq![d]);
        r
    }

    /// How many directories could not be read.
    pub closed spec fn unreadable_count(&self) -> u64 {
        self.unreadable
    }

    /// How many directories could not be read; such a directory is passed over.
    pub fn unreadable(&self) -> (r: u64)
        ensures
            r == self.unreadable_count(),
    {
        self.unreadable
    }

    /// Records a directory that could not be read (up to `u64::MAX`).
    pub fn skip_unreadable(&mut self)
        ensures
            final(self).pending() == old(self).pending(),
            final(self).descends() == old(self).descends(),
            final(self).unreadable_count() == if old(self).unreadable_count() == u64::MAX {
                u64::MAX
            } else {
                (old(self).unreadable_count() + 1) as u64
            },
    {
        if self.unreadable < u64::MAX {
            self.unreadable = self.unreadable + 1;
        }
    }

    /// Whether no directory is left to read.
    pub fn is_done(&self) -> (r: bool)
        ensures
            r == (self.pending().len() == 0),
    {
        self.pending.len() == 0
    }

    /// The next directory to read. Once the index holds more than `STEM_LIMIT` stems,
    /// nothing more is read: the build ends.
    pub fn next_directory(&mut self, index: &Index) -> (r: Option<FsPath>)
        ensures
            final(self).descends() == old(self).descends(),
            index.model().dom().len() > STEM_LIMIT ==> r is None && final(self).pending().len() == 0,
            index.model().dom().len() <= STEM_LIMIT ==> match r {
                Some(d) => old(self).pending().len() > 0 && d@ == old(self).pending().last()
                    && final(self).pending() == old(self).pending().drop_last(),
                None => old(self).pending().len() == 0 && final(self).pending().len() == 0,
            },
    {
        if index.stem_count() > STEM_LIMIT {
            self.pending.clear();
            assert(self.pending() =~= Seq::<Seq<Seq<char>>>::empty());
            return None;
        }
        let ghost before = self.pending();
        let r = self.pending.pop();
        proof {
            if r is Some {
                assert(self.pending() =~= before.drop_last());
            }
        }
        r
    }

    /// Records one directory that was read, and queues its subdirectories when the
    /// build descends.
    pub fn add_directory(&mut self, index: &mut Index, entries: &Vec<EntryInfo>)
        requires
            old(index).wf(),
        ensures
            final(index).wf(),
            final(index).synced_at() == old(index).synced_at(),
            final(self).descends() == old(self).descends(),
            visible_count(entries@) > DIR_ENTRY_LIMIT ==> final(index).model() == old(index).model()
                && final(self).pending() == old(self).pending(),
            visible_count(entries@) <= DIR_ENTRY_LIMIT ==> final(index).model() == with_visible(
                old(index).model(),
                entries@,
            ) && final(self).pending() == old(self).pending() + (if old(self).descends() {
                visible_dirs(entries@)
            } else {
                seq![]
            }),
    {
        let dirs = index.add_directory(entries);
        let ghost before = self.pending();
        if self.recursive {
            let mut dirs = dirs;
            let ghost all = dirs@.map_values(|p: FsPath| p@);
            self.pending.append(&mut dirs);
            assert(self.pending() =~= before + all);
        } else {
            assert(self.pending() =~= before + seq![]);
        }
    }
}

} // verus!
