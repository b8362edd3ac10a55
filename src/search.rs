use vstd::prelude::*;
use vstd::string::*;

use crate::index::holds_path;
use crate::listing::{entry_name, EntryInfo};
use crate::path::{chars_of, find_last_dot, last_dot, name_of, FsPath};

verus! {

/// A fallback search stops descending after this many seconds.
pub const SEARCH_TIME_LIMIT_SECS: u64 = 20;

/// A fallback search stops descending once the results hold more than this many paths.
pub const RESULT_LIMIT: usize = 2000;

/// The characters that Unicode's White_Space property holds.
pub open spec fn is_white_space(c: char) -> bool {
    ('\u{9}' <= c && c <= '\u{d}') || c == ' ' || c == '\u{85}' || c == '\u{a0}' || c == '\u{1680}'
        || ('\u{2000}' <= c && c <= '\u{200a}') || c == '\u{2028}' || c == '\u{2029}' || c
        == '\u{202f}' || c == '\u{205f}' || c == '\u{3000}'
}

/// Number of white space characters at the start of `s`.
pub open spec fn lead_ws(s: Seq<char>) -> nat
    decreases s.len(),
{
    if s.len() > 0 && is_white_space(s[0]) {
        1 + lead_ws(s.drop_first())
    } else {
        0
    }
}

/// Number of white space characters at the end of `s`.
pub open spec fn trail_ws(s: Seq<char>) -> nat
    decreases s.len(),
{
    if s.len() > 0 && is_white_space(s.last()) {
        1 + trail_ws(s.drop_last())
    } else {
        0
    }
}

/// `s` without white space at either end.
pub open spec fn trimmed(s: Seq<char>) -> Seq<char> {
    let t = s.subrange(lead_ws(s) as int, s.len() as int);
    t.subrange(0, t.len() - trail_ws(t))
}

/// Whether `needle` occurs in `hay` at position `i`.
pub open spec fn occurs_at(hay: Seq<char>, needle: Seq<char>, i: int) -> bool {
    0 <= i && i + needle.len() <= hay.len() && hay.subrange(i, i + needle.len()) == needle
}

/// Whether `needle` occurs somewhere in `hay`.
pub open spec fn contains_text(hay: Seq<char>, needle: Seq<char>) -> bool {
    exists|i: int| occurs_at(hay, needle, i)
}

/// A search term is accepted when, trimmed, it is not empty and holds no "..".
pub open spec fn valid_term(term: Seq<char>) -> bool {
    trimmed(term).len() > 0 && !contains_text(trimmed(term), seq!['.', '.'])
}

/// The part of a term that is looked up: everything before its last dot.
pub open spec fn term_stem(t: Seq<char>) -> Seq<char> {
    if last_dot(t) < 0 {
        t
    } else {
        t.subrange(0, last_dot(t))
    }
}

/// The extension a term asks for: everything after its last dot.
pub open spec fn term_extension(t: Seq<char>) -> Option<Seq<char>> {
    if last_dot(t) < 0 {
        None
    } else {
        Some(t.subrange(last_dot(t) + 1, t.len() as int))
    }
}

/// What `str::to_lowercase` gives for a text.
pub uninterp spec fn lower_of(s: Seq<char>) -> Seq<char>;

/// Relies on `str::to_lowercase`: the lower-case form depends on the characters alone.
#[verifier::external_body]
pub(crate) fn lowercase(s: &str) -> (r: String)
    ensures
        r@ == lower_of(s@),
{
    s.to_lowercase()
}

proof fn lemma_lead_ws_bound(s: Seq<char>)
    ensures
        lead_ws(s) <= s.len(),
    decreases s.len(),
{
    if s.len() > 0 && is_white_space(s[0]) {
        lemma_lead_ws_bound(s.drop_first());
    }
}

proof fn lemma_trail_ws_bound(s: Seq<char>)
    ensures
        trail_ws(s) <= s.len(),
    decreases s.len(),
{
    if s.len() > 0 && is_white_space(s.last()) {
        lemma_trail_ws_bound(s.drop_last());
    }
}

/// Whether a character is Unicode white space.
pub fn white_space(c: char) -> (r: bool)
    ensures
        r == is_white_space(c),
{
    ('\u{9}' <= c && c <= '\u{d}') || c == ' ' || c == '\u{85}' || c == '\u{a0}' || c == '\u{1680}'
        || ('\u{2000}' <= c && c <= '\u{200a}') || c == '\u{2028}' || c == '\u{2029}' || c
        == '\u{202f}' || c == '\u{205f}' || c == '\u{3000}'
}

/// The text without white space at either end.
pub fn trim_text(s: &str) -> (r: String)
    ensures
        r@ == trimmed(s@),
{
    let n = s.unicode_len();
    let mut a: usize = 0;
    proof {
        lemma_lead_ws_bound(s@);
        assert(s@.subrange(0, n as int) =~= s@);
    }
    while a < n && white_space(s.get_char(a))
        invariant
            n == s@.len(),
            a <= n,
            a + lead_ws(s@.subrange(a as int, n as int)) == lead_ws(s@),
        decreases n - a,
    {
        assert(s@.subrange(a as int, n as int).drop_first() =~= s@.subrange(a + 1, n as int));
        a = a + 1;
    }
    proof {
        if a < n {
            assert(s@.subrange(a as int, n as int)[0] == s@[a as int]);
        }
    }
    let ghost t = s@.subrange(a as int, n as int);
    let mut b: usize = n;
    proof {
        lemma_trail_ws_bound(t);
        assert(t.subrange(0, t.len() as int) =~= t);
    }
    while b > a && white_space(s.get_char(b - 1))
        invariant
            n == s@.len(),
            a <= b <= n,
            t == s@.subrange(a as int, n as int),
            (n - b) + trail_ws(t.subrange(0, b - a)) == trail_ws(t),
        decreases b,
    {
        assert(t.subrange(0, b - a).drop_last() =~= t.subrange(0, b - a - 1));
        assert(t.subrange(0, b - a).last() == s@[b - 1]);
        b = b - 1;
    }
    proof {
        if b > a {
            assert(t.subrange(0, b - a).last() == s@[b - 1]);
        }
        assert(t.subrange(0, t.len() - trail_ws(t)) =~= s@.subrange(a as int, b as int));
    }
    s.substring_char(a, b).to_owned()
}

/// Whether `needle` occurs in `hay`.
pub fn text_contains(hay: &str, needle: &str) -> (r: bool)
    ensures
        r == contains_text(hay@, needle@),
{
    let h = chars_of(hay);
    let w = chars_of(needle);
    if w.len() > h.len() {
        assert forall|i: int| !occurs_at(hay@, needle@, i) by {}
        return false;
    }
    let mut i: usize = 0;
    while i <= h.len() - w.len()
        invariant
            h@ == hay@,
            w@ == needle@,
            w@.len() <= h@.len(),
            i <= h@.len() - w@.len() + 1,
            forall|k: int| 0 <= k < i ==> !occurs_at(hay@, needle@, k),
        decreases h@.len() - w@.len() + 1 - i,
    {
        let mut j: usize = 0;
        let mut same = true;
        while j < w.len() && same
            invariant
                h@.len() <= usize::MAX,
                i <= h@.len() - w@.len(),
                h@ == hay@,
                w@ == needle@,
                j <= w@.len(),
                forall|m: int| 0 <= m < j ==> h@[i + m] == w@[m],
                !same ==> j < w@.len() && h@[i + j] != w@[j as int],
            decreases w@.len() - j, if same { 1int } else { 0int },
        {
            if h[i + j] != w[j] {
                same = false;
            } else {
                j = j + 1;
            }
        }
        if same {
            assert(hay@.subrange(i as int, i + needle@.len()) =~= needle@);
            assert(occurs_at(hay@, needle@, i as int));
            return true;
        }
        assert(hay@.subrange(i as int, i + needle@.len())[j as int] != needle@[j as int]);
        i = i + 1;
    }
    assert forall|k: int| !occurs_at(hay@, needle@, k) by {
        if 0 <= k && k + needle@.len() <= hay@.len() {
            assert(k < i);
        }
    }
    false
}

/// Whether a search term is accepted.
pub fn is_valid_term(term: &str) -> (r: bool)
    ensures
        r == valid_term(term@),
{
    let t = trim_text(term);
    let dots = "..";
    proof {
        reveal_strlit("..");
        assert(dots@ =~= seq!['.', '.']);
    }
    t.unicode_len() > 0 && !text_contains(t.as_str(), dots)
}

/// Splits a term at its last dot into the stem to look up and the extension asked for.
pub fn split_term(t: &str) -> (r: (String, Option<String>))
    ensures
        r.0@ == term_stem(t@),
        match r.1 {
            Some(e) => term_extension(t@) == Some(e@),
            None => term_extension(t@) is None,
        },
{
    match find_last_dot(t) {
        Some(i) => {
            let n = t.unicode_len();
            (t.substring_char(0, i).to_owned(), Some(t.substring_char(i + 1, n).to_owned()))
        },
        None => (t.to_owned(), None),
    }
}

/// Whether an entry name, in lower case, holds the search term, in lower case.
pub fn name_matches(lower_name: &str, lower_term: &str) -> (r: bool)
    ensures
        r == contains_text(lower_name@, lower_term@),
{
    text_contains(lower_name, lower_term)
}

/// Subtrees that a fallback search does not enter: process and snap mounts,
/// and editor state.
pub open spec fn noisy_path(p: Seq<Seq<char>>) -> bool {
    exists|i: int|
        0 <= i < p.len() && (#[trigger] p[i] == seq!['p', 'r', 'o', 'c'] || p[i] == seq!['s', 'n', 'a', 'p']
            || (p[i] == seq!['s', 't', 'a', 't', 'e'] && i + 1 < p.len() && p[i + 1] == seq![
            'n',
            'v',
            'i',
            'm',
        ]))
}

/// Whether the search ends before reading another directory: it ran out of time,
/// it was cancelled, or it has found enough.
pub open spec fn must_stop(elapsed_secs: u64, active: bool, found: usize) -> bool {
    elapsed_secs > SEARCH_TIME_LIMIT_SECS || !active || found > RESULT_LIMIT
}

/// The pending directories once the noisy ones at the end are dropped.
pub open spec fn skip_noisy(p: Seq<Seq<Seq<char>>>) -> Seq<Seq<Seq<char>>>
    decreases p.len(),
{
    if p.len() > 0 && noisy_path(p.last()) {
        skip_noisy(p.drop_last())
    } else {
        p
    }
}

/// Whether an entry's name, in lower case, holds the term.
pub open spec fn entry_matches(e: EntryInfo, lower_term: Seq<char>) -> bool {
    name_of(e.path@) is Some && contains_text(lower_of(entry_name(e)), lower_term)
}

/// The results after one directory: each matching entry not already there is added, in order.
pub open spec fn record_matches(
    items: Seq<Seq<Seq<char>>>,
    s: Seq<EntryInfo>,
    lower_term: Seq<char>,
) -> Seq<Seq<Seq<char>>>
    decreases s.len(),
{
    if s.len() == 0 {
        items
    } else {
        let acc = record_matches(items, s.drop_last(), lower_term);
        if entry_matches(s.last(), lower_term) && !acc.contains(s.last().path@) {
            acc.push(s.last().path@)
        } else {
            acc
        }
    }
}

/// The subdirectories of a directory read, in order.
pub open spec fn subdirs(s: Seq<EntryInfo>) -> Seq<Seq<Seq<char>>>
    decreases s.len(),
{
    if s.len() == 0 {
        seq![]
    } else if s.last().is_dir {
        subdirs(s.drop_last()).push(s.last().path@)
    } else {
        subdirs(s.drop_last())
    }
}

fn same_chars(a: &Vec<char>, b: &Vec<char>) -> (r: bool)
    ensures
        r == (a@ == b@),
{
    if a.len() != b.len() {
        return false;
    }
    let mut i: usize = 0;
    while i < a.len()
        invariant
            a@.len() == b@.len(),
            i <= a@.len(),
            forall|k: int| 0 <= k < i ==> a@[k] == b@[k],
        decreases a@.len() - i,
    {
        if a[i] != b[i] {
            return false;
        }
        i = i + 1;
    }
    assert(a@ =~= b@);
    true
}

/// Whether a path lies in a subtree that a fallback search does not enter.
pub fn is_noisy_path(p: &FsPath) -> (r: bool)
    ensures
        r == noisy_path(p@),
{
    let proc_word = vec!['p', 'r', 'o', 'c'];
    let snap_word = vec!['s', 'n', 'a', 'p'];
    let state_word = vec!['s', 't', 'a', 't', 'e'];
    let nvim_word = vec!['n', 'v', 'i', 'm'];
    assert(proc_word@ =~= seq!['p', 'r', 'o', 'c']);
    assert(snap_word@ =~= seq!['s', 'n', 'a', 'p']);
    assert(state_word@ =~= seq!['s', 't', 'a', 't', 'e']);
    assert(nvim_word@ =~= seq!['n', 'v', 'i', 'm']);
    let n = p.parts.len();
    let mut i: usize = 0;
    while i < n
        invariant
            n == p@.len(),
            i <= n,
            proc_word@ == seq!['p', 'r', 'o', 'c'],
            snap_word@ == seq!['s', 'n', 'a', 'p'],
            state_word@ == seq!['s', 't', 'a', 't', 'e'],
            nvim_word@ == seq!['n', 'v', 'i', 'm'],
            forall|k: int|
                0 <= k < i ==> !(#[trigger] p@[k] == seq!['p', 'r', 'o', 'c'] || p@[k] == seq![
                    's',
                    'n',
                    'a',
                    'p',
                ] || (p@[k] == seq!['s', 't', 'a', 't', 'e'] && k + 1 < p@.len() && p@[k + 1]
                    == seq!['n', 'v', 'i', 'm'])),
        decreases n - i,
    {
        let seg = chars_of(p.parts[i].as_str());
        assert(seg@ == p@[i as int]);
        if same_chars(&seg, &proc_word) || same_chars(&seg, &snap_word) {
            return true;
        }
        if same_chars(&seg, &state_word) && i + 1 < n {
            let next = chars_of(p.parts[i + 1].as_str());
            assert(next@ == p@[i + 1]);
            if same_chars(&next, &nvim_word) {
                return true;
            }
        }
        i = i + 1;
    }
    false
}

/// A fallback search under way: a depth-first walk below the directory it started in.
/// The walk reads one directory at a time, as `next_directory` asks, and is told what
/// each directory holds through `add_directory`.
pub struct SearchSession {
    term: String,
    pending: Vec<FsPath>,
    id: u64,
    finished: bool,
    unreadable: u64,
}

impl SearchSession {
    /// The search term, in lower case.
    pub closed spec fn lower_term(&self) -> Seq<char> {
        self.term@
    }

    /// The directories still to read, the next one last.
    pub closed spec fn pending(&self) -> Seq<Seq<Seq<char>>> {
        self.pending@.map_values(|p: FsPath| p@)
    }

    /// The search this session belongs to.
    pub closed spec fn search_id(&self) -> u64 {
        self.id
    }

    /// Whether the walk has ended.
    pub closed spec fn is_finished(&self) -> bool {
        self.finished
    }

    /// A finished walk has nothing left to read.
    pub closed spec fn wf(&self) -> bool {
        self.finished ==> self.pending@.len() == 0
    }

    /// A walk for `term` (already in lower case) that starts at `root`.
    pub fn start(lower_term: String, root: FsPath, id: u64) -> (r: SearchSession)
        ensures
            r.wf(),
            r.lower_term() == lower_term@,
            r.pending() == seq![root@],
            r.search_id() == id,
            !r.is_finished(),
    {
        let ghost d = root@;
        let mut pending: Vec<FsPath> = Vec::new();
        pending.push(root);
        let r = SearchSession { term: lower_term, pending, id, finished: false, unreadable: 0 };
        assert(r.pending() =~= seq![d]);
        r
    }

    /// How many directories could not be read.
    pub closed spec fn unreadable_count(&self) -> u64 {
        self.unreadable
    }

    /// How many directories could not be read; such a directory is passed over.
    pub fn unreadable(&self) -> (r: u64)
        ensures
            r == self.unreadable_count(),
    {
        self.unreadable
    }

    /// Records a directory that could not be read (up to `u64::MAX`).
    pub fn skip_unreadable(&mut self)
        requires
            old(self).wf(),
        ensures
            final(self).wf(),
            final(self).pending() == old(self).pending(),
            final(self).lower_term() == old(self).lower_term(),
            final(self).search_id() == old(self).search_id(),
            final(self).is_finished() == old(self).is_finished(),
            final(self).unreadable_count() == if old(self).unreadable_count() == u64::MAX {
                u64::MAX
            } else {
                (old(self).unreadable_count() + 1) as u64
            },
    {
        if self.unreadable < u64::MAX {
            self.unreadable = self.unreadable + 1;
        }
    }

    /// The search this session belongs to.
    pub fn id(&self) -> (r: u64)
        ensures
            r == self.search_id(),
    {
        self.id
    }

    /// Whether the walk has ended.
    pub fn finished(&self) -> (r: bool)
        ensures
            r == self.is_finished(),
    {
        self.finished
    }

    /// The next directory to read, given the seconds since the search started, whether
    /// the search is still the active one, and how many results there are. Noisy
    /// subtrees are passed over. `None` ends the walk, once and for good.
    pub fn next_directory(&mut self, elapsed_secs: u64, active: bool, found: usize) -> (r: Option<FsPath>)
        requires
            old(self).wf(),
        ensures
            final(self).wf(),
            final(self).lower_term() == old(self).lower_term(),
            final(self).search_id() == old(self).search_id(),
            old(self).is_finished() ==> r is None && final(self).is_finished(),
            must_stop(elapsed_secs, active, found) ==> r is None && final(self).is_finished(),
            !must_stop(elapsed_secs, active, found) ==> match r {
                Some(d) => skip_noisy(old(self).pending()).len() > 0 && d@ == skip_noisy(old(self).pending()).last()
                    && final(self).pending() == skip_noisy(old(self).pending()).drop_last()
                    && !final(self).is_finished() && !old(self).is_finished(),
                None => skip_noisy(old(self).pending()).len() == 0 && final(self).is_finished(),
            },
    {
        if self.finished || elapsed_secs > SEARCH_TIME_LIMIT_SECS || !active || found > RESULT_LIMIT {
            self.pending.clear();
            self.finished = true;
            proof {
                if old(self).is_finished() {
                    assert(old(self).pending() =~= Seq::<Seq<Seq<char>>>::empty());
                }
            }
            return None;
        }
        loop
            invariant
                self.wf(),
                !self.finished,
                !old(self).is_finished(),
                !must_stop(elapsed_secs, active, found),
                self.term == old(self).term,
                self.id == old(self).id,
                skip_noisy(self.pending()) == skip_noisy(old(self).pending()),
            decreases self.pending@.len(),
        {
            let ghost before = self.pending();
            match self.pending.pop() {
                Some(d) => {
                    assert(self.pending() =~= before.drop_last());
                    if !is_noisy_path(&d) {
                        return Some(d);
                    }
                },
                None => {
                    assert(before =~= Seq::<Seq<Seq<char>>>::empty());
                    self.finished = true;
                    return None;
                },
            }
        }
    }

    /// Takes in what one directory holds: each entry whose lower-case name holds the
    /// term, and that is not among the results yet, is added to them; each
    /// subdirectory is queued.
    pub fn add_directory(&mut self, entries: &Vec<EntryInfo>, items: &mut Vec<FsPath>)
        requires
            old(self).wf(),
        ensures
            final(self).wf(),
            final(self).lower_term() == old(self).lower_term(),
            final(self).search_id() == old(self).search_id(),
            final(self).is_finished() == old(self).is_finished(),
            old(self).is_finished() ==> final(self).pending() == old(self).pending() && final(items)@
                == old(items)@,
            !old(self).is_finished() ==> final(self).pending() == old(self).pending() + subdirs(
                entries@,
            ) && final(items)@.map_values(|p: FsPath| p@) == record_matches(
                old(items)@.map_values(|p: FsPath| p@),
                entries@,
                old(self).lower_term(),
            ),
    {
        if self.finished {
            return;
        }
        let ghost items0 = items@.map_values(|p: FsPath| p@);
        let ghost pend0 = self.pending();
        let mut i: usize = 0;
        assert(entries@.subrange(0, 0) =~= Seq::<EntryInfo>::empty());
        assert(pend0 + subdirs(Seq::<EntryInfo>::empty()) =~= pend0);
        while i < entries.len()
            invariant
                i <= entries@.len(),
                !self.finished,
                self.wf(),
                self.term == old(self).term,
                self.id == old(self).id,
                self.pending() == pend0 + subdirs(entries@.subrange(0, i as int)),
                items@.map_values(|p: FsPath| p@) == record_matches(items0, entries@.subrange(0, i as int), self.term@),
            decreases entries@.len() - i,
        {
            assert(entries@.subrange(0, i + 1).drop_last() =~= entries@.subrange(0, i as int));
            let e = &entries[i];
            match e.path.file_name() {
                Some(n) => {
                    let lower = lowercase(n.as_str());
                    if name_matches(lower.as_str(), self.term.as_str()) && !holds_path(items, &e.path) {
                        let ghost before = items@.map_values(|p: FsPath| p@);
                        items.push(e.path.duplicate());
                        assert(items@.map_values(|p: FsPath| p@) =~= before.push(e.path@));
                    }
                },
                None => {},
            }
            if e.is_dir {
                let ghost before = self.pending();
                self.pending.push(e.path.duplicate());
                assert(self.pending() =~= before.push(e.path@));
                assert(pend0 + subdirs(entries@.subrange(0, i + 1)) =~= (pend0 + subdirs(
                    entries@.subrange(0, i as int),
                )).push(e.path@));
            }
            i = i + 1;
        }
        assert(entries@.subrange(0, i as int) =~= entries@);
    }
}

} // verus!
