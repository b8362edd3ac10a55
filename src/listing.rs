use vstd::prelude::*;

use crate::path::{chars_of, hidden_name, is_hidden_name, name_of, FsPath};

verus! {

broadcast use vstd::seq_lib::group_to_multiset_ensures;

/// How many entries a preview listing keeps.
pub const PREVIEW_LIMIT: usize = 100;

/// How much of a directory a listing covers.
#[derive(Debug, Clone, Copy, PartialEq, Eq)]
pub enum OpenOption {
    Full,
    Preview,
}

/// One entry of a directory as read from disk: its path, and whether it is a directory.
#[derive(Debug, Clone, PartialEq, Eq)]
pub struct EntryInfo {
    pub path: FsPath,
    pub is_dir: bool,
}

/// The name an entry is ordered by: its last segment, or nothing for the root.
pub open spec fn entry_name(e: EntryInfo) -> Seq<char> {
    match name_of(e.path@) {
        Some(n) => n,
        None => seq![],
    }
}

/// Category of an entry: a visible directory, a visible file, or a hidden entry of either kind.
pub open spec fn category(e: EntryInfo) -> int {
    if hidden_name(entry_name(e)) {
        2
    } else if e.is_dir {
        0
    } else {
        1
    }
}

/// Case-sensitive lexicographic order of names, by code point.
pub open spec fn name_le(a: Seq<char>, b: Seq<char>) -> bool
    decreases a.len(),
{
    if a.len() == 0 {
        true
    } else if b.len() == 0 {
        false
    } else if a[0] != b[0] {
        a[0] < b[0]
    } else {
        name_le(a.drop_first(), b.drop_first())
    }
}

/// The listing order: category first, then name.
pub open spec fn entry_le(a: EntryInfo, b: EntryInfo) -> bool {
    category(a) < category(b) || (category(a) == category(b) && name_le(
        entry_name(a),
        entry_name(b),
    ))
}

/// Every entry comes no later than the ones after it.
pub open spec fn is_ordered(s: Seq<EntryInfo>) -> bool {
    forall|i: int, j: int| 0 <= i < j < s.len() ==> entry_le(#[trigger] s[i], #[trigger] s[j])
}

/// `a` comes strictly before `b`: a lower category, or the same one and a smaller name.
pub open spec fn entry_lt(a: EntryInfo, b: EntryInfo) -> bool {
    category(a) < category(b) || (category(a) == category(b) && name_le(entry_name(a), entry_name(b))
        && entry_name(a) != entry_name(b))
}

/// No two entries share a name, as in the listing of one directory.
pub open spec fn distinct_names(s: Seq<EntryInfo>) -> bool {
    forall|i: int, j: int|
        0 <= i < s.len() && 0 <= j < s.len() && i != j ==> entry_name(#[trigger] s[i]) != entry_name(
            #[trigger] s[j],
        )
}

/// Every entry comes strictly before the ones after it.
pub open spec fn strictly_ordered(s: Seq<EntryInfo>) -> bool {
    forall|i: int, j: int| 0 <= i < j < s.len() ==> entry_lt(#[trigger] s[i], #[trigger] s[j])
}

/// A listing in order whose names are distinct, as a directory's are, is strictly
/// increasing in (category, name): the order leaves no ties.
pub proof fn lemma_listing_strictly_ordered(s: Seq<EntryInfo>)
    requires
        is_ordered(s),
        distinct_names(s),
    ensures
        strictly_ordered(s),
{
    assert forall|i: int, j: int| 0 <= i < j < s.len() implies entry_lt(#[trigger] s[i], #[trigger] s[j]) by {
        assert(entry_le(s[i], s[j]));
        assert(entry_name(s[i]) != entry_name(s[j]));
    }
}

/// How many entries a listing keeps.
pub open spec fn limit_of(option: OpenOption) -> int {
    match option {
        OpenOption::Full => s_max(),
        OpenOption::Preview => PREVIEW_LIMIT as int,
    }
}

pub open spec fn s_max() -> int {
    usize::MAX as int
}

pub proof fn lemma_name_le_total(a: Seq<char>, b: Seq<char>)
    ensures
        name_le(a, b) || name_le(b, a),
    decreases a.len(),
{
    if a.len() > 0 && b.len() > 0 && a[0] == b[0] {
        lemma_name_le_total(a.drop_first(), b.drop_first());
    }
}

pub proof fn lemma_name_le_trans(a: Seq<char>, b: Seq<char>, c: Seq<char>)
    requires
        name_le(a, b),
        name_le(b, c),
    ensures
        name_le(a, c),
    decreases a.len(),
{
    if a.len() > 0 && b.len() > 0 && c.len() > 0 && a[0] == b[0] && b[0] == c[0] {
        lemma_name_le_trans(a.drop_first(), b.drop_first(), c.drop_first());
    }
}

pub proof fn lemma_entry_le_total(a: EntryInfo, b: EntryInfo)
    ensures
        entry_le(a, b) || entry_le(b, a),
{
    lemma_name_le_total(entry_name(a), entry_name(b));
}

pub proof fn lemma_entry_le_trans(a: EntryInfo, b: EntryInfo, c: EntryInfo)
    requires
        entry_le(a, b),
        entry_le(b, c),
    ensures
        entry_le(a, c),
{
    if category(a) == category(b) && category(b) == category(c) {
        lemma_name_le_trans(entry_name(a), entry_name(b), entry_name(c));
    }
}

/// Whether `a` comes no later than `b` in name order.
pub fn names_in_order(a: &str, b: &str) -> (r: bool)
    ensures
        r == name_le(a@, b@),
{
    let x = chars_of(a);
    let y = chars_of(b);
    let mut i: usize = 0;
    assert(a@.subrange(0, a@.len() as int) =~= a@);
    assert(b@.subrange(0, b@.len() as int) =~= b@);
    while i < x.len() && i < y.len() && x[i] == y[i]
        invariant
            i <= x@.len(),
            i <= y@.len(),
            x@.subrange(0, i as int) == y@.subrange(0, i as int),
            name_le(a@, b@) == name_le(a@.subrange(i as int, a@.len() as int), b@.subrange(i as int, b@.len() as int)),
            x@ == a@,
            y@ == b@,
        decreases x@.len() - i,
    {
        let ghost sa = a@.subrange(i as int, a@.len() as int);
        let ghost sb = b@.subrange(i as int, b@.len() as int);
        assert(sa.drop_first() =~= a@.subrange(i + 1, a@.len() as int));
        assert(sb.drop_first() =~= b@.subrange(i + 1, b@.len() as int));
        assert(x@.subrange(0, i + 1) =~= x@.subrange(0, i as int).push(x@[i as int]));
        assert(y@.subrange(0, i + 1) =~= y@.subrange(0, i as int).push(y@[i as int]));
        i = i + 1;
    }
    if i == x.len() {
        true
    } else if i == y.len() {
        false
    } else {
        x[i] < y[i]
    }
}

/// The category of an entry, computed.
pub fn entry_category(e: &EntryInfo) -> (r: u8)
    ensures
        r as int == category(*e),
{
    match e.path.file_name() {
        Some(n) => {
            if is_hidden_name(n.as_str()) {
                2
            } else if e.is_dir {
                0
            } else {
                1
            }
        },
        None => {
            if e.is_dir {
                0
            } else {
                1
            }
        },
    }
}

fn entry_name_text(e: &EntryInfo) -> (r: String)
    ensures
        r@ == entry_name(*e),
{
    match e.path.file_name() {
        Some(n) => n,
        None => String::new(),
    }
}

/// Whether `a` comes no later than `b` in the listing order.
pub fn entries_in_order(a: &EntryInfo, b: &EntryInfo) -> (r: bool)
    ensures
        r == entry_le(*a, *b),
{
    let ca = entry_category(a);
    let cb = entry_category(b);
    if ca != cb {
        ca < cb
    } else {
        let na = entry_name_text(a);
        let nb = entry_name_text(b);
        names_in_order(na.as_str(), nb.as_str())
    }
}

/// Puts entries in the listing order.
pub fn sort_entries(entries: Vec<EntryInfo>) -> (r: Vec<EntryInfo>)
    ensures
        is_ordered(r@),
        r@.to_multiset() == entries@.to_multiset(),
{
    let mut rest = entries;
    let mut r: Vec<EntryInfo> = Vec::new();
    while rest.len() > 0
        invariant
            is_ordered(r@),
            r@.to_multiset().add(rest@.to_multiset()) == entries@.to_multiset(),
        decreases rest@.len(),
    {
        let ghost rest_before = rest@;
        let e = rest.pop().unwrap();
        assert(rest_before =~= rest@.push(e));
        let mut pos: usize = 0;
        while pos < r.len() && entries_in_order(&r[pos], &e)
            invariant
                pos <= r@.len(),
                forall|k: int| 0 <= k < pos ==> entry_le(#[trigger] r@[k], e),
            decreases r@.len() - pos,
        {
            pos = pos + 1;
        }
        proof {
            if pos < r@.len() {
                lemma_entry_le_total(r@[pos as int], e);
                assert forall|k: int| pos <= k < r@.len() implies entry_le(e, #[trigger] r@[k]) by {
                    if k > pos {
                        lemma_entry_le_trans(e, r@[pos as int], r@[k]);
                    }
                }
            }
        }
        let ghost r_before = r@;
        r.insert(pos, e);
        proof {
            assert(r@ =~= r_before.insert(pos as int, e));
            assert forall|i: int, j: int| 0 <= i < j < r@.len() implies entry_le(
                #[trigger] r@[i],
                #[trigger] r@[j],
            ) by {
                if i < pos && j == pos {
                } else if i < pos && j > pos {
                    assert(r@[j] == r_before[j - 1]);
                } else if i == pos {
                    assert(r@[j] == r_before[j - 1]);
                } else if i > pos {
                    assert(r@[i] == r_before[i - 1]);
                    assert(r@[j] == r_before[j - 1]);
                }
            }
            broadcast use vstd::multiset::group_multiset_axioms;
            assert(r@.to_multiset() == r_before.to_multiset().insert(e));
            assert(rest_before.to_multiset() == rest@.to_multiset().insert(e));
            assert(r@.to_multiset().add(rest@.to_multiset()) =~= r_before.to_multiset().add(
                rest_before.to_multiset(),
            ));
        }
    }
    assert(rest@.to_multiset() =~= vstd::multiset::Multiset::empty());
    assert(r@.to_multiset().add(rest@.to_multiset()) =~= r@.to_multiset());
    r
}

/// A directory listing: the entries read, cut to the option's limit, in the listing order.
pub fn order_listing(entries: Vec<EntryInfo>, option: OpenOption) -> (r: Vec<EntryInfo>)
    ensures
        is_ordered(r@),
        r@.to_multiset() == entries@.subrange(
            0,
            if entries@.len() <= limit_of(option) {
                entries@.len() as int
            } else {
                limit_of(option)
            },
        ).to_multiset(),
{
    let mut entries = entries;
    let ghost all = entries@;
    match option {
        OpenOption::Full => {
            assert(entries.len() <= usize::MAX);
            assert(all.subrange(0, all.len() as int) =~= all);
        },
        OpenOption::Preview => {
            if entries.len() > PREVIEW_LIMIT {
                entries.truncate(PREVIEW_LIMIT);
                assert(entries@ == all.subrange(0, PREVIEW_LIMIT as int));
            } else {
                assert(all.subrange(0, all.len() as int) =~= all);
            }
        },
    }
    sort_entries(entries)
}

} // verus!
