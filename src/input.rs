use vstd::prelude::*;
use vstd::string::*;

use crate::path::chars_of;

verus! {

/// Whether a character ends a word for deletion: a space or a path separator.
pub open spec fn word_break(c: char) -> bool {
    c == ' ' || c == '/'
}

/// Position of the last word break in `s`, or -1 when there is none.
pub open spec fn last_break(s: Seq<char>) -> int
    decreases s.len(),
{
    if s.len() == 0 {
        -1
    } else if word_break(s.last()) {
        s.len() - 1
    } else {
        last_break(s.drop_last())
    }
}

/// The text with its last word removed: everything before the last space or '/',
/// or nothing when there is none.
pub open spec fn without_last_word(s: Seq<char>) -> Seq<char> {
    if last_break(s) < 0 {
        seq![]
    } else {
        s.subrange(0, last_break(s))
    }
}

/// Position of the last '/' in `s`, or -1 when there is none.
pub open spec fn last_slash(s: Seq<char>) -> int
    decreases s.len(),
{
    if s.len() == 0 {
        -1
    } else if s.last() == '/' {
        s.len() - 1
    } else {
        last_slash(s.drop_last())
    }
}

/// The directory part of a typed path, up to and with its last '/'.
pub open spec fn typed_head(s: Seq<char>) -> Seq<char> {
    s.subrange(0, last_slash(s) + 1)
}

/// The name being typed: what follows the last '/'.
pub open spec fn typed_tail(s: Seq<char>) -> Seq<char> {
    s.subrange(last_slash(s) + 1, s.len() as int)
}

pub open spec fn is_prefix(p: Seq<char>, s: Seq<char>) -> bool {
    p.len() <= s.len() && s.subrange(0, p.len() as int) == p
}

/// The longest common prefix of two names.
pub open spec fn common_prefix(a: Seq<char>, b: Seq<char>) -> Seq<char>
    decreases a.len(),
{
    if a.len() == 0 || b.len() == 0 || a[0] != b[0] {
        seq![]
    } else {
        seq![a[0]] + common_prefix(a.drop_first(), b.drop_first())
    }
}

/// The names that start with `p`, in order.
pub open spec fn starting_with(names: Seq<Seq<char>>, p: Seq<char>) -> Seq<Seq<char>>
    decreases names.len(),
{
    if names.len() == 0 {
        seq![]
    } else if is_prefix(p, names.last()) {
        starting_with(names.drop_last(), p).push(names.last())
    } else {
        starting_with(names.drop_last(), p)
    }
}

/// The longest prefix common to all names of a non-empty list.
pub open spec fn shared_prefix(names: Seq<Seq<char>>) -> Seq<char>
    decreases names.len(),
{
    if names.len() <= 1 {
        if names.len() == 0 {
            seq![]
        } else {
            names[0]
        }
    } else {
        common_prefix(shared_prefix(names.drop_last()), names.last())
    }
}

/// What tab completion makes of a typed path, given the names of the directories
/// where it points: one match is completed with a '/', several are completed
/// as far as they agree, and none leaves nothing to do.
pub open spec fn completion(typed: Seq<char>, dir_names: Seq<Seq<char>>) -> Option<Seq<char>> {
    let m = starting_with(dir_names, typed_tail(typed));
    if m.len() == 0 {
        None
    } else if m.len() == 1 {
        Some(typed_head(typed) + m[0] + seq!['/'])
    } else {
        Some(typed_head(typed) + shared_prefix(m))
    }
}

proof fn lemma_last_break(s: Seq<char>)
    ensures
        -1 <= last_break(s) < s.len(),
    decreases s.len(),
{
    if s.len() > 0 && !word_break(s.last()) {
        lemma_last_break(s.drop_last());
    }
}

proof fn lemma_last_slash(s: Seq<char>)
    ensures
        -1 <= last_slash(s) < s.len(),
    decreases s.len(),
{
    if s.len() > 0 && s.last() != '/' {
        lemma_last_slash(s.drop_last());
    }
}

/// The text with its last word, and the space or '/' before it, removed.
pub fn delete_prev_word(value: &str) -> (r: String)
    ensures
        r@ == without_last_word(value@),
{
    let t = chars_of(value);
    let mut i: usize = t.len();
    proof {
        lemma_last_break(t@);
        assert(t@.subrange(0, i as int) =~= t@);
    }
    while i > 0 && !(t[i - 1] == ' ' || t[i - 1] == '/')
        invariant
            i <= t@.len(),
            last_break(t@) == last_break(t@.subrange(0, i as int)),
        decreases i,
    {
        assert(t@.subrange(0, i as int).drop_last() =~= t@.subrange(0, i - 1));
        i = i - 1;
    }
    if i == 0 {
        assert(t@.subrange(0, 0) =~= Seq::<char>::empty());
        return String::new();
    }
    value.substring_char(0, i - 1).to_owned()
}

fn slash_end(t: &Vec<char>) -> (r: usize)
    ensures
        r as int == last_slash(t@) + 1,
{
    let mut i: usize = t.len();
    proof {
        lemma_last_slash(t@);
        assert(t@.subrange(0, i as int) =~= t@);
    }
    while i > 0 && t[i - 1] != '/'
        invariant
            i <= t@.len(),
            last_slash(t@) == last_slash(t@.subrange(0, i as int)),
        decreases i,
    {
        assert(t@.subrange(0, i as int).drop_last() =~= t@.subrange(0, i - 1));
        i = i - 1;
    }
    proof {
        if i == 0 {
            assert(t@.subrange(0, 0) =~= Seq::<char>::empty());
        }
    }
    i
}

/// The directory part of a typed path, up to and with its last '/': where tab
/// completion looks for names.
pub fn completion_dir(value: &str) -> (r: String)
    ensures
        r@ == typed_head(value@),
{
    let t = chars_of(value);
    let cut = slash_end(&t);
    proof {
        lemma_last_slash(t@);
    }
    value.substring_char(0, cut).to_owned()
}

/// Whether `s` starts with `p`.
pub fn starts_with_chars(s: &Vec<char>, p: &Vec<char>) -> (r: bool)
    ensures
        r == is_prefix(p@, s@),
{
    if p.len() > s.len() {
        return false;
    }
    let mut i: usize = 0;
    while i < p.len()
        invariant
            p@.len() <= s@.len(),
            i <= p@.len(),
            forall|k: int| 0 <= k < i ==> s@[k] == p@[k],
        decreases p@.len() - i,
    {
        if s[i] != p[i] {
            assert(s@.subrange(0, p@.len() as int)[i as int] != p@[i as int]);
            return false;
        }
        i = i + 1;
    }
    assert(s@.subrange(0, p@.len() as int) =~= p@);
    true
}

/// The common prefix of two names starts the first one.
proof fn lemma_common_prefix_is_prefix(a: Seq<char>, b: Seq<char>)
    ensures
        common_prefix(a, b).len() <= a.len(),
        common_prefix(a, b) == a.subrange(0, common_prefix(a, b).len() as int),
    decreases a.len(),
{
    if a.len() > 0 && b.len() > 0 && a[0] == b[0] {
        lemma_common_prefix_is_prefix(a.drop_first(), b.drop_first());
        assert(common_prefix(a, b) =~= a.subrange(0, common_prefix(a, b).len() as int));
    } else {
        assert(common_prefix(a, b) =~= a.subrange(0, 0));
    }
}

/// The longest common prefix of two names.
pub fn common_prefix_of(a: &Vec<char>, b: &Vec<char>) -> (r: Vec<char>)
    ensures
        r@ == common_prefix(a@, b@),
{
    let mut r: Vec<char> = Vec::new();
    let mut i: usize = 0;
    assert(a@.subrange(0, a@.len() as int) =~= a@);
    assert(b@.subrange(0, b@.len() as int) =~= b@);
    assert(r@ + common_prefix(a@, b@) =~= common_prefix(a@, b@));
    while i < a.len() && i < b.len() && a[i] == b[i]
        invariant
            i <= a@.len(),
            i <= b@.len(),
            r@ == a@.subrange(0, i as int),
            common_prefix(a@, b@) == r@ + common_prefix(
                a@.subrange(i as int, a@.len() as int),
                b@.subrange(i as int, b@.len() as int),
            ),
        decreases a@.len() - i,
    {
        let ghost sa = a@.subrange(i as int, a@.len() as int);
        let ghost sb = b@.subrange(i as int, b@.len() as int);
        assert(sa.drop_first() =~= a@.subrange(i + 1, a@.len() as int));
        assert(sb.drop_first() =~= b@.subrange(i + 1, b@.len() as int));
        r.push(a[i]);
        i = i + 1;
        assert(r@ =~= a@.subrange(0, i as int));
        assert(common_prefix(a@, b@) =~= r@ + common_prefix(
            a@.subrange(i as int, a@.len() as int),
            b@.subrange(i as int, b@.len() as int),
        ));
    }
    proof {
        let sa = a@.subrange(i as int, a@.len() as int);
        let sb = b@.subrange(i as int, b@.len() as int);
        if sa.len() > 0 && sb.len() > 0 {
            assert(sa[0] == a@[i as int]);
            assert(sb[0] == b@[i as int]);
        }
        assert(common_prefix(sa, sb) =~= Seq::<char>::empty());
        assert(r@ + Seq::<char>::empty() =~= r@);
    }
    r
}

/// Tab completion of a typed path, given the names of the directories where it
/// points; `None` when no name fits.
pub fn complete_input(value: &str, dir_names: &Vec<String>) -> (r: Option<String>)
    ensures
        match r {
            Some(s) => completion(value@, dir_names@.map_values(|n: String| n@)) == Some(s@),
            None => completion(value@, dir_names@.map_values(|n: String| n@)) is None,
        },
{
    let t = chars_of(value);
    let cut = slash_end(&t);
    proof {
        lemma_last_slash(t@);
    }
    let tail = chars_of(value.substring_char(cut, t.len()));
    let ghost names = dir_names@.map_values(|n: String| n@);
    let mut count: usize = 0;
    let mut first: usize = 0;
    let mut shared: Vec<char> = Vec::new();
    let mut i: usize = 0;
    assert(names.subrange(0, 0) =~= Seq::<Seq<char>>::empty());
    while i < dir_names.len()
        invariant
            i <= dir_names@.len(),
            names == dir_names@.map_values(|n: String| n@),
            tail@ == typed_tail(value@),
            count <= i,
            count == starting_with(names.subrange(0, i as int), tail@).len(),
            count >= 1 ==> first < dir_names@.len() && names[first as int] == starting_with(
                names.subrange(0, i as int),
                tail@,
            )[0],
            count >= 1 ==> shared@ == shared_prefix(starting_with(names.subrange(0, i as int), tail@)),
            count >= 1 ==> shared@.len() <= names[first as int].len() && shared@ == names[first as int].subrange(
                0,
                shared@.len() as int,
            ),
        decreases dir_names@.len() - i,
    {
        let ghost before = starting_with(names.subrange(0, i as int), tail@);
        assert(names.subrange(0, i + 1).drop_last() =~= names.subrange(0, i as int));
        let n = chars_of(dir_names[i].as_str());
        assert(n@ == names[i as int]);
        if starts_with_chars(&n, &tail) {
            let ghost after = before.push(n@);
            assert(after.drop_last() =~= before);
            if count == 0 {
                first = i;
                shared = n;
                assert(before =~= Seq::<Seq<char>>::empty());
                assert(shared@ =~= names[first as int].subrange(0, shared@.len() as int));
            } else {
                let ghost old_shared = shared@;
                shared = common_prefix_of(&shared, &n);
                assert(after[0] == before[0]);
                proof {
                    lemma_common_prefix_is_prefix(old_shared, n@);
                    assert(shared@ =~= names[first as int].subrange(0, shared@.len() as int));
                }
            }
            count = count + 1;
        }
        i = i + 1;
    }
    assert(names.subrange(0, i as int) =~= names);
    if count == 0 {
        return None;
    }
    let head = value.substring_char(0, cut).to_owned();
    proof {
        assert(t@ == value@);
    }
    let mut out = head;
    let word = dir_names[first].as_str();
    if count == 1 {
        out.append(word);
        out.append("/");
        proof {
            reveal_strlit("/");
        }
    } else {
        out.append(word.substring_char(0, shared.len()));
    }
    Some(out)
}

} // verus!
