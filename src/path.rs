use vstd::prelude::*;
use vstd::std_specs::iter::IteratorSpec;
use vstd::string::*;

verus! {

/// An absolute filesystem path, held as its segments below the root.
/// The root itself has no segments.
#[derive(Debug, Clone, PartialEq, Eq, PartialOrd, Ord, Hash)]
pub struct FsPath {
    pub parts: Vec<String>,
}

impl View for FsPath {
    type V = Seq<Seq<char>>;

    open spec fn view(&self) -> Seq<Seq<char>> {
        self.parts@.map_values(|s: String| s@)
    }
}

/// The last segment of a path, if the path is not the root.
pub open spec fn name_of(p: Seq<Seq<char>>) -> Option<Seq<char>> {
    if p.len() == 0 {
        None
    } else {
        Some(p.last())
    }
}

/// Index of the last '.' in a name, or -1 when there is none.
pub open spec fn last_dot(n: Seq<char>) -> int
    decreases n.len(),
{
    if n.len() == 0 {
        -1
    } else if n.last() == '.' {
        n.len() - 1
    } else {
        last_dot(n.drop_last())
    }
}

pub open spec fn is_parent_marker(n: Seq<char>) -> bool {
    n == seq!['.', '.']
}

/// A file name without its final extension. A leading dot starts no extension.
pub open spec fn stem_of(n: Seq<char>) -> Seq<char> {
    if is_parent_marker(n) || last_dot(n) <= 0 {
        n
    } else {
        n.subrange(0, last_dot(n))
    }
}

/// The final extension of a file name, without its dot.
pub open spec fn extension_of(n: Seq<char>) -> Option<Seq<char>> {
    if is_parent_marker(n) || last_dot(n) <= 0 {
        None
    } else {
        Some(n.subrange(last_dot(n) + 1, n.len() as int))
    }
}

/// A name is hidden when it starts with a dot.
pub open spec fn hidden_name(n: Seq<char>) -> bool {
    n.len() > 0 && n[0] == '.'
}

/// Splits text on '/' into its non-empty segments, from position `i`,
/// with `cur` the part of the segment already read.
pub open spec fn split_from(s: Seq<char>, i: int, cur: Seq<char>) -> Seq<Seq<char>>
    decreases s.len() - i,
{
    if i >= s.len() {
        if cur.len() == 0 {
            seq![]
        } else {
            seq![cur]
        }
    } else if s[i] == '/' {
        (if cur.len() == 0 {
            seq![]
        } else {
            seq![cur]
        }) + split_from(s, i + 1, seq![])
    } else {
        split_from(s, i + 1, cur.push(s[i]))
    }
}

/// The non-empty segments of a '/'-separated text.
pub open spec fn segments_of(s: Seq<char>) -> Seq<Seq<char>> {
    split_from(s, 0, seq![])
}

/// The characters of a string, one by one.
pub fn chars_of(s: &str) -> (r: Vec<char>)
    ensures
        r@ == s@,
{
    broadcast use vstd::string::group_string_axioms;

    let mut it = s.chars();
    let mut r: Vec<char> = Vec::new();
    assert(it.remaining() == s@);
    loop
        invariant
            r@ + it.remaining() == s@,
        ensures
            r@ == s@,
        decreases s@.len() - r@.len(),
    {
        let ghost before = it.remaining();
        match it.next() {
            Some(c) => {
                r.push(c);
                assert(r@ + it.remaining() =~= s@) by {
                    assert(before =~= seq![c] + it.remaining());
                }
            },
            None => {
                assert(r@ =~= s@);
                break;
            },
        }
    }
    r
}

/// A copy of a string with the same characters.
pub fn copy_string(s: &String) -> (r: String)
    ensures
        r@ == s@,
{
    s.as_str().to_owned()
}

proof fn lemma_last_dot(n: Seq<char>)
    ensures
        -1 <= last_dot(n) < n.len(),
        last_dot(n) >= 0 ==> n[last_dot(n)] == '.',
    decreases n.len(),
{
    if n.len() > 0 && n.last() != '.' {
        lemma_last_dot(n.drop_last());
    }
}

/// Position of the last '.' in `n`, if any.
pub fn find_last_dot(n: &str) -> (r: Option<usize>)
    ensures
        match r {
            Some(i) => i as int == last_dot(n@) && i < n@.len(),
            None => last_dot(n@) == -1,
        },
{
    proof {
        lemma_last_dot(n@);
    }
    let len = n.unicode_len();
    let mut i: usize = len;
    assert(n@.subrange(0, len as int) =~= n@);
    while i > 0
        invariant
            len == n@.len(),
            i <= len,
            last_dot(n@) == last_dot(n@.subrange(0, i as int)),
        decreases i,
    {
        let ghost pre = n@.subrange(0, i as int);
        assert(pre.drop_last() =~= n@.subrange(0, i - 1));
        if n.get_char(i - 1) == '.' {
            return Some(i - 1);
        }
        i = i - 1;
    }
    assert(n@.subrange(0, 0) =~= Seq::<char>::empty());
    None
}

/// Whether the name starts with a dot.
pub fn is_hidden_name(n: &str) -> (r: bool)
    ensures
        r == hidden_name(n@),
{
    let len = n.unicode_len();
    len > 0 && n.get_char(0) == '.'
}

fn is_two_dots(n: &str) -> (r: bool)
    ensures
        r == is_parent_marker(n@),
{
    let len = n.unicode_len();
    if len == 2 && n.get_char(0) == '.' && n.get_char(1) == '.' {
        assert(n@ =~= seq!['.', '.']);
        true
    } else {
        false
    }
}

/// The stem of a file name: the name without its final extension.
pub fn file_stem(n: &str) -> (r: String)
    ensures
        r@ == stem_of(n@),
{
    let dot = find_last_dot(n);
    match dot {
        Some(i) => {
            if i == 0 || is_two_dots(n) {
                n.to_owned()
            } else {
                n.substring_char(0, i).to_owned()
            }
        },
        None => n.to_owned(),
    }
}

/// The final extension of a file name, if it has one.
pub fn file_extension(n: &str) -> (r: Option<String>)
    ensures
        match r {
            Some(e) => extension_of(n@) == Some(e@),
            None => extension_of(n@) is None,
        },
{
    let dot = find_last_dot(n);
    match dot {
        Some(i) => {
            if i == 0 || is_two_dots(n) {
                None
            } else {
                let len = n.unicode_len();
                Some(n.substring_char(i + 1, len).to_owned())
            }
        },
        None => None,
    }
}

/// Splits a '/'-separated text into its non-empty segments.
pub fn split_segments(s: &str) -> (r: Vec<String>)
    ensures
        r@.map_values(|x: String| x@) == segments_of(s@),
{
    let n = s.unicode_len();
    let mut r: Vec<String> = Vec::new();
    let mut start: usize = 0;
    let mut i: usize = 0;
    assert(s@.subrange(0, 0) =~= Seq::<char>::empty());
    assert(r@.map_values(|x: String| x@) =~= Seq::<Seq<char>>::empty());
    while i < n
        invariant
            n == s@.len(),
            start <= i <= n,
            r@.map_values(|x: String| x@) + split_from(s@, i as int, s@.subrange(start as int, i as int))
                == segments_of(s@),
        decreases n - i,
    {
        let ghost acc = r@.map_values(|x: String| x@);
        let ghost cur = s@.subrange(start as int, i as int);
        if s.get_char(i) == '/' {
            if start < i {
                let seg = s.substring_char(start, i).to_owned();
                r.push(seg);
                assert(r@.map_values(|x: String| x@) =~= acc + seq![cur]);
            } else {
                assert(cur =~= Seq::<char>::empty());
            }
            assert(s@.subrange((i + 1) as int, (i + 1) as int) =~= Seq::<char>::empty());
            i = i + 1;
            start = i;
            assert(r@.map_values(|x: String| x@) + split_from(s@, i as int, s@.subrange(start as int, i as int))
                =~= acc + split_from(s@, (i - 1) as int, cur));
        } else {
            assert(s@.subrange(start as int, (i + 1) as int) =~= cur.push(s@[i as int]));
            i = i + 1;
        }
    }
    let ghost acc = r@.map_values(|x: String| x@);
    if start < n {
        let seg = s.substring_char(start, n).to_owned();
        r.push(seg);
        assert(r@.map_values(|x: String| x@) =~= acc + seq![s@.subrange(start as int, n as int)]);
    } else {
        assert(r@.map_values(|x: String| x@) =~= acc + seq![]);
    }
    r
}

impl FsPath {
    /// The root directory.
    pub fn root() -> (r: FsPath)
        ensures
            r@ == Seq::<Seq<char>>::empty(),
    {
        let r = FsPath { parts: Vec::new() };
        assert(r@ =~= Seq::<Seq<char>>::empty());
        r
    }

    /// The path given by a '/'-separated text, read from the root.
    pub fn parse(text: &str) -> (r: FsPath)
        ensures
            r@ == segments_of(text@),
    {
        FsPath { parts: split_segments(text) }
    }

    /// A path with the same segments.
    pub fn duplicate(&self) -> (r: FsPath)
        ensures
            r@ == self@,
    {
        let mut parts: Vec<String> = Vec::new();
        let mut i: usize = 0;
        while i < self.parts.len()
            invariant
                i <= self.parts@.len(),
                parts@.map_values(|x: String| x@) == self@.subrange(0, i as int),
            decreases self.parts@.len() - i,
        {
            let ghost before = parts@.map_values(|x: String| x@);
            parts.push(copy_string(&self.parts[i]));
            assert(parts@.map_values(|x: String| x@) =~= before.push(self@[i as int]));
            i = i + 1;
            assert(parts@.map_values(|x: String| x@) =~= self@.subrange(0, i as int));
        }
        let r = FsPath { parts };
        assert(r@ =~= self@);
        r
    }

    /// This path with `name` appended as its last segment.
    pub fn join(&self, name: &str) -> (r: FsPath)
        ensures
            r@ == self@.push(name@),
    {
        let mut r = self.duplicate();
        let ghost before = r@;
        r.parts.push(name.to_owned());
        assert(r@ =~= before.push(name@));
        r
    }

    /// Removes the last segment. Returns false, and changes nothing, at the root.
    pub fn pop(&mut self) -> (r: bool)
        ensures
            r == (old(self)@.len() > 0),
            r ==> final(self)@ == old(self)@.drop_last(),
            !r ==> final(self)@ == old(self)@,
    {
        if self.parts.len() == 0 {
            false
        } else {
            let ghost before = self@;
            self.parts.pop();
            assert(self@ =~= before.drop_last());
            true
        }
    }

    /// The last segment, if this is not the root.
    pub fn file_name(&self) -> (r: Option<String>)
        ensures
            match r {
                Some(n) => name_of(self@) == Some(n@),
                None => name_of(self@) is None,
            },
    {
        let len = self.parts.len();
        if len == 0 {
            None
        } else {
            Some(copy_string(&self.parts[len - 1]))
        }
    }

    /// Whether two paths have the same segments.
    pub fn same_as(&self, other: &FsPath) -> (r: bool)
        ensures
            r == (self@ == other@),
    {
        assert(self@.len() == self.parts@.len() && other@.len() == other.parts@.len());
        if self.parts.len() != other.parts.len() {
            return false;
        }
        let mut i: usize = 0;
        while i < self.parts.len()
            invariant
                self.parts@.len() == other.parts@.len(),
                i <= self.parts@.len(),
                forall|j: int| 0 <= j < i ==> self@[j] == other@[j],
            decreases self.parts@.len() - i,
        {
            if self.parts[i] != other.parts[i] {
                assert(self@[i as int] != other@[i as int]);
                return false;
            }
            i = i + 1;
        }
        assert(self@ =~= other@);
        true
    }

    /// The path as text: "/" for the root, else each segment after a '/'.
    pub fn to_text(&self) -> (r: String)
        ensures
            r@ == text_of(self@),
    {
        if self.parts.len() == 0 {
            proof {
                reveal_strlit("/");
            }
            return "/".to_owned();
        }
        let mut r = String::new();
        let mut i: usize = 0;
        while i < self.parts.len()
            invariant
                self.parts@.len() > 0,
                i <= self.parts@.len(),
                r@ == joined_from_root(self@.subrange(0, i as int)),
            decreases self.parts@.len() - i,
        {
            let ghost before = r@;
            r.append("/");
            r.append(self.parts[i].as_str());
            proof {
                reveal_strlit("/");
                assert(self@.subrange(0, i + 1).drop_last() =~= self@.subrange(0, i as int));
            }
            i = i + 1;
        }
        assert(self@.subrange(0, self@.len() as int) =~= self@);
        r
    }
}

/// Each segment after a '/'.
pub open spec fn joined_from_root(p: Seq<Seq<char>>) -> Seq<char>
    decreases p.len(),
{
    if p.len() == 0 {
        seq![]
    } else {
        joined_from_root(p.drop_last()) + seq!['/'] + p.last()
    }
}

/// The text of a path.
pub open spec fn text_of(p: Seq<Seq<char>>) -> Seq<char> {
    if p.len() == 0 {
        seq!['/']
    } else {
        joined_from_root(p)
    }
}

} // verus!
