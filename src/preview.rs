use vstd::prelude::*;
use vstd::utf8::{decode_utf8, valid_utf8};

use crate::manager::ManagerError;
use vstd::string::*;

use crate::path::chars_of;

verus! {

/// A preview reads at most this many bytes of a file.
pub const PREVIEW_BYTES: usize = 16384;

/// A preview shows at most this many lines.
pub const PREVIEW_LINES: usize = 100;

/// The bytes a preview looks at: the first `PREVIEW_BYTES` of those read.
pub open spec fn preview_head(bytes: Seq<u8>) -> Seq<u8> {
    if bytes.len() <= PREVIEW_BYTES {
        bytes
    } else {
        bytes.subrange(0, PREVIEW_BYTES as int)
    }
}

/// Position of the first '\n' at or after `i`, or the length when there is none.
pub open spec fn next_newline(t: Seq<char>, i: int) -> int
    decreases t.len() - i,
{
    if i >= t.len() {
        t.len() as int
    } else if t[i] == '\n' {
        i
    } else {
        next_newline(t, i + 1)
    }
}

/// A line without the '\r' that may end it.
pub open spec fn strip_cr(l: Seq<char>) -> Seq<char> {
    if l.len() > 0 && l.last() == '\r' {
        l.drop_last()
    } else {
        l
    }
}

/// The lines of `t` from position `i` on, as `str::lines` gives them: split at each
/// '\n', a final '\n' starting no extra line, and a '\r' dropped only right before a '\n'.
pub open spec fn lines_from(t: Seq<char>, i: int) -> Seq<Seq<char>>
    decreases t.len() - i,
{
    if i < 0 || i >= t.len() {
        seq![]
    } else {
        let j = next_newline(t, i);
        if j < i || j >= t.len() {
            seq![t.subrange(i, t.len() as int)]
        } else {
            seq![strip_cr(t.subrange(i, j))] + lines_from(t, j + 1)
        }
    }
}

/// Lines joined with '\n' between them.
pub open spec fn join_lines(ls: Seq<Seq<char>>) -> Seq<char>
    decreases ls.len(),
{
    if ls.len() == 0 {
        seq![]
    } else if ls.len() == 1 {
        ls[0]
    } else {
        join_lines(ls.drop_last()) + seq!['\n'] + ls.last()
    }
}

/// The first `n` lines of a text, joined with '\n'.
pub open spec fn first_lines(t: Seq<char>, n: int) -> Seq<char> {
    let ls = lines_from(t, 0);
    join_lines(if ls.len() <= n { ls } else { ls.subrange(0, n) })
}

/// Relies on `std::str::from_utf8`: it accepts exactly the valid UTF-8 byte strings and
/// decodes them.
#[verifier::external_body]
fn decode_text(bytes: &[u8]) -> (r: Option<String>)
    ensures
        r is Some <==> valid_utf8(bytes@),
        r matches Some(s) ==> s@ == decode_utf8(bytes@),
{
    match std::str::from_utf8(bytes) {
        Ok(s) => Some(s.to_string()),
        Err(_) => None,
    }
}

proof fn lemma_next_newline(t: Seq<char>, i: int)
    requires
        0 <= i <= t.len(),
    ensures
        i <= next_newline(t, i) <= t.len(),
        next_newline(t, i) < t.len() ==> t[next_newline(t, i)] == '\n',
        forall|k: int| i <= k < next_newline(t, i) ==> t[k] != '\n',
    decreases t.len() - i,
{
    if i < t.len() && t[i] != '\n' {
        lemma_next_newline(t, i + 1);
    }
}

/// The first `limit` lines of `text`, joined with '\n'.
pub fn first_lines_of(text: &str, limit: usize) -> (r: String)
    ensures
        r@ == first_lines(text@, limit as int),
{
    let t = chars_of(text);
    let n = t.len();
    let ghost all = lines_from(t@, 0);
    let mut out = String::new();
    let mut count: usize = 0;
    let mut i: usize = 0;
    let ghost done: Seq<Seq<char>> = seq![];
    assert(all == done + lines_from(t@, 0));
    while i < n && count < limit
        invariant
            n == t@.len(),
            t@ == text@,
            all == lines_from(t@, 0),
            i <= n,
            count == done.len(),
            count <= limit,
            all == done + lines_from(t@, i as int),
            out@ == join_lines(done),
        decreases n - i,
    {
        let mut j: usize = i;
        proof {
            lemma_next_newline(t@, i as int);
        }
        while j < n && t[j] != '\n'
            invariant
                n == t@.len(),
                i <= j <= n,
                next_newline(t@, i as int) == next_newline(t@, j as int),
            decreases n - j,
        {
            j = j + 1;
        }
        let mut end = j;
        if j < n && end > i && t[end - 1] == '\r' {
            end = end - 1;
        }
        let ghost line = if j < n {
            strip_cr(t@.subrange(i as int, j as int))
        } else {
            t@.subrange(i as int, j as int)
        };
        assert(t@.subrange(i as int, end as int) =~= line);
        assert(lines_from(t@, i as int) == seq![line] + lines_from(t@, j + 1)) by {
            if j >= n {
                assert(lines_from(t@, j + 1) =~= Seq::<Seq<char>>::empty());
            }
        }
        let ghost out_before = out@;
        if count > 0 {
            out.append("\n");
            proof {
                reveal_strlit("\n");
            }
        }
        out.append(text.substring_char(i, end));
        proof {
            let d2 = done.push(line);
            assert(d2.drop_last() =~= done);
            if count == 0 {
                assert(done =~= Seq::<Seq<char>>::empty());
                assert(join_lines(d2) == line);
                assert(out@ =~= line);
            } else {
                assert(out@ =~= join_lines(done) + seq!['\n'] + line);
            }
            assert(all =~= d2 + lines_from(t@, j + 1));
            done = d2;
        }
        count = count + 1;
        i = if j < n { j + 1 } else { n };
        proof {
            if j >= n {
                assert(lines_from(t@, j + 1) =~= Seq::<Seq<char>>::empty());
                assert(lines_from(t@, n as int) =~= Seq::<Seq<char>>::empty());
            }
        }
    }
    proof {
        if i >= n {
            assert(lines_from(t@, i as int) =~= Seq::<Seq<char>>::empty());
            assert(all =~= done);
        } else {
            assert(done =~= all.subrange(0, count as int));
        }
        assert(all.len() >= done.len());
    }
    out
}

/// What a file preview shows: the text of the first `PREVIEW_BYTES` bytes read, cut to
/// `PREVIEW_LINES` lines. `is_file` is false for anything but a regular file.
pub fn file_preview(is_file: bool, bytes: &Vec<u8>) -> (r: Result<String, ManagerError>)
    ensures
        !is_file ==> r == Err::<String, ManagerError>(ManagerError::IsADirectory),
        is_file && !valid_utf8(preview_head(bytes@)) ==> r == Err::<String, ManagerError>(
                ManagerError::NotUtf8,
            ),
        is_file && valid_utf8(preview_head(bytes@)) ==> r is Ok && r->Ok_0@ == first_lines(
                decode_utf8(preview_head(bytes@)),
                PREVIEW_LINES as int,
            ),
{
    if !is_file {
        return Err(ManagerError::IsADirectory);
    }
    let len = if bytes.len() <= PREVIEW_BYTES { bytes.len() } else { PREVIEW_BYTES };
    let head = vstd::slice::slice_subrange(bytes.as_slice(), 0, len);
    assert(head@ == preview_head(bytes@)) by {
        if bytes@.len() <= PREVIEW_BYTES {
            assert(bytes@.subrange(0, bytes@.len() as int) =~= bytes@);
        }
    }
    match decode_text(head) {
        Some(text) => Ok(first_lines_of(text.as_str(), PREVIEW_LINES)),
        None => Err(ManagerError::NotUtf8),
    }
}

} // verus!
