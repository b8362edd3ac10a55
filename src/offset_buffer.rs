use vstd::prelude::*;

verus! {

/// The value of a digit character.
pub open spec fn digit_value(c: char) -> int {
    (c as int) - ('0' as int)
}

pub open spec fn is_digit(c: char) -> bool {
    '0' <= c && c <= '9'
}

/// The number that a run of decimal digits writes.
pub open spec fn decimal_value(s: Seq<char>) -> int
    decreases s.len(),
{
    if s.len() == 0 {
        0
    } else {
        decimal_value(s.drop_last()) * 10 + digit_value(s.last())
    }
}

/// A count typed before a motion key: the digits typed so far.
#[derive(Debug, PartialEq, Eq)]
pub struct OffsetBuffer {
    buffer: Vec<char>,
}

proof fn lemma_decimal_nonneg(s: Seq<char>)
    requires
        forall|i: int| 0 <= i < s.len() ==> is_digit(#[trigger] s[i]),
    ensures
        decimal_value(s) >= 0,
    decreases s.len(),
{
    if s.len() > 0 {
        lemma_decimal_nonneg(s.drop_last());
    }
}

impl OffsetBuffer {
    /// The digits typed so far.
    pub closed spec fn digits(&self) -> Seq<char> {
        self.buffer@
    }

    /// Only digits are held.
    pub closed spec fn wf(&self) -> bool {
        forall|i: int| 0 <= i < self.buffer@.len() ==> is_digit(#[trigger] self.buffer@[i])
    }

    /// An empty buffer.
    pub fn new() -> (r: OffsetBuffer)
        ensures
            r.wf(),
            r.digits().len() == 0,
    {
        OffsetBuffer { buffer: Vec::new() }
    }

    /// Takes in a typed character: a digit is kept, anything else is ignored.
    pub fn buff_char(&mut self, c: char)
        requires
            old(self).wf(),
        ensures
            final(self).wf(),
            is_digit(c) ==> final(self).digits() == old(self).digits().push(c),
            !is_digit(c) ==> final(self).digits() == old(self).digits(),
    {
        if '0' <= c && c <= '9' {
            self.buffer.push(c);
        }
    }

    /// The count typed, and an empty buffer: 1 when nothing was typed, and
    /// `usize::MAX` for a count too large to hold.
    pub fn get_offset(&mut self) -> (r: usize)
        requires
            old(self).wf(),
        ensures
            final(self).wf(),
            final(self).digits().len() == 0,
            old(self).digits().len() == 0 ==> r == 1,
            old(self).digits().len() > 0 && decimal_value(old(self).digits()) <= usize::MAX ==> r
                == decimal_value(old(self).digits()),
            old(self).digits().len() > 0 && decimal_value(old(self).digits()) > usize::MAX ==> r
                == usize::MAX,
    {
        if self.buffer.len() == 0 {
            return 1;
        }
        let mut value: usize = 0;
        let mut overflow = false;
        let mut i: usize = 0;
        while i < self.buffer.len()
            invariant
                self.wf(),
                i <= self.buffer@.len(),
                !overflow ==> value == decimal_value(self.buffer@.subrange(0, i as int)),
                overflow ==> decimal_value(self.buffer@.subrange(0, i as int)) > usize::MAX,
            decreases self.buffer@.len() - i,
        {
            let ghost pre = self.buffer@.subrange(0, i as int);
            let ghost next = self.buffer@.subrange(0, i + 1);
            assert(next.drop_last() =~= pre);
            proof {
                lemma_decimal_nonneg(pre);
            }
            let c = self.buffer[i];
            let d = (c as u32 - '0' as u32) as usize;
            assert(d == digit_value(c));
            if !overflow {
                match value.checked_mul(10) {
                    Some(v) => match v.checked_add(d) {
                        Some(w) => {
                            value = w;
                        },
                        None => {
                            overflow = true;
                        },
                    },
                    None => {
                        overflow = true;
                    },
                }
            }
            i = i + 1;
        }
        assert(self.buffer@.subrange(0, i as int) =~= self.buffer@);
        self.buffer.clear();
        if overflow {
            usize::MAX
        } else {
            value
        }
    }
}

} // verus!
