//! The lookahead buffer: a cursor over the decoded code points of the input,
//! with one put-back slot that is replayed before the cursor advances, so a
//! consumer can reconsume the single most recently read code point.
use vstd::prelude::*;
use vstd::string::StrSliceExecFns;

use crate::model::peek_at;

verus! {

/// A cursor into the input's code points, plus at most one put-back code
/// point that the next read returns first.
pub struct PutBackPeekMore {
    chars: Vec<char>,
    pos: usize,
    slot: Option<char>,
}

impl PutBackPeekMore {
    /// The cursor never passes the end of the input.
    pub closed spec fn wf(&self) -> bool {
        self.pos <= self.chars@.len()
    }

    /// The code points not yet consumed, the put-back slot first.
    pub closed spec fn remaining(&self) -> Seq<char> {
        match self.slot {
            Some(c) => seq![c] + self.chars@.skip(self.pos as int),
            None => self.chars@.skip(self.pos as int),
        }
    }

    /// Whether the put-back slot is free.
    pub closed spec fn slot_free(&self) -> bool {
        self.slot is None
    }

    pub fn new(input: &str) -> (r: Self)
        ensures
            r.wf(),
            r.slot_free(),
            r.remaining() == input@,
    {
        let n = input.unicode_len();
        let mut chars: Vec<char> = Vec::new();
        let mut i: usize = 0;
        while i < n
            invariant
                i <= n,
                n == input@.len(),
                chars@ == input@.take(i as int),
            decreases n - i,
        {
            chars.push(input.get_char(i));
            i = i + 1;
            assert(chars@ =~= input@.take(i as int));
        }
        assert(input@.take(n as int) =~= input@);
        let r = PutBackPeekMore { chars, pos: 0, slot: None };
        assert(r.remaining() =~= input@);
        r
    }

    /// Returns the next code point and advances: the put-back slot first when
    /// it is occupied, then the cursor; nothing at end of input.
    pub fn next(&mut self) -> (r: Option<char>)
        requires
            old(self).wf(),
        ensures
            final(self).wf(),
            final(self).slot_free(),
            old(self).remaining().len() == 0 ==> r is None && final(self).remaining() == old(
                self,
            ).remaining(),
            old(self).remaining().len() > 0 ==> r == Some(old(self).remaining()[0])
                && final(self).remaining() == old(self).remaining().drop_first(),
    {
        match self.slot {
            Some(c) => {
                self.slot = None;
                assert(self.remaining() =~= old(self).remaining().drop_first());
                Some(c)
            },
            None => {
                if self.pos < self.chars.len() {
                    let c = self.chars[self.pos];
                    self.pos = self.pos + 1;
                    assert(self.remaining() =~= old(self).remaining().drop_first());
                    Some(c)
                } else {
                    assert(self.remaining().len() == 0);
                    None
                }
            },
        }
    }

    /// Stores one code point to be replayed by the next read. The design
    /// replays at most one step, so the slot must be free.
    pub fn put_back(&mut self, input: char)
        requires
            old(self).wf(),
            old(self).slot_free(),
        ensures
            final(self).wf(),
            final(self).remaining() == seq![input] + old(self).remaining(),
    {
        self.slot = Some(input);
    }

    /// Stores a code point when one is given; replaying end of input is a
    /// no-op.
    pub fn put_back_option(&mut self, input: Option<char>)
        requires
            old(self).wf(),
            old(self).slot_free(),
        ensures
            final(self).wf(),
            input is Some ==> final(self).remaining() == seq![input->0] + old(self).remaining(),
            input is None ==> final(self).remaining() == old(self).remaining(),
    {
        self.slot = input;
    }

    /// The code point `n` positions ahead, without consuming.
    pub fn peek_nth(&self, n: usize) -> (r: Option<char>)
        requires
            self.wf(),
        ensures
            r == peek_at(self.remaining(), n as int),
    {
        match self.slot {
            Some(c) => {
                if n == 0 {
                    Some(c)
                } else if n - 1 < self.chars.len() - self.pos {
                    Some(self.chars[self.pos + (n - 1)])
                } else {
                    None
                }
            },
            None => {
                if n < self.chars.len() - self.pos {
                    Some(self.chars[self.pos + n])
                } else {
                    None
                }
            },
        }
    }

    /// The next code point, without consuming.
    pub fn peek(&self) -> (r: Option<char>)
        requires
            self.wf(),
        ensures
            r == peek_at(self.remaining(), 0),
    {
        self.peek_nth(0)
    }

    /// The next `amount` code points, without consuming; positions past the
    /// end of the input are given as absent.
    pub fn peek_amount(&self, amount: usize) -> (r: Vec<Option<char>>)
        requires
            self.wf(),
        ensures
            r@.len() == amount,
            forall|i: int| 0 <= i < amount ==> r@[i] == peek_at(self.remaining(), i),
    {
        let mut out: Vec<Option<char>> = Vec::new();
        let mut i: usize = 0;
        while i < amount
            invariant
                i <= amount,
                self.wf(),
                out@.len() == i,
                forall|j: int| 0 <= j < i ==> out@[j] == peek_at(self.remaining(), j),
            decreases amount - i,
        {
            out.push(self.peek_nth(i));
            i = i + 1;
        }
        out
    }
}

} // verus!
