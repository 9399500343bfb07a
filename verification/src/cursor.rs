//! A character-level scanner over an input string.

use vstd::prelude::*;

verus! {

/// The next character of `s`, or `'\0'` when `s` is exhausted.
pub open spec fn first_or_nul(s: Seq<char>) -> char {
    if s.len() > 0 {
        s[0]
    } else {
        '\0'
    }
}

/// The character after the next one, or `'\0'` when `s` has fewer than two.
pub open spec fn second_or_nul(s: Seq<char>) -> char {
    if s.len() > 1 {
        s[1]
    } else {
        '\0'
    }
}

/// A scanner over the input: the characters, the index of the next unread
/// one, the previously consumed character, and a `(line, column)` counter.
///
/// The cursor itself never updates `line` and `col` on `bump`; the lexer
/// advances `line` when it consumes a newline. Column counts are therefore
/// coarse and serve diagnostics only.
pub struct Cursor {
    pub text: Vec<char>,
    pub pos: usize,
    pub prev: char,
    pub line: usize,
    pub col: usize,
}

impl Cursor {
    /// The unread portion of the input.
    pub open spec fn remaining(&self) -> Seq<char> {
        self.text@.skip(self.pos as int)
    }

    /// The read position never passes the end of the input.
    pub open spec fn wf(&self) -> bool {
        self.pos <= self.text@.len()
    }

    /// Start a cursor at the beginning of `input`.
    pub fn new(input: &str) -> (c: Cursor)
        ensures
            c.wf(),
            c.text@ == input@,
            c.pos == 0,
            c.remaining() == input@,
            c.prev == '\0',
            c.line == 0,
            c.col == 0,
    {
        let n = input.unicode_len();
        let mut text: Vec<char> = Vec::new();
        let mut i: usize = 0;
        while i < n
            invariant
                i <= n,
                n == input@.len(),
                text@ == input@.subrange(0, i as int),
            decreases n - i,
        {
            let ch = input.get_char(i);
            text.push(ch);
            i += 1;
            proof {
                assert(text@ =~= input@.subrange(0, i as int));
            }
        }
        proof {
            assert(text@ =~= input@);
        }
        let c = Cursor { text, pos: 0, prev: '\0', line: 0, col: 0 };
        proof {
            assert(c.remaining() =~= c.text@);
        }
        c
    }

    /// Consume and return the next character, or nothing at end of input.
    pub fn bump(&mut self) -> (r: Option<char>)
        requires
            old(self).wf(),
        ensures
            final(self).wf(),
            final(self).text == old(self).text,
            final(self).line == old(self).line,
            final(self).col == old(self).col,
            old(self).remaining().len() == 0 ==> r is None && *final(self) == *old(self),
            old(self).remaining().len() > 0 ==> {
                &&& r == Some(old(self).remaining()[0])
                &&& final(self).pos == old(self).pos + 1
                &&& final(self).prev == old(self).remaining()[0]
                &&& final(self).remaining() == old(self).remaining().drop_first()
            },
    {
        if self.pos < self.text.len() {
            let c = self.text[self.pos];
            self.pos = self.pos + 1;
            self.prev = c;
            proof {
                assert(final(self).remaining() =~= old(self).remaining().drop_first());
            }
            Some(c)
        } else {
            None
        }
    }

    /// Whether the whole input has been consumed.
    pub fn is_eof(&self) -> (r: bool)
        requires
            self.wf(),
        ensures
            r == (self.remaining().len() == 0),
    {
        self.pos == self.text.len()
    }

    /// Peek the next character without consuming; `'\0'` at end of input.
    pub fn first(&self) -> (c: char)
        requires
            self.wf(),
        ensures
            c == first_or_nul(self.remaining()),
    {
        if self.pos < self.text.len() {
            self.text[self.pos]
        } else {
            '\0'
        }
    }

    /// Peek two characters ahead without consuming; `'\0'` past the end.
    pub fn second(&self) -> (c: char)
        requires
            self.wf(),
        ensures
            c == second_or_nul(self.remaining()),
    {
        if self.pos < self.text.len() && self.pos + 1 < self.text.len() {
            self.text[self.pos + 1]
        } else {
            '\0'
        }
    }

    /// Repeatedly consume characters while `pred` accepts the next one and
    /// the input is not exhausted.
    pub fn eat_while<F: Fn(char) -> bool>(&mut self, pred: F)
        requires
            old(self).wf(),
            forall|c: char| #[trigger] pred.requires((c,)),
        ensures
            final(self).wf(),
            final(self).text == old(self).text,
            final(self).line == old(self).line,
            final(self).col == old(self).col,
            old(self).pos <= final(self).pos,
            forall|i: int|
                old(self).pos <= i < final(self).pos ==> pred.ensures(
                    (old(self).text@[i],),
                    true,
                ),
            final(self).remaining().len() > 0 ==> pred.ensures(
                (final(self).text@[final(self).pos as int],),
                false,
            ),
            final(self).pos == old(self).pos ==> final(self).prev == old(self).prev,
            final(self).pos > old(self).pos ==> final(self).prev == old(self).text@[final(self).pos
                - 1],
    {
        loop
            invariant
                self.wf(),
                self.text == old(self).text,
                self.line == old(self).line,
                self.col == old(self).col,
                old(self).pos <= self.pos,
                forall|i: int|
                    old(self).pos <= i < self.pos ==> pred.ensures((old(self).text@[i],), true),
                self.pos == old(self).pos ==> self.prev == old(self).prev,
                self.pos > old(self).pos ==> self.prev == old(self).text@[self.pos - 1],
                forall|c: char| #[trigger] pred.requires((c,)),
            ensures
                self.wf(),
                self.text == old(self).text,
                self.line == old(self).line,
                self.col == old(self).col,
                old(self).pos <= self.pos,
                forall|i: int|
                    old(self).pos <= i < self.pos ==> pred.ensures((old(self).text@[i],), true),
                self.remaining().len() > 0 ==> pred.ensures(
                    (self.text@[self.pos as int],),
                    false,
                ),
                self.pos == old(self).pos ==> self.prev == old(self).prev,
                self.pos > old(self).pos ==> self.prev == old(self).text@[self.pos - 1],
            decreases self.text@.len() - self.pos,
        {
            let c = self.first();
            let keep = pred(c);
            if !keep {
                proof {
                    assert(pred.ensures((c,), false));
                    if self.remaining().len() > 0 {
                        assert(self.remaining()[0] == self.text@[self.pos as int]);
                        assert(c == self.text@[self.pos as int]);
                    }
                }
                break;
            }
            if self.is_eof() {
                break;
            }
            self.bump();
        }
    }
}

} // verus!
