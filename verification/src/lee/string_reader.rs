//! A character reader over a borrowed string, tracking line and column.

use vstd::prelude::*;

verus! {

/// Number of line feeds among the first `i` characters.
pub open spec fn spec_newlines(s: Seq<char>, i: int) -> int
    decreases i,
{
    if i <= 0 {
        0
    } else {
        spec_newlines(s, i - 1) + (if s[i - 1] == '\n' {
            1int
        } else {
            0int
        })
    }
}

/// The one-based line of the character at position `i`.
pub open spec fn spec_line(s: Seq<char>, i: int) -> int {
    1 + spec_newlines(s, i)
}

/// The one-based column of the character at position `i`: one past the
/// last line feed before it.
pub open spec fn spec_col(s: Seq<char>, i: int) -> int
    decreases i,
{
    if i <= 0 {
        1
    } else if s[i - 1] == '\n' {
        1
    } else {
        spec_col(s, i - 1) + 1
    }
}

/// A counter held at the type limit once it reaches it; only texts with
/// absurdly many lines or columns ever saturate.
pub open spec fn spec_sat_pos(v: int) -> int {
    if v > usize::MAX {
        usize::MAX as int
    } else {
        v
    }
}

proof fn lemma_line_col_positive(s: Seq<char>, i: int)
    ensures
        spec_newlines(s, i) >= 0,
        spec_line(s, i) >= 1,
        spec_col(s, i) >= 1,
    decreases i,
{
    if i > 0 {
        lemma_line_col_positive(s, i - 1);
    }
}

/// Reads a string character by character, with one-character lookahead and
/// a (line, column) position, both starting at one.
#[derive(Debug)]
pub struct StringReader<'a> {
    src: &'a str,
    idx: usize,
    len: usize,
    line: usize,
    pos: usize,
}

impl<'a> StringReader<'a> {
    /// Well-formedness: the cursor stays within the text, and the stored
    /// position is the line and column of the cursor.
    pub closed spec fn inv(self) -> bool {
        &&& self.idx <= self.len
        &&& self.len == self.src@.len()
        &&& self.line as int == spec_sat_pos(spec_line(self.src@, self.idx as int))
        &&& self.pos as int == spec_sat_pos(spec_col(self.src@, self.idx as int))
    }

    /// The text being read.
    pub closed spec fn text(self) -> Seq<char> {
        self.src@
    }

    /// The cursor: how many characters have been consumed.
    pub closed spec fn cursor(self) -> int {
        self.idx as int
    }

    /// The current character, if any.
    pub open spec fn spec_peek(self) -> Option<char> {
        if self.cursor() < self.text().len() {
            Some(self.text()[self.cursor()])
        } else {
            None
        }
    }

    /// The cursor never passes the end of the text.
    pub proof fn lemma_in_range(self)
        requires
            self.inv(),
        ensures
            0 <= self.cursor() <= self.text().len(),
    {
    }

    /// Start reading at the beginning of a string.
    pub fn new(src: &'a str) -> (r: StringReader<'a>)
        ensures
            r.inv(),
            r.text() == src@,
            r.cursor() == 0,
    {
        let len: usize = src.unicode_len();
        StringReader { src, idx: 0, len, line: 1, pos: 1 }
    }

    /// The current character without consuming it.
    pub fn peek(&self) -> (r: Option<char>)
        requires
            self.inv(),
        ensures
            r == self.spec_peek(),
    {
        if self.idx < self.len {
            Some(self.src.get_char(self.idx))
        } else {
            None
        }
    }

    /// The current character, consuming it.
    pub fn next(&mut self) -> (r: Option<char>)
        requires
            old(self).inv(),
        ensures
            final(self).inv(),
            r == old(self).spec_peek(),
            final(self).text() == old(self).text(),
            final(self).cursor() == if old(self).cursor() < old(self).text().len() {
                old(self).cursor() + 1
            } else {
                old(self).cursor()
            },
    {
        let res = self.peek();
        self.advance();
        res
    }

    /// Consume the current character, if any; a line feed moves the
    /// position to the start of the next line.
    pub fn advance(&mut self)
        requires
            old(self).inv(),
        ensures
            final(self).inv(),
            final(self).text() == old(self).text(),
            final(self).cursor() == if old(self).cursor() < old(self).text().len() {
                old(self).cursor() + 1
            } else {
                old(self).cursor()
            },
    {
        if self.idx < self.len {
            let sym = self.src.get_char(self.idx);
            if sym == '\n' {
                if self.line < usize::MAX {
                    self.line = self.line + 1;
                }
                self.pos = 1;
            } else {
                if self.pos < usize::MAX {
                    self.pos = self.pos + 1;
                }
            }
            self.idx = self.idx + 1;
        }
    }

    /// The (line, column) position of the current character, both starting
    /// at one: a line feed moves to the start of the next line.
    pub fn position(&self) -> (r: (usize, usize))
        requires
            self.inv(),
        ensures
            r.0 as int == spec_sat_pos(spec_line(self.text(), self.cursor())),
            r.1 as int == spec_sat_pos(spec_col(self.text(), self.cursor())),
            r.0 >= 1 && r.1 >= 1,
    {
        proof {
            lemma_line_col_positive(self.src@, self.idx as int);
        }
        (self.line, self.pos)
    }
}

} // verus!
