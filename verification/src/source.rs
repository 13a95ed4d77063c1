//! The scanner's cursor over the source text.
//!
//! A `SourceController` owns the source string and three positions: the
//! start of the token being read, the current read position (both counted in
//! characters), and the current line. The line advances by exactly one for
//! each newline the cursor moves over.

use vstd::prelude::*;

verus! {

/// The characters skipped between tokens: blank, carriage return, tab and
/// newline.
pub open spec fn is_space(c: char) -> bool {
    c == ' ' || c == '\r' || c == '\t' || c == '\n'
}

/// Where the scanner's whitespace skipping, started at `i` (inside a line
/// comment when `in_comment` holds), comes to rest: the first position at or
/// after `i` that starts a token, or the end of the text.
pub open spec fn boundary_from(s: Seq<char>, i: int, in_comment: bool) -> int
    decreases s.len() - i,
{
    if !(0 <= i < s.len()) {
        s.len() as int
    } else if in_comment {
        if s[i] == '\n' {
            boundary_from(s, i + 1, false)
        } else {
            boundary_from(s, i + 1, true)
        }
    } else if is_space(s[i]) {
        boundary_from(s, i + 1, false)
    } else if s[i] == '/' && i + 1 < s.len() && s[i + 1] == '/' {
        boundary_from(s, i + 2, true)
    } else {
        i
    }
}

/// The first token boundary at or after `i`: everything before it is spaces
/// and comment text.
pub open spec fn next_boundary(s: Seq<char>, i: int) -> int {
    boundary_from(s, i, false)
}

/// How many newline characters a piece of text holds.
pub open spec fn count_newlines(s: Seq<char>) -> int
    decreases s.len(),
{
    if s.len() == 0 {
        0
    } else {
        (if s[0] == '\n' {
            1int
        } else {
            0int
        }) + count_newlines(s.drop_first())
    }
}

/// Appending one character adds one to the newline count exactly when it is
/// a newline.
pub proof fn lemma_count_newlines_push(s: Seq<char>, c: char)
    ensures
        count_newlines(s.push(c)) == count_newlines(s) + (if c == '\n' {
            1int
        } else {
            0int
        }),
    decreases s.len(),
{
    let p = s.push(c);
    assert(p.len() == s.len() + 1);
    if s.len() == 0 {
        assert(p[0] == c);
        assert(p.drop_first() =~= Seq::<char>::empty());
        assert(count_newlines(p.drop_first()) == 0);
        assert(count_newlines(p) == (if p[0] == '\n' {
            1int
        } else {
            0int
        }) + count_newlines(p.drop_first()));
    } else {
        assert(p[0] == s[0]);
        assert(p.drop_first() =~= s.drop_first().push(c));
        lemma_count_newlines_push(s.drop_first(), c);
        assert(count_newlines(p) == (if p[0] == '\n' {
            1int
        } else {
            0int
        }) + count_newlines(p.drop_first()));
    }
}


/// Newline counts add over concatenation.
pub proof fn lemma_count_newlines_add(x: Seq<char>, y: Seq<char>)
    ensures
        count_newlines(x + y) == count_newlines(x) + count_newlines(y),
    decreases x.len(),
{
    if x.len() == 0 {
        assert(x + y =~= y);
    } else {
        assert((x + y)[0] == x[0]);
        assert((x + y).drop_first() =~= x.drop_first() + y);
        lemma_count_newlines_add(x.drop_first(), y);
    }
}

/// Splitting a slice splits its newline count.
pub proof fn lemma_count_newlines_split(s: Seq<char>, a: int, b: int, c: int)
    requires
        0 <= a <= b <= c <= s.len(),
    ensures
        count_newlines(s.subrange(a, c)) == count_newlines(s.subrange(a, b)) + count_newlines(
            s.subrange(b, c),
        ),
{
    assert(s.subrange(a, c) =~= s.subrange(a, b) + s.subrange(b, c));
    lemma_count_newlines_add(s.subrange(a, b), s.subrange(b, c));
}

/// Text without a newline counts none.
pub proof fn lemma_count_newlines_none(s: Seq<char>)
    requires
        forall|i: int| 0 <= i < s.len() ==> s[i] != '\n',
    ensures
        count_newlines(s) == 0,
    decreases s.len(),
{
    if s.len() > 0 {
        lemma_count_newlines_none(s.drop_first());
    }
}

/// Extending a slice by newline-free text leaves its newline count alone.
pub proof fn lemma_line_total(s: Seq<char>, a: int, b: int, c: int)
    requires
        0 <= a <= b <= c <= s.len(),
        forall|i: int| b <= i < c ==> s[i] != '\n',
    ensures
        count_newlines(s.subrange(a, c)) == count_newlines(s.subrange(a, b)),
{
    lemma_count_newlines_split(s, a, b, c);
    assert forall|i: int| 0 <= i < s.subrange(b, c).len() implies s.subrange(b, c)[i] != '\n' by {
        assert(s.subrange(b, c)[i] == s[b + i]);
    }
    lemma_count_newlines_none(s.subrange(b, c));
}

/// The cursor over the source text.
pub struct SourceController {
    pub source: String,
    pub start: usize,
    pub current: usize,
    pub line: usize,
}

impl SourceController {
    /// The positions stay inside the text, the token start never passes the
    /// cursor, and the line stays within one of the characters passed. The
    /// text is shorter than the address space, so positions and line numbers
    /// cannot wrap.
    pub open spec fn wf(&self) -> bool {
        &&& self.start <= self.current <= self.source@.len()
        &&& self.source@.len() < usize::MAX
        &&& 1 <= self.line <= self.current + 1
    }

    /// Whether the cursor stands past the last character.
    pub open spec fn at_end(&self) -> bool {
        self.current >= self.source@.len()
    }

    /// The character under the cursor, or the NUL character at the end.
    pub open spec fn peek(&self) -> char {
        if self.at_end() {
            '\0'
        } else {
            self.source@[self.current as int]
        }
    }

    /// The character after the cursor, or the NUL character where none is.
    pub open spec fn peek_next(&self) -> char {
        if self.current + 1 >= self.source@.len() {
            '\0'
        } else {
            self.source@[self.current + 1]
        }
    }

    /// Whether the cursor stands at a token boundary: at the end, or on a
    /// character that neither is skippable space nor opens a line comment.
    pub open spec fn at_boundary(&self) -> bool {
        self.at_end() || (!is_space(self.peek()) && !(self.peek() == '/' && self.peek_next()
            == '/'))
    }

    /// A fresh cursor at the head of `source`, on line one.
    pub fn new(source: &str) -> (s: Self)
        requires
            source@.len() < usize::MAX,
        ensures
            s.wf(),
            s.source@ == source@,
            s.start == 0,
            s.current == 0,
            s.line == 1,
    {
        SourceController { source: source.to_owned(), start: 0, current: 0, line: 1 }
    }

    /// Marks the cursor position as the start of the next token.
    pub fn set_start_to_next_token(&mut self)
        requires
            old(self).wf(),
        ensures
            final(self).wf(),
            final(self).source == old(self).source,
            final(self).current == old(self).current,
            final(self).line == old(self).line,
            final(self).start == old(self).current,
    {
        self.start = self.current;
    }

    /// The character under the cursor, or NUL at the end.
    pub fn query_current(&self) -> (c: char)
        requires
            self.wf(),
        ensures
            c == self.peek(),
    {
        if self.is_eof() {
            return '\0';
        }
        self.query(self.current)
    }

    /// The character just consumed.
    pub fn query_previous(&self) -> (c: char)
        requires
            self.wf(),
            self.current >= 1,
        ensures
            c == self.source@[self.current - 1],
    {
        self.query(self.current - 1)
    }

    /// The character after the cursor, or NUL where none is.
    pub fn query_next(&self) -> (c: char)
        requires
            self.wf(),
        ensures
            c == self.peek_next(),
    {
        if self.current + 1 >= self.source.as_str().unicode_len() {
            return '\0';
        }
        self.query(self.current + 1)
    }

    /// The character at position `n`.
    fn query(&self, n: usize) -> (c: char)
        requires
            n < self.source@.len(),
        ensures
            c == self.source@[n as int],
    {
        self.source.as_str().get_char(n)
    }

    /// Moves the cursor past spaces, tabs, carriage returns, newlines and
    /// `//` line comments, counting the newlines passed, and stops at the
    /// next token boundary.
    pub fn skip_whitespaces(&mut self)
        requires
            old(self).wf(),
        ensures
            final(self).wf(),
            final(self).source == old(self).source,
            final(self).start == old(self).start,
            final(self).current >= old(self).current,
            final(self).line == old(self).line + count_newlines(
                old(self).source@.subrange(old(self).current as int, final(self).current as int),
            ),
            final(self).at_boundary(),
            final(self).current == next_boundary(old(self).source@, old(self).current as int),
    {
        let ghost from = self.current as int;
        proof {
            assert(self.source@.subrange(from, from) =~= Seq::<char>::empty());
        }
        loop
            invariant
                self.wf(),
                self.source == old(self).source,
                self.start == old(self).start,
                self.current >= old(self).current,
                from == old(self).current as int,
                self.line == old(self).line + count_newlines(
                    self.source@.subrange(from, self.current as int),
                ),
                next_boundary(self.source@, from) == boundary_from(
                    self.source@,
                    self.current as int,
                    false,
                ),
            decreases self.source@.len() - self.current,
        {
            let ghost iter_cur = self.current;
            let c = self.query_current();

            if c == ' ' || c == '\r' || c == '\t' {
                proof {
                    self.lemma_step(from);
                }
                self.advance();
            } else if c == '\n' {
                proof {
                    self.lemma_step(from);
                }
                self.advance();
                self.line = self.line + 1;
            } else if c == '/' && self.query_next() == '/' {
                proof {
                    self.lemma_step(from);
                }
                self.advance();
                while !self.is_eof() && !self.is_newline()
                    invariant
                        self.wf(),
                        self.source == old(self).source,
                        self.start == old(self).start,
                        self.current >= old(self).current,
                        self.current > iter_cur,
                        from == old(self).current as int,
                        self.line == old(self).line + count_newlines(
                            self.source@.subrange(from, self.current as int),
                        ),
                        next_boundary(self.source@, from) == boundary_from(
                            self.source@,
                            self.current as int,
                            true,
                        ),
                    decreases self.source@.len() - self.current,
                {
                    proof {
                        self.lemma_step(from);
                    }
                    self.advance();
                }
                proof {
                    assert(boundary_from(self.source@, self.current as int, true)
                        == boundary_from(self.source@, self.current as int, false));
                }
            } else {
                return ;
            }
        }
    }

    /// Relates the newline count before and after one step of the cursor.
    pub proof fn lemma_step(&self, from: int)
        requires
            self.wf(),
            0 <= from <= self.current,
            !self.at_end(),
        ensures
            count_newlines(self.source@.subrange(from, self.current + 1)) == count_newlines(
                self.source@.subrange(from, self.current as int),
            ) + (if self.peek() == '\n' {
                1int
            } else {
                0int
            }),
    {
        assert(self.source@.subrange(from, self.current + 1) =~= self.source@.subrange(
            from,
            self.current as int,
        ).push(self.source@[self.current as int]));
        lemma_count_newlines_push(
            self.source@.subrange(from, self.current as int),
            self.source@[self.current as int],
        );
    }

    /// Returns the character under the cursor and moves past it. Past the
    /// last character there is nothing to consume: the cursor must not stand
    /// at the end.
    pub fn advance(&mut self) -> (c: char)
        requires
            old(self).wf(),
            !old(self).at_end(),
        ensures
            final(self).wf(),
            final(self).source == old(self).source,
            final(self).start == old(self).start,
            final(self).line == old(self).line,
            c == old(self).peek(),
            final(self).current == old(self).current + 1,
    {
        let current = self.query_current();
        self.current = self.current + 1;
        current
    }

    /// Consumes the character under the cursor when it equals `expected`.
    pub fn advance_match(&mut self, expected: char) -> (r: bool)
        requires
            old(self).wf(),
        ensures
            final(self).wf(),
            final(self).source == old(self).source,
            final(self).start == old(self).start,
            final(self).line == old(self).line,
            r == (!old(self).at_end() && old(self).peek() == expected),
            r ==> final(self).current == old(self).current + 1,
            !r ==> final(self).current == old(self).current,
    {
        if self.is_eof() {
            return false;
        }
        if self.query_current() != expected {
            return false;
        }
        self.current = self.current + 1;
        true
    }

    /// A copy of the text from the token start up to the cursor.
    pub fn extract_from_start(&self) -> (r: String)
        requires
            self.wf(),
        ensures
            r@ == self.source@.subrange(self.start as int, self.current as int),
    {
        self.extract_as_string(self.start, self.current)
    }

    /// A copy of the text between the two character positions.
    pub fn extract_as_string(&self, start: usize, end: usize) -> (r: String)
        requires
            start <= end <= self.source@.len(),
        ensures
            r@ == self.source@.subrange(start as int, end as int),
    {
        self.source.as_str().substring_char(start, end).to_owned()
    }

    /// Whether the cursor stands past the last character.
    pub fn is_eof(&self) -> (r: bool)
        requires
            self.wf(),
        ensures
            r == self.at_end(),
    {
        self.current >= self.source.as_str().unicode_len()
    }

    /// Whether the cursor stands on `enclosing` or at the end.
    pub fn is_closed(&self, enclosing: char) -> (r: bool)
        requires
            self.wf(),
        ensures
            r == (self.peek() == enclosing || self.at_end()),
    {
        self.query_current() == enclosing || self.is_eof()
    }

    /// Whether the cursor stands on a newline.
    pub fn is_newline(&self) -> (r: bool)
        requires
            self.wf(),
        ensures
            r == (self.peek() == '\n'),
    {
        self.query_current() == '\n'
    }
}

} // verus!
