//! Chunks: append-only bytecode buffers with a constant pool and a
//! run-length-encoded line index.
//!
//! The line index is a sequence indexed by line number; entry `i` holds how
//! many code bytes belong to line `i`. The index always accounts for every
//! byte of code: the counts sum to the code length. Looking a byte offset up
//! finds the smallest line whose cumulative count exceeds the offset.

use vstd::prelude::*;
use vstd::slice::slice_subrange;

use crate::opcode::{op_to_byte, opcode_byte, OpCode};
use crate::value::{Value, ValuePool};

verus! {

/// The sum of all counts in a line index.
pub open spec fn sum_counts(s: Seq<usize>) -> int
    decreases s.len(),
{
    if s.len() == 0 {
        0
    } else {
        s[0] + sum_counts(s.drop_first())
    }
}

/// The line that byte offset `o` belongs to under the counts `s`: the
/// smallest line whose cumulative count exceeds `o`.
pub open spec fn line_for_spec(s: Seq<usize>, o: int) -> int
    decreases s.len(),
{
    if s.len() == 0 {
        0
    } else if o < s[0] {
        0
    } else {
        1 + line_for_spec(s.drop_first(), o - s[0])
    }
}

/// The line index after one byte of line `line` is recorded: a fresh count
/// of one when `line` is the next line, zero-padding up to `line` when it
/// lies further out, and one more on its count otherwise.
pub open spec fn updated_lines(s: Seq<usize>, line: int) -> Seq<usize> {
    if line == s.len() {
        s.push(1)
    } else if line > s.len() {
        s + Seq::new((line - s.len()) as nat, |i: int| 0usize) + seq![1usize]
    } else {
        s.update(line, (s[line] + 1) as usize)
    }
}

/// A sum of counts is never negative.
pub proof fn lemma_sum_nonneg(s: Seq<usize>)
    ensures
        sum_counts(s) >= 0,
    decreases s.len(),
{
    if s.len() > 0 {
        lemma_sum_nonneg(s.drop_first());
    }
}

/// Every count is at most the sum of all counts.
pub proof fn lemma_count_le_sum(s: Seq<usize>, i: int)
    requires
        0 <= i < s.len(),
    ensures
        s[i] <= sum_counts(s),
    decreases s.len(),
{
    lemma_sum_nonneg(s.drop_first());
    if i > 0 {
        lemma_count_le_sum(s.drop_first(), i - 1);
    }
}

/// Appending a count adds it to the sum.
pub proof fn lemma_sum_push(s: Seq<usize>, x: usize)
    ensures
        sum_counts(s.push(x)) == sum_counts(s) + x,
    decreases s.len(),
{
    let p = s.push(x);
    assert(p.len() == s.len() + 1);
    if s.len() == 0 {
        assert(p[0] == x);
        assert(p.drop_first() =~= Seq::<usize>::empty());
        assert(sum_counts(p.drop_first()) == 0);
        assert(sum_counts(p) == p[0] + sum_counts(p.drop_first()));
    } else {
        assert(p[0] == s[0]);
        assert(p.drop_first() =~= s.drop_first().push(x));
        lemma_sum_push(s.drop_first(), x);
        assert(sum_counts(p) == p[0] + sum_counts(p.drop_first()));
    }
}

/// Replacing a count moves the sum by the difference.
pub proof fn lemma_sum_update(s: Seq<usize>, i: int, x: usize)
    requires
        0 <= i < s.len(),
    ensures
        sum_counts(s.update(i, x)) == sum_counts(s) - s[i] + x,
    decreases s.len(),
{
    if i == 0 {
        assert(s.update(i, x).drop_first() =~= s.drop_first());
    } else {
        assert(s.update(i, x).drop_first() =~= s.drop_first().update(i - 1, x));
        lemma_sum_update(s.drop_first(), i - 1, x);
    }
}

/// The line found for a byte offset never moves backward as the offset
/// grows.
pub proof fn lemma_line_for_monotonic(s: Seq<usize>, o1: int, o2: int)
    requires
        0 <= o1 <= o2,
    ensures
        line_for_spec(s, o1) <= line_for_spec(s, o2),
    decreases s.len(),
{
    if s.len() > 0 && o1 >= s[0] {
        lemma_line_for_monotonic(s.drop_first(), o1 - s[0], o2 - s[0]);
    } else if s.len() > 0 && o2 >= s[0] {
        lemma_line_for_nonneg(s.drop_first(), o2 - s[0]);
    }
}

/// A line lookup never returns a negative line.
pub proof fn lemma_line_for_nonneg(s: Seq<usize>, o: int)
    ensures
        line_for_spec(s, o) >= 0,
    decreases s.len(),
{
    if s.len() > 0 && o >= s[0] {
        lemma_line_for_nonneg(s.drop_first(), o - s[0]);
    }
}

/// An offset below the sum of counts is found within the index.
pub proof fn lemma_line_for_in_range(s: Seq<usize>, o: int)
    requires
        0 <= o < sum_counts(s),
    ensures
        line_for_spec(s, o) < s.len(),
    decreases s.len(),
{
    if s.len() > 0 && o >= s[0] {
        lemma_line_for_in_range(s.drop_first(), o - s[0]);
    }
}

/// A unit of compiled code: the byte buffer, its constant pool, and the line
/// index that maps each byte back to a source line.
pub struct Chunk {
    pub code: Vec<u8>,
    pub const_pool: ValuePool,
    pub line_code_index: Vec<usize>,
}

impl Chunk {
    /// The line index counts, for specification purposes.
    pub open spec fn lines(&self) -> Seq<usize> {
        self.line_code_index@
    }

    /// A chunk is well formed when its line index accounts for every code
    /// byte: the counts sum to the code length.
    pub open spec fn wf(&self) -> bool {
        sum_counts(self.lines()) == self.code@.len()
    }

    /// An empty chunk.
    pub fn new() -> (c: Self)
        ensures
            c.wf(),
            c.code@ == Seq::<u8>::empty(),
            c.const_pool.values@ == Seq::<Value>::empty(),
            c.lines() == Seq::<usize>::empty(),
    {
        Chunk { code: Vec::new(), const_pool: ValuePool::new(), line_code_index: Vec::new() }
    }

    /// Appends an opcode byte, recording its line.
    pub fn write_code(&mut self, code: OpCode, line: usize)
        requires
            old(self).wf(),
        ensures
            final(self).wf(),
            final(self).code@ == old(self).code@.push(opcode_byte(code)),
            final(self).const_pool.values@ == old(self).const_pool.values@,
            final(self).lines() == updated_lines(old(self).lines(), line as int),
    {
        let byte = op_to_byte(code);
        self.write_byte(byte, line);
    }

    /// Appends one byte, recording `line` against it in the line index.
    pub fn write_byte(&mut self, byte: u8, line: usize)
        requires
            old(self).wf(),
        ensures
            final(self).wf(),
            final(self).code@ == old(self).code@.push(byte),
            final(self).const_pool.values@ == old(self).const_pool.values@,
            final(self).lines() == updated_lines(old(self).lines(), line as int),
    {
        self.code.push(byte);

        if self.line_code_index.len() == line {
            self.line_code_index.push(1);
            proof {
                lemma_sum_push(old(self).lines(), 1);
            }
        } else if line > self.line_code_index.len() {
            let ghost base = self.line_code_index@;
            let start = self.line_code_index.len();
            let mut i = start;
            while i < line
                invariant
                    start <= i <= line,
                    self.line_code_index@ =~= base + Seq::new((i - start) as nat, |k: int| 0usize),
                    sum_counts(self.line_code_index@) == sum_counts(base),
                    self.code@ == old(self).code@.push(byte),
                    self.const_pool.values@ == old(self).const_pool.values@,
                decreases line - i,
            {
                proof {
                    lemma_sum_push(self.line_code_index@, 0);
                    assert(self.line_code_index@.push(0) =~= base + Seq::new(
                        (i + 1 - start) as nat,
                        |k: int| 0usize,
                    ));
                }
                self.line_code_index.push(0);
                i = i + 1;
            }
            proof {
                lemma_sum_push(self.line_code_index@, 1);
                assert(self.line_code_index@.push(1) =~= updated_lines(base, line as int));
            }
            self.line_code_index.push(1);
        } else {
            let n = self.code.len();
            let count = self.line_code_index[line];
            proof {
                lemma_count_le_sum(self.line_code_index@, line as int);
                assert(count < n);
                lemma_sum_update(self.line_code_index@, line as int, (count + 1) as usize);
            }
            self.line_code_index.set(line, count + 1);
        }
    }

    /// Appends a value to the constant pool and writes its index as an
    /// operand byte. An index beyond one byte wraps, as a cast to `u8` does.
    pub fn write_const(&mut self, value: Value)
        requires
            old(self).wf(),
        ensures
            final(self).wf(),
            final(self).const_pool.values@ == old(self).const_pool.values@.push(value),
            final(self).code@ == old(self).code@.push(
                (old(self).const_pool.values@.len() as usize) as u8,
            ),
            final(self).lines() == updated_lines(old(self).lines(), 0),
    {
        let i = self.add_const(value);
        self.write_byte(#[verifier::truncate] (i as u8), 0);
    }

    /// Appends a value to the constant pool and returns its zero-based
    /// index.
    pub fn add_const(&mut self, value: Value) -> (pos: usize)
        ensures
            final(self).const_pool.values@ == old(self).const_pool.values@.push(value),
            pos == old(self).const_pool.values@.len(),
            final(self).code@ == old(self).code@,
            final(self).lines() == old(self).lines(),
    {
        let pos = if self.const_pool.values.is_empty() {
            0
        } else {
            self.const_pool.values.len()
        };
        self.const_pool.values.push(value);
        pos
    }

    /// The code bytes from `start` through `last`, both included.
    pub fn get_byte_sequence(&self, start: usize, last: usize) -> (r: &[u8])
        requires
            start <= last < self.code@.len(),
        ensures
            r@ == self.code@.subrange(start as int, last + 1),
    {
        let n = self.code.len();
        slice_subrange(self.code.as_slice(), start, last + 1)
    }

    /// The source line of the code byte at `offset`: the smallest line whose
    /// cumulative byte count exceeds the offset.
    pub fn get_code_line(&self, offset: usize) -> (line: usize)
        requires
            self.wf(),
            offset < self.code@.len(),
        ensures
            line == line_for_spec(self.lines(), offset as int),
    {
        let ghost s = self.lines();
        let mut line: usize = 0;
        let mut remaining: usize = offset;
        proof {
            assert(s.skip(0) =~= s);
        }
        loop
            invariant
                self.wf(),
                line <= s.len(),
                s == self.lines(),
                remaining <= offset < self.code@.len(),
                remaining < sum_counts(s.skip(line as int)),
                line_for_spec(s, offset as int) == line + line_for_spec(
                    s.skip(line as int),
                    remaining as int,
                ),
            decreases s.len() - line,
        {
            proof {
                lemma_sum_nonneg(s.skip(line as int).drop_first());
                assert(s.skip(line as int).drop_first() =~= s.skip(line as int + 1));
            }
            let m = self.line_code_index.len();
            let count = self.line_code_index[line];
            assert(count == s.skip(line as int)[0]);
            if remaining < count {
                return line;
            }
            remaining = remaining - count;
            assert(line < m);
            line = line + 1;
        }
    }
}

/// Within one chunk, the source line reported for a byte offset never
/// decreases as the offset increases.
pub proof fn lemma_chunk_lines_monotonic(c: &Chunk, o1: int, o2: int)
    requires
        c.wf(),
        0 <= o1 <= o2,
    ensures
        line_for_spec(c.lines(), o1) <= line_for_spec(c.lines(), o2),
{
    lemma_line_for_monotonic(c.lines(), o1, o2);
}

} // verus!
