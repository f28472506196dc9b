//! A compiled unit: the bytecode array, the constant pool, and the
//! run-length-encoded line table.
//!
//! The line table maps every code offset to the source line it came from.
//! Its invariant: the run lengths sum to the length of the code array, every
//! run is non-empty, and no two adjacent runs name the same line.

use vstd::prelude::*;
use crate::common::{opcode_byte, opcode_of_byte, OpCode};
use crate::value::Value;

verus! {

/// One run of the line table: `count` consecutive code bytes attributed to
/// source line `line_num`.
#[derive(Copy, Clone, Debug, PartialEq, Eq, Structural)]
pub struct Line {
    pub line_num: usize,
    pub count: usize,
}


/// Depth simulation of a straight-line code segment `[from, to)`: starting
/// from stack depth `d`, the depth after the segment, or nothing when some
/// instruction would underflow, a constant operand is missing or out of
/// range, a byte decodes to no instruction, or a return interrupts the
/// segment.
pub open spec fn exec_ok(code: Seq<u8>, consts_len: int, from: int, to: int, d: int) -> Option<
    int,
>
    decreases to - from,
{
    if from >= to {
        if from == to {
            Some(d)
        } else {
            None
        }
    } else {
        match opcode_of_byte(code[from]) {
            None => None,
            Some(op) => match op {
                OpCode::OpReturn => None,
                OpCode::OpConstant => if from + 1 < to && code[from + 1] < consts_len {
                    exec_ok(code, consts_len, from + 2, to, d + 1)
                } else {
                    None
                },
                OpCode::OpNil => exec_ok(code, consts_len, from + 1, to, d + 1),
                OpCode::OpTrue => exec_ok(code, consts_len, from + 1, to, d + 1),
                OpCode::OpFalse => exec_ok(code, consts_len, from + 1, to, d + 1),
                OpCode::OpNegate => if d >= 1 {
                    exec_ok(code, consts_len, from + 1, to, d)
                } else {
                    None
                },
                OpCode::OpNot => if d >= 1 {
                    exec_ok(code, consts_len, from + 1, to, d)
                } else {
                    None
                },
                _ => if d >= 2 {
                    exec_ok(code, consts_len, from + 1, to, d - 1)
                } else {
                    None
                },
            },
        }
    }
}

/// A code segment that computes one value: from any depth, it ends one
/// deeper and never underflows.
pub open spec fn seg_plus_one(code: Seq<u8>, consts_len: int, from: int, to: int) -> bool {
    forall|d: int| d >= 0 ==> exec_ok(code, consts_len, from, to, d) == Some(d + 1)
}

/// A code segment that folds an operator over its operand: from any
/// positive depth, it ends at the same depth and never underflows.
pub open spec fn seg_same(code: Seq<u8>, consts_len: int, from: int, to: int) -> bool {
    forall|d: int| d >= 1 ==> exec_ok(code, consts_len, from, to, d) == Some(d)
}

/// Well-formed bytecode for one expression: a balanced body that leaves
/// exactly one value, closed by the return instruction.
pub open spec fn chunk_balanced(code: Seq<u8>, consts_len: int) -> bool {
    &&& code.len() >= 1
    &&& code.last() == opcode_byte(OpCode::OpReturn)
    &&& exec_ok(code, consts_len, 0, code.len() - 1, 0) == Some(1int)
}

/// Depth simulations of adjacent segments compose.
pub proof fn lemma_exec_ok_compose(
    code: Seq<u8>,
    consts_len: int,
    a: int,
    b: int,
    c: int,
    d: int,
    x: int,
    y: int,
)
    requires
        a <= b <= c,
        exec_ok(code, consts_len, a, b, d) == Some(x),
        exec_ok(code, consts_len, b, c, x) == Some(y),
    ensures
        exec_ok(code, consts_len, a, c, d) == Some(y),
    decreases b - a,
{
    if a == b {
    } else {
        match opcode_of_byte(code[a]) {
            None => {}
            Some(op) => match op {
                OpCode::OpConstant => {
                    lemma_exec_ok_compose(code, consts_len, a + 2, b, c, d + 1, x, y);
                }
                OpCode::OpNil | OpCode::OpTrue | OpCode::OpFalse => {
                    lemma_exec_ok_compose(code, consts_len, a + 1, b, c, d + 1, x, y);
                }
                OpCode::OpNegate | OpCode::OpNot => {
                    lemma_exec_ok_compose(code, consts_len, a + 1, b, c, d, x, y);
                }
                OpCode::OpReturn => {}
                _ => {
                    lemma_exec_ok_compose(code, consts_len, a + 1, b, c, d - 1, x, y);
                }
            },
        }
    }
}

/// A segment's depth simulation only reads the segment's own bytes and
/// stays valid when the code is extended and the constant pool grows.
pub proof fn lemma_exec_ok_frame(
    code1: Seq<u8>,
    code2: Seq<u8>,
    cl1: int,
    cl2: int,
    a: int,
    b: int,
    d: int,
)
    requires
        0 <= a,
        b <= code1.len(),
        b <= code2.len(),
        cl1 <= cl2,
        forall|i: int| a <= i < b ==> code1[i] == code2[i],
        exec_ok(code1, cl1, a, b, d) is Some,
    ensures
        exec_ok(code2, cl2, a, b, d) == exec_ok(code1, cl1, a, b, d),
    decreases b - a,
{
    if a >= b {
    } else {
        match opcode_of_byte(code1[a]) {
            None => {}
            Some(op) => match op {
                OpCode::OpConstant => {
                    lemma_exec_ok_frame(code1, code2, cl1, cl2, a + 2, b, d + 1);
                }
                OpCode::OpNil | OpCode::OpTrue | OpCode::OpFalse => {
                    lemma_exec_ok_frame(code1, code2, cl1, cl2, a + 1, b, d + 1);
                }
                OpCode::OpNegate | OpCode::OpNot => {
                    lemma_exec_ok_frame(code1, code2, cl1, cl2, a + 1, b, d);
                }
                OpCode::OpReturn => {}
                _ => {
                    lemma_exec_ok_frame(code1, code2, cl1, cl2, a + 1, b, d - 1);
                }
            },
        }
    }
}

/// The sum of the run lengths of a line table.
pub open spec fn run_total(lines: Seq<Line>) -> int
    decreases lines.len(),
{
    if lines.len() == 0 {
        0
    } else {
        lines[0].count + run_total(lines.drop_first())
    }
}

/// The line attributed to a code offset: the line of the run whose
/// cumulative length covers the offset.
pub open spec fn line_at(lines: Seq<Line>, offset: int) -> usize
    decreases lines.len(),
{
    if lines.len() == 0 {
        0
    } else if offset < lines[0].count {
        lines[0].line_num
    } else {
        line_at(lines.drop_first(), offset - lines[0].count)
    }
}

/// Structural soundness of a line table: non-empty runs, and adjacent runs
/// on distinct lines.
pub open spec fn lines_wf(lines: Seq<Line>) -> bool {
    &&& forall|i: int| 0 <= i < lines.len() ==> (#[trigger] lines[i]).count >= 1
    &&& forall|i: int| 0 <= i && i + 1 < lines.len() ==> lines[i].line_num != (#[trigger] lines[
        i + 1]).line_num
}

/// The mathematical content of a chunk.
pub ghost struct ChunkView {
    pub code: Seq<u8>,
    pub constants: Seq<Value>,
    pub lines: Seq<Line>,
}

/// Append-only builder for bytecode: code bytes, a constant pool indexed by
/// a single byte, and the line table.
pub struct Chunk {
    code: Vec<u8>,
    constants: Vec<Value>,
    lines: Vec<Line>,
}

proof fn lemma_run_total_push(lines: Seq<Line>, x: Line)
    ensures
        run_total(lines.push(x)) == run_total(lines) + x.count,
    decreases lines.len(),
{
    reveal_with_fuel(run_total, 2);
    if lines.len() == 0 {
        assert(lines.push(x).drop_first() =~= Seq::<Line>::empty());
    } else {
        assert(lines.push(x).drop_first() =~= lines.drop_first().push(x));
        lemma_run_total_push(lines.drop_first(), x);
    }
}

proof fn lemma_line_at_push(lines: Seq<Line>, x: Line, offset: int)
    requires
        0 <= offset < run_total(lines),
    ensures
        line_at(lines.push(x), offset) == line_at(lines, offset),
    decreases lines.len(),
{
    if lines.len() > 0 {
        if offset < lines[0].count {
        } else {
            assert(lines.push(x).drop_first() =~= lines.drop_first().push(x));
            lemma_line_at_push(lines.drop_first(), x, offset - lines[0].count);
        }
    }
}

proof fn lemma_line_at_push_end(lines: Seq<Line>, x: Line, offset: int)
    requires
        run_total(lines) <= offset < run_total(lines) + x.count,
        forall|i: int| 0 <= i < lines.len() ==> (#[trigger] lines[i]).count >= 1,
    ensures
        line_at(lines.push(x), offset) == x.line_num,
    decreases lines.len(),
{
    reveal_with_fuel(run_total, 2);
    reveal_with_fuel(line_at, 2);
    if lines.len() == 0 {
        assert(lines.push(x)[0] == x);
    } else {
        lemma_run_total_nonneg(lines.drop_first());
        assert(offset >= lines[0].count);
        assert(lines.push(x).drop_first() =~= lines.drop_first().push(x));
        lemma_line_at_push_end(lines.drop_first(), x, offset - lines[0].count);
    }
}

proof fn lemma_update_last(lines: Seq<Line>, x: Line)
    requires
        lines.len() >= 1,
        x.line_num == lines.last().line_num,
        x.count == lines.last().count + 1,
    ensures
        run_total(lines.update(lines.len() - 1, x)) == run_total(lines) + 1,
        forall|k: int|
            0 <= k < run_total(lines) ==> line_at(
                lines.update(lines.len() - 1, x),
                k,
            ) == line_at(lines, k),
        line_at(lines.update(lines.len() - 1, x), run_total(lines)) == x.line_num,
    decreases lines.len(),
{
    reveal_with_fuel(run_total, 2);
    reveal_with_fuel(line_at, 2);
    let upd = lines.update(lines.len() - 1, x);
    lemma_run_total_nonneg(lines.drop_first());
    if lines.len() == 1 {
        assert(upd.drop_first() =~= Seq::<Line>::empty());
        assert(lines.drop_first() =~= Seq::<Line>::empty());
        assert(upd[0] == x);
    } else {
        let dl = lines.drop_first();
        assert(upd.drop_first() =~= dl.update(dl.len() - 1, x));
        lemma_update_last(dl, x);
        assert(upd[0] == lines[0]);
        assert(run_total(upd) == run_total(lines) + 1);
        assert forall|k: int| 0 <= k < run_total(lines) implies line_at(upd, k) == line_at(
            lines,
            k,
        ) by {
            if k >= lines[0].count {
                assert(line_at(upd, k) == line_at(upd.drop_first(), k - lines[0].count));
                assert(line_at(lines, k) == line_at(dl, k - lines[0].count));
            }
        }
        assert(line_at(upd, run_total(lines)) == x.line_num) by {
            assert(run_total(lines) >= lines[0].count);
            assert(line_at(upd, run_total(lines)) == line_at(
                upd.drop_first(),
                run_total(lines) - lines[0].count,
            ));
        }
    }
}

/// Run totals are never negative.
proof fn lemma_run_total_nonneg(lines: Seq<Line>)
    ensures
        run_total(lines) >= 0,
    decreases lines.len(),
{
    if lines.len() > 0 {
        lemma_run_total_nonneg(lines.drop_first());
    }
}

/// The last run's length never exceeds the run total.
proof fn lemma_last_count_le_total(lines: Seq<Line>)
    requires
        lines.len() >= 1,
    ensures
        lines.last().count <= run_total(lines),
    decreases lines.len(),
{
    reveal_with_fuel(run_total, 2);
    if lines.len() == 1 {
    } else {
        lemma_run_total_nonneg(lines.drop_first());
        lemma_last_count_le_total(lines.drop_first());
    }
}

impl View for Chunk {
    type V = ChunkView;

    closed spec fn view(&self) -> ChunkView {
        ChunkView { code: self.code@, constants: self.constants@, lines: self.lines@ }
    }
}

impl Chunk {
    /// The chunk's invariant: a sound line table whose runs cover the code
    /// array exactly.
    pub open spec fn wf(&self) -> bool {
        &&& lines_wf(self@.lines)
        &&& run_total(self@.lines) == self@.code.len()
    }

    /// An empty chunk.
    pub fn new() -> (r: Chunk)
        ensures
            r.wf(),
            r@.code =~= Seq::<u8>::empty(),
            r@.constants =~= Seq::<Value>::empty(),
            r@.lines =~= Seq::<Line>::empty(),
    {
        Chunk { code: Vec::new(), constants: Vec::new(), lines: Vec::new() }
    }

    /// Extends the line table by one byte's worth of coverage for `line`.
    fn set_line(&mut self, line: usize)
        requires
            lines_wf(old(self)@.lines),
            old(self)@.code.len() >= 1,
            run_total(old(self)@.lines) == old(self)@.code.len() - 1,
        ensures
            final(self).wf(),
            final(self)@.code == old(self)@.code,
            final(self)@.constants == old(self)@.constants,
            forall|k: int|
                0 <= k < old(self)@.code.len() - 1 ==> line_at(final(self)@.lines, k) == line_at(
                    old(self)@.lines,
                    k,
                ),
            line_at(final(self)@.lines, old(self)@.code.len() - 1) == line,
    {
        let code_len = self.code.len();
        let n = self.lines.len();
        if n > 0 {
            let last = self.lines[n - 1];
            if last.line_num == line {
                proof {
                    lemma_last_count_le_total(self@.lines);
                    assert(last.count < code_len);
                }
                let x = Line { line_num: last.line_num, count: last.count + 1 };
                self.lines.set(n - 1, x);
                proof {
                    lemma_update_last(old(self)@.lines, x);
                }
            } else {
                let x = Line { line_num: line, count: 1 };
                self.lines.push(x);
                proof {
                    lemma_run_total_push(old(self)@.lines, x);
                    lemma_run_total_nonneg(old(self)@.lines);
                    assert forall|k: int| 0 <= k < old(self)@.code.len() - 1 implies line_at(
                        self@.lines,
                        k,
                    ) == line_at(old(self)@.lines, k) by {
                        lemma_line_at_push(old(self)@.lines, x, k);
                    }
                    lemma_line_at_push_end(old(self)@.lines, x, old(self)@.code.len() - 1);
                }
            }
        } else {
            let x = Line { line_num: line, count: 1 };
            self.lines.push(x);
            proof {
                lemma_run_total_push(old(self)@.lines, x);
                lemma_line_at_push_end(old(self)@.lines, x, 0);
            }
        }
    }

    /// Appends one byte of code, attributed to `line`.
    pub fn write(&mut self, byte: u8, line: usize)
        requires
            old(self).wf(),
        ensures
            final(self).wf(),
            final(self)@.code == old(self)@.code.push(byte),
            final(self)@.constants == old(self)@.constants,
            forall|k: int|
                0 <= k < old(self)@.code.len() ==> line_at(final(self)@.lines, k) == line_at(
                    old(self)@.lines,
                    k,
                ),
            line_at(final(self)@.lines, old(self)@.code.len() as int) == line,
    {
        self.code.push(byte);
        self.set_line(line);
    }

    /// Appends a 16-bit operand, low byte first, under a single line record.
    pub fn write_long(&mut self, num: u16, line: usize)
        requires
            old(self).wf(),
        ensures
            final(self).wf(),
            final(self)@.code == old(self)@.code.push((num & 0xff) as u8).push((num >> 8) as u8),
            final(self)@.constants == old(self)@.constants,
            forall|k: int|
                0 <= k < old(self)@.code.len() ==> line_at(final(self)@.lines, k) == line_at(
                    old(self)@.lines,
                    k,
                ),
            line_at(final(self)@.lines, old(self)@.code.len() as int) == line,
            line_at(final(self)@.lines, old(self)@.code.len() as int + 1) == line,
    {
        let lower = num & 0x00ff;
        let higher = num >> 8;
        self.write(lower as u8, line);
        self.write(higher as u8, line);
    }

    /// Appends a value to the constant pool and returns its index. The pool
    /// is capped at 256 entries so an index always fits the one operand byte.
    pub fn add_constant(&mut self, value: Value) -> (r: u8)
        requires
            old(self)@.constants.len() < 256,
        ensures
            final(self)@.constants == old(self)@.constants.push(value),
            final(self)@.code == old(self)@.code,
            final(self)@.lines == old(self)@.lines,
            r == old(self)@.constants.len(),
            final(self).wf() == old(self).wf(),
    {
        let r = self.constants.len();
        self.constants.push(value);
        r as u8
    }

    /// The constant at a pool index.
    pub fn get_constant(&self, ind: u8) -> (r: Value)
        requires
            ind < self@.constants.len(),
        ensures
            r == self@.constants[ind as int],
    {
        self.constants[ind as usize]
    }

    /// The source line attributed to a code offset.
    pub fn get_line(&self, offset: usize) -> (r: usize)
        requires
            self.wf(),
            offset < self@.code.len(),
        ensures
            r == line_at(self@.lines, offset as int),
    {
        let ghost all = self@.lines;
        let n = self.lines.len();
        let mut i: usize = 0;
        let mut off: usize = offset;
        proof {
            assert(all.subrange(0, all.len() as int) =~= all);
        }
        loop
            invariant
                self.wf(),
                i <= n,
                n == self@.lines.len(),
                all == self@.lines,
                line_at(all, offset as int) == line_at(
                    all.subrange(i as int, all.len() as int),
                    off as int,
                ),
                off < run_total(all.subrange(i as int, all.len() as int)),
            decreases self@.lines.len() - i,
        {
            proof {
                if i == all.len() {
                    assert(all.subrange(i as int, all.len() as int) =~= Seq::<Line>::empty());
                }
            }
            let entry = self.lines[i];
            if off < entry.count {
                return entry.line_num;
            }
            proof {
                assert(all.subrange(i as int, all.len() as int).drop_first() =~= all.subrange(
                    i as int + 1,
                    all.len() as int,
                ));
            }
            off = off - entry.count;
            i = i + 1;
        }
    }

    /// Releases the chunk's storage, leaving it empty.
    pub fn free(&mut self)
        ensures
            final(self).wf(),
            final(self)@.code =~= Seq::<u8>::empty(),
            final(self)@.constants =~= Seq::<Value>::empty(),
            final(self)@.lines =~= Seq::<Line>::empty(),
    {
        self.code = Vec::new();
        self.constants = Vec::new();
        self.lines = Vec::new();
    }

    /// The number of code bytes.
    pub fn code_size(&self) -> (r: usize)
        ensures
            r == self@.code.len(),
    {
        self.code.len()
    }

    /// The code byte at an offset.
    pub fn code_byte(&self, offset: usize) -> (r: u8)
        requires
            offset < self@.code.len(),
        ensures
            r == self@.code[offset as int],
    {
        self.code[offset]
    }

    /// The number of constants in the pool.
    pub fn constants_size(&self) -> (r: usize)
        ensures
            r == self@.constants.len(),
    {
        self.constants.len()
    }

    /// The number of runs in the line table.
    pub fn lines_size(&self) -> (r: usize)
        ensures
            r == self@.lines.len(),
    {
        self.lines.len()
    }

    /// The run at an index of the line table.
    pub fn line_entry(&self, i: usize) -> (r: Line)
        requires
            i < self@.lines.len(),
        ensures
            r == self@.lines[i as int],
    {
        self.lines[i]
    }
}

} // verus!
