use crate::ops::{Instruction, OpCode};
use vstd::prelude::*;

verus! {

/// The nesting limit used by `parsebf`.
pub const MAX_RECURSION: usize = 10;

/// Why a sequence of operations does not form a program.
#[derive(Clone, Copy, Debug, PartialEq, Eq, Structural)]
pub enum ParseError {
    /// A loop end with no open loop before it, at this operation index.
    UnbalancedLoopEnd(usize),
    /// The loop opened at this operation index is never closed.
    UnbalancedLoopStart(usize),
    /// The operation at this index lies deeper than the nesting limit allows.
    NestingTooDeep(usize),
}

/// The operations that a program stands for: each loop becomes its start,
/// its flattened body, and its end.
pub open spec fn flatten(prog: Seq<Instruction>) -> Seq<OpCode>
    decreases prog,
{
    if prog.len() == 0 {
        Seq::empty()
    } else {
        flatten(prog.drop_last()) + flatten_one(prog.last())
    }
}

pub open spec fn flatten_one(ins: Instruction) -> Seq<OpCode>
    decreases ins,
{
    match ins {
        Instruction::IncPtr => seq![OpCode::IncPtr],
        Instruction::DecPtr => seq![OpCode::DecPtr],
        Instruction::Inc => seq![OpCode::Inc],
        Instruction::Dec => seq![OpCode::Dec],
        Instruction::Write => seq![OpCode::Write],
        Instruction::Read => seq![OpCode::Read],
        Instruction::Loop(body) => seq![OpCode::LoopStart] + flatten(body@) + seq![OpCode::LoopStop],
    }
}

/// How an operation changes the loop nesting depth.
pub open spec fn delta(op: OpCode) -> int {
    match op {
        OpCode::LoopStart => 1,
        OpCode::LoopStop => -1,
        _ => 0,
    }
}

/// The nesting depth before the operation at index `k`: loop starts minus
/// loop ends among the first `k` operations.
pub open spec fn depth(ops: Seq<OpCode>, k: int) -> int
    decreases k,
{
    if k <= 0 {
        0
    } else {
        depth(ops, k - 1) + delta(ops[k - 1])
    }
}

/// The operation at `i` closes a loop that was never opened.
pub open spec fn stray_close_at(ops: Seq<OpCode>, i: int) -> bool {
    &&& 0 <= i < ops.len()
    &&& depth(ops, i) == 0
    &&& ops[i] == OpCode::LoopStop
}

/// The operation at `i` lies inside a loop at or beyond the nesting limit.
pub open spec fn too_deep_at(ops: Seq<OpCode>, limit: int, i: int) -> bool {
    &&& 0 <= i < ops.len()
    &&& depth(ops, i) > 0
    &&& depth(ops, i) >= limit
}

/// No operation before index `n` is a stray loop end or too deep.
pub open spec fn clean_before(ops: Seq<OpCode>, limit: int, n: int) -> bool {
    forall|j: int|
        #![trigger stray_close_at(ops, j)]
        #![trigger too_deep_at(ops, limit, j)]
        0 <= j < n ==> !stray_close_at(ops, j) && !too_deep_at(ops, limit, j)
}

/// The loop opened at `s` is at the outermost level and is still open at
/// the end of the sequence.
pub open spec fn open_from(ops: Seq<OpCode>, s: int) -> bool {
    &&& 0 <= s < ops.len()
    &&& ops[s] == OpCode::LoopStart
    &&& depth(ops, s) == 0
    &&& forall|k: int| s < k <= ops.len() ==> #[trigger] depth(ops, k) > 0
}

/// The sequence has balanced loops, nested no deeper than `limit`.
pub open spec fn well_nested(ops: Seq<OpCode>, limit: int) -> bool {
    clean_before(ops, limit, ops.len() as int) && depth(ops, ops.len() as int) == 0
}

/// The depth inside a sub-range is the depth of the whole less the depth at
/// the start of the range.
proof fn lemma_depth_subrange(ops: Seq<OpCode>, lo: int, hi: int, k: int)
    requires
        0 <= lo <= hi <= ops.len(),
        0 <= k <= hi - lo,
    ensures
        depth(ops.subrange(lo, hi), k) == depth(ops, lo + k) - depth(ops, lo),
    decreases k,
{
    if k > 0 {
        lemma_depth_subrange(ops, lo, hi, k - 1);
    }
}

/// A loop body, strictly between a matched outermost start and end, is
/// itself well nested.
proof fn lemma_body_well_nested(ops: Seq<OpCode>, limit: int, start: int, end: int)
    requires
        0 <= start < end < ops.len(),
        clean_before(ops, limit, end),
        depth(ops, start) == 0,
        ops[start] == OpCode::LoopStart,
        forall|k: int| start < k <= end ==> #[trigger] depth(ops, k) > 0,
        depth(ops, end + 1) == 0,
    ensures
        well_nested(ops.subrange(start + 1, end), limit),
{
    let body = ops.subrange(start + 1, end);
    assert forall|j: int| 0 <= j < body.len() implies !stray_close_at(body, j) && !too_deep_at(
        body,
        limit,
        j,
    ) by {
        lemma_depth_subrange(ops, start + 1, end, j);
        lemma_depth_subrange(ops, start + 1, end, j + 1);
        assert(depth(ops, start + 1) == 1);
        assert(!too_deep_at(ops, limit, start + 1 + j));
        assert(depth(ops, start + 2 + j) > 0);
    }
    lemma_depth_subrange(ops, start + 1, end, end - start - 1);
}

/// The instruction for an operation that is not a loop bracket.
fn simple_instruction(op: OpCode) -> (ins: Instruction)
    requires
        op != OpCode::LoopStart,
        op != OpCode::LoopStop,
    ensures
        flatten_one(ins) == seq![op],
{
    match op {
        OpCode::IncPtr => Instruction::IncPtr,
        OpCode::DecPtr => Instruction::DecPtr,
        OpCode::Inc => Instruction::Inc,
        OpCode::Dec => Instruction::Dec,
        OpCode::Write => Instruction::Write,
        _ => Instruction::Read,
    }
}

/// A copy of `v[lo..hi]`.
fn copy_range(v: &Vec<OpCode>, lo: usize, hi: usize) -> (r: Vec<OpCode>)
    requires
        lo <= hi <= v.len(),
    ensures
        r@ == v@.subrange(lo as int, hi as int),
{
    let mut r: Vec<OpCode> = Vec::new();
    let mut i: usize = lo;
    while i < hi
        invariant
            lo <= i <= hi <= v.len(),
            r@ == v@.subrange(lo as int, i as int),
        decreases hi - i,
    {
        r.push(v[i]);
        i += 1;
    }
    r
}

/// Builds the instruction tree of a sequence of operations, nesting each
/// bracketed region into a loop; fails on the first stray loop end or
/// operation deeper than `limit`, else on a loop left open.
pub fn parse_with_limit(operations: &Vec<OpCode>, limit: usize) -> (r: Result<
    Vec<Instruction>,
    ParseError,
>)
    ensures
        r is Ok <==> well_nested(operations@, limit as int),
        match r {
            Ok(program) => flatten(program@) == operations@,
            Err(ParseError::UnbalancedLoopEnd(i)) => clean_before(operations@, limit as int, i as int)
                && stray_close_at(operations@, i as int),
            Err(ParseError::NestingTooDeep(i)) => clean_before(operations@, limit as int, i as int)
                && too_deep_at(operations@, limit as int, i as int),
            Err(ParseError::UnbalancedLoopStart(s)) => clean_before(
                operations@,
                limit as int,
                operations@.len() as int,
            ) && open_from(operations@, s as int),
        },
    decreases operations@.len(),
{
    let ghost ops = operations@;
    let n = operations.len();
    let mut program: Vec<Instruction> = Vec::new();
    let mut loop_start: usize = 0;
    let mut loop_depth: usize = 0;
    let mut i: usize = 0;
    while i < n
        invariant
            n == ops.len(),
            ops == operations@,
            i <= n,
            loop_depth <= i,
            loop_depth == depth(ops, i as int),
            clean_before(ops, limit as int, i as int),
            loop_depth == 0 ==> flatten(program@) == ops.take(i as int),
            loop_depth > 0 ==> {
                &&& loop_start < i
                &&& ops[loop_start as int] == OpCode::LoopStart
                &&& depth(ops, loop_start as int) == 0
                &&& forall|k: int| loop_start < k <= i ==> #[trigger] depth(ops, k) > 0
                &&& flatten(program@) == ops.take(loop_start as int)
            },
        decreases n - i,
    {
        let op = operations[i];
        if loop_depth == 0 {
            match op {
                OpCode::LoopStart => {
                    loop_start = i;
                    loop_depth = 1;
                },
                OpCode::LoopStop => {
                    assert(stray_close_at(ops, i as int));
                    return Err(ParseError::UnbalancedLoopEnd(i));
                },
                _ => {
                    let ins = simple_instruction(op);
                    let ghost before = program@;
                    program.push(ins);
                    proof {
                        assert(program@.drop_last() == before);
                        assert(flatten(program@) == flatten(before) + flatten_one(ins));
                        assert(ops.take(i + 1) == ops.take(i as int) + seq![op]);
                    }
                },
            }
        } else if loop_depth < limit {
            match op {
                OpCode::LoopStart => {
                    loop_depth += 1;
                },
                OpCode::LoopStop => {
                    loop_depth -= 1;
                    if loop_depth == 0 {
                        proof {
                            lemma_body_well_nested(ops, limit as int, loop_start as int, i as int);
                        }
                        let inner = copy_range(operations, loop_start + 1, i);
                        match parse_with_limit(&inner, limit) {
                            Ok(body) => {
                                let ghost before = program@;
                                let ghost inner_ops = inner@;
                                program.push(Instruction::Loop(body));
                                proof {
                                    assert(program@.drop_last() == before);
                                    assert(flatten(program@) == flatten(before) + flatten_one(
                                        program@.last(),
                                    ));
                                    assert(ops.take(i + 1) == ops.take(loop_start as int) + (seq![
                                        OpCode::LoopStart,
                                    ] + inner_ops + seq![OpCode::LoopStop]));
                                }
                            },
                            Err(e) => {
                                return Err(e);
                            },
                        }
                    }
                },
                _ => {},
            }
        } else {
            assert(too_deep_at(ops, limit as int, i as int));
            return Err(ParseError::NestingTooDeep(i));
        }
        assert(!stray_close_at(ops, i as int) && !too_deep_at(ops, limit as int, i as int));
        i += 1;
    }
    if loop_depth != 0 {
        return Err(ParseError::UnbalancedLoopStart(loop_start));
    }
    proof {
        assert(ops.take(n as int) == ops);
    }
    Ok(program)
}

/// Builds the instruction tree of a sequence of operations, with loops nested
/// at most `MAX_RECURSION` deep.
pub fn parsebf(operations: Vec<OpCode>) -> (r: Result<Vec<Instruction>, ParseError>)
    ensures
        r is Ok <==> well_nested(operations@, MAX_RECURSION as int),
        match r {
            Ok(program) => flatten(program@) == operations@,
            Err(ParseError::UnbalancedLoopEnd(i)) => clean_before(
                operations@,
                MAX_RECURSION as int,
                i as int,
            ) && stray_close_at(operations@, i as int),
            Err(ParseError::NestingTooDeep(i)) => clean_before(
                operations@,
                MAX_RECURSION as int,
                i as int,
            ) && too_deep_at(operations@, MAX_RECURSION as int, i as int),
            Err(ParseError::UnbalancedLoopStart(s)) => clean_before(
                operations@,
                MAX_RECURSION as int,
                operations@.len() as int,
            ) && open_from(operations@, s as int),
        },
{
    parse_with_limit(&operations, MAX_RECURSION)
}

/// No prefix closes more loops than it opens, and all loops are closed.
pub open spec fn balanced(ops: Seq<OpCode>) -> bool {
    &&& forall|k: int| 0 <= k <= ops.len() ==> #[trigger] depth(ops, k) >= 0
    &&& depth(ops, ops.len() as int) == 0
}

/// A sequence with balanced loops, nested less deeply than `limit`, is well
/// nested; `parse_with_limit` then succeeds on it, and the tree it returns
/// flattens back to exactly this sequence.
pub proof fn lemma_balanced_parses(ops: Seq<OpCode>, limit: int)
    requires
        balanced(ops),
        forall|k: int| 0 <= k < ops.len() ==> #[trigger] depth(ops, k) < limit,
    ensures
        well_nested(ops, limit),
{
    assert forall|j: int| 0 <= j < ops.len() implies !stray_close_at(ops, j) && !too_deep_at(
        ops,
        limit,
        j,
    ) by {
        assert(depth(ops, j + 1) >= 0);
    }
}

/// The first loop end that closes more loops than were opened before it is
/// the fault reported, at its own index, when nothing before it is nested
/// beyond the limit.
pub proof fn lemma_excess_close_reported(ops: Seq<OpCode>, limit: int, i: int)
    requires
        0 <= i < ops.len(),
        forall|k: int| 0 <= k <= i ==> #[trigger] depth(ops, k) >= 0,
        depth(ops, i + 1) < 0,
        forall|k: int| 0 <= k < i ==> #[trigger] depth(ops, k) < limit,
    ensures
        stray_close_at(ops, i),
        clean_before(ops, limit, i),
        !well_nested(ops, limit),
{
    assert forall|j: int| 0 <= j < i implies !stray_close_at(ops, j) && !too_deep_at(
        ops,
        limit,
        j,
    ) by {
        assert(depth(ops, j + 1) >= 0);
    }
    assert(depth(ops, i) >= 0);
    assert(stray_close_at(ops, i));
}

/// The last position up to `k` at which the depth is zero.
proof fn lemma_last_zero(ops: Seq<OpCode>, k: int) -> (s: int)
    requires
        0 <= k <= ops.len(),
    ensures
        0 <= s <= k,
        depth(ops, s) == 0,
        forall|j: int| s < j <= k ==> #[trigger] depth(ops, j) != 0,
    decreases k,
{
    if k == 0 || depth(ops, k) == 0 {
        k
    } else {
        lemma_last_zero(ops, k - 1)
    }
}

/// When no loop end is in excess and nothing is nested beyond the limit, a
/// sequence that leaves loops open has an outermost loop still open at the
/// end: the loop start that `parse_with_limit` reports.
pub proof fn lemma_unclosed_start_reported(ops: Seq<OpCode>, limit: int)
    requires
        forall|k: int| 0 <= k <= ops.len() ==> #[trigger] depth(ops, k) >= 0,
        forall|k: int| 0 <= k < ops.len() ==> #[trigger] depth(ops, k) < limit,
        depth(ops, ops.len() as int) != 0,
    ensures
        clean_before(ops, limit, ops.len() as int),
        exists|s: int| open_from(ops, s),
        !well_nested(ops, limit),
{
    assert forall|j: int| 0 <= j < ops.len() implies !stray_close_at(ops, j) && !too_deep_at(
        ops,
        limit,
        j,
    ) by {
        assert(depth(ops, j + 1) >= 0);
    }
    let s = lemma_last_zero(ops, ops.len() as int);
    assert(s < ops.len());
    assert(depth(ops, s + 1) != 0);
    assert(depth(ops, s + 1) >= 0);
    assert forall|k: int| s < k <= ops.len() implies #[trigger] depth(ops, k) > 0 by {
        assert(depth(ops, k) >= 0);
    }
    assert(open_from(ops, s));
}

} // verus!
