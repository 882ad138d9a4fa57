//! Matching of loop brackets by nesting depth.
//!
//! The language has no jump table: a jump finds its target by scanning the
//! program from the bracket it stands on, counting brackets as it goes.  This
//! module says which bracket that scan is looking for, independently of how
//! the scan proceeds, and provides the two scans.

use vstd::prelude::*;
use crate::instruction::Instruction;

verus! {

/// What an instruction adds to the nesting depth: a `[` opens a level, a `]`
/// closes one, and nothing else counts.
pub open spec fn weight(i: Instruction) -> int {
    match i {
        Instruction::LoopStart => 1,
        Instruction::LoopEnd => -1,
        _ => 0,
    }
}

/// The net nesting depth of `program[from..to]`: the number of `[` in that
/// range minus the number of `]`.
pub open spec fn depth(program: Seq<Instruction>, from: int, to: int) -> int
    decreases to - from,
{
    if to <= from {
        0
    } else {
        depth(program, from, to - 1) + weight(program[to - 1])
    }
}

/// `close` is where the loop opened at `open` ends: the first position after
/// `open` at which the brackets that follow `open` close one level more than
/// they have opened.
pub open spec fn is_loop_end(program: Seq<Instruction>, open: int, close: int) -> bool {
    &&& 0 <= open < close < program.len()
    &&& depth(program, open + 1, close + 1) == -1
    &&& forall|k: int| open < k <= close ==> #[trigger] depth(program, open + 1, k) >= 0
}

/// `open` is where the loop closed at `close` begins: the last position before
/// `close` from which the brackets up to `close` open one level more than they
/// close.
pub open spec fn is_loop_start(program: Seq<Instruction>, close: int, open: int) -> bool {
    &&& 0 <= open < close < program.len()
    &&& depth(program, open, close) == 1
    &&& forall|k: int| open < k < close ==> #[trigger] depth(program, k, close) <= 0
}

/// The position of the `]` that ends the loop opened at `open`, or `None` if
/// the program has none.
pub open spec fn loop_end(program: Seq<Instruction>, open: int) -> Option<int> {
    if exists|c: int| is_loop_end(program, open, c) {
        Some(choose|c: int| is_loop_end(program, open, c))
    } else {
        None
    }
}

/// The position of the `[` that begins the loop closed at `close`, or `None`
/// if the program has none.
pub open spec fn loop_start(program: Seq<Instruction>, close: int) -> Option<int> {
    if exists|o: int| is_loop_start(program, close, o) {
        Some(choose|o: int| is_loop_start(program, close, o))
    } else {
        None
    }
}

/// The depth of a range is the sum of the depths of its two parts.
pub proof fn lemma_depth_split(program: Seq<Instruction>, from: int, mid: int, to: int)
    requires
        from <= mid <= to,
    ensures
        depth(program, from, to) == depth(program, from, mid) + depth(program, mid, to),
    decreases to - mid,
{
    if mid < to {
        lemma_depth_split(program, from, mid, to - 1);
    }
}

/// The depth of a non-empty range is the weight of its first instruction plus
/// the depth of the rest.
pub proof fn lemma_depth_first(program: Seq<Instruction>, from: int, to: int)
    requires
        from < to,
    ensures
        depth(program, from, to) == weight(program[from]) + depth(program, from + 1, to),
{
    lemma_depth_split(program, from, from + 1, to);
    assert(depth(program, from, from + 1) == weight(program[from])) by {
        reveal_with_fuel(depth, 2);
    }
}

/// A loop has at most one end.
pub proof fn lemma_loop_end_unique(program: Seq<Instruction>, open: int, c1: int, c2: int)
    requires
        is_loop_end(program, open, c1),
        is_loop_end(program, open, c2),
    ensures
        c1 == c2,
{
}

/// A loop has at most one beginning.
pub proof fn lemma_loop_start_unique(program: Seq<Instruction>, close: int, o1: int, o2: int)
    requires
        is_loop_start(program, close, o1),
        is_loop_start(program, close, o2),
    ensures
        o1 == o2,
{
}

/// `loop_end` is the one position that `is_loop_end` admits.
pub proof fn lemma_loop_end_is(program: Seq<Instruction>, open: int, close: int)
    requires
        is_loop_end(program, open, close),
    ensures
        loop_end(program, open) == Some(close),
{
    let c = choose|c: int| is_loop_end(program, open, c);
    lemma_loop_end_unique(program, open, c, close);
}

/// `loop_start` is the one position that `is_loop_start` admits.
pub proof fn lemma_loop_start_is(program: Seq<Instruction>, close: int, open: int)
    requires
        is_loop_start(program, close, open),
    ensures
        loop_start(program, close) == Some(open),
{
    let o = choose|o: int| is_loop_start(program, close, o);
    lemma_loop_start_unique(program, close, o, open);
}

/// The two ends of a loop name each other: where a `[` has its loop end
/// stands a `]`, and the loop that this `]` closes begins at that `[`.
pub proof fn lemma_loop_end_pairs(program: Seq<Instruction>, open: int, close: int)
    requires
        program[open] == Instruction::LoopStart,
        is_loop_end(program, open, close),
    ensures
        program[close] == Instruction::LoopEnd,
        is_loop_start(program, close, open),
{
    lemma_depth_first(program, open, close);
    assert forall|k: int| open < k < close implies #[trigger] depth(program, k, close) <= 0 by {
        lemma_depth_split(program, open + 1, k, close);
    }
}

/// The converse of [`lemma_loop_end_pairs`]: where a `]` has its loop start
/// stands a `[`, and the loop that this `[` opens ends at that `]`.
pub proof fn lemma_loop_start_pairs(program: Seq<Instruction>, close: int, open: int)
    requires
        program[close] == Instruction::LoopEnd,
        is_loop_start(program, close, open),
    ensures
        program[open] == Instruction::LoopStart,
        is_loop_end(program, open, close),
{
    lemma_depth_first(program, open, close);
    assert forall|k: int| open < k <= close implies #[trigger] depth(program, open + 1, k)
        >= 0 by {
        lemma_depth_split(program, open + 1, k, close);
    }
}

/// The brackets of the program are balanced: no `]` comes without a `[`
/// before it that is still open, and no `[` is left open at the end.
pub open spec fn is_balanced(program: Seq<Instruction>) -> bool {
    &&& depth(program, 0, program.len() as int) == 0
    &&& forall|k: int| 0 <= k <= program.len() ==> #[trigger] depth(program, 0, k) >= 0
}

/// In a balanced program every `[` has its loop end.
pub proof fn lemma_balanced_has_loop_end(program: Seq<Instruction>, open: int)
    requires
        is_balanced(program),
        0 <= open < program.len(),
        program[open] == Instruction::LoopStart,
    ensures
        loop_end(program, open) is Some,
{
    let n = program.len() as int;
    lemma_depth_split(program, 0, open + 1, n);
    assert(depth(program, 0, open) >= 0);
    lemma_first_excess_close(program, open + 1, n);
    let e = choose|e: int|
        open + 1 < e <= n && #[trigger] depth(program, open + 1, e) == -1 && forall|k: int|
            open + 1 <= k < e ==> #[trigger] depth(program, open + 1, k) >= 0;
    assert(is_loop_end(program, open, e - 1));
}

/// In a balanced program every `]` has its loop start.
pub proof fn lemma_balanced_has_loop_start(program: Seq<Instruction>, close: int)
    requires
        is_balanced(program),
        0 <= close < program.len(),
        program[close] == Instruction::LoopEnd,
    ensures
        loop_start(program, close) is Some,
{
    assert(depth(program, 0, close + 1) >= 0);
    lemma_last_excess_open(program, 0, close);
    let o = choose|o: int|
        0 <= o < close && #[trigger] depth(program, o, close) == 1 && forall|k: int|
            o < k <= close ==> #[trigger] depth(program, k, close) <= 0;
    assert(is_loop_start(program, close, o));
}

/// A range that closes more than it opens has a shortest prefix that closes
/// one more than it opens.
proof fn lemma_first_excess_close(program: Seq<Instruction>, from: int, to: int)
    requires
        depth(program, from, to) < 0,
    ensures
        exists|e: int|
            from < e <= to && #[trigger] depth(program, from, e) == -1 && forall|k: int|
                from <= k < e ==> #[trigger] depth(program, from, k) >= 0,
    decreases to - from,
{
    if exists|j: int| from <= j < to && depth(program, from, j) < 0 {
        let j = choose|j: int| from <= j < to && depth(program, from, j) < 0;
        lemma_first_excess_close(program, from, j);
    } else {
        assert(depth(program, from, to - 1) >= 0);
    }
}

/// A range that opens more than it closes has a shortest suffix that opens
/// one more than it closes.
proof fn lemma_last_excess_open(program: Seq<Instruction>, from: int, to: int)
    requires
        depth(program, from, to) > 0,
    ensures
        exists|o: int|
            from <= o < to && #[trigger] depth(program, o, to) == 1 && forall|k: int|
                o < k <= to ==> #[trigger] depth(program, k, to) <= 0,
    decreases to - from,
{
    if exists|j: int| from < j <= to && depth(program, j, to) > 0 {
        let j = choose|j: int| from < j <= to && depth(program, j, to) > 0;
        lemma_last_excess_open(program, j, to);
    } else {
        lemma_depth_first(program, from, to);
    }
}

/// Scans forward from `open` for the end of the loop opened there.
pub fn find_loop_end(program: &[Instruction], open: usize) -> (r: Option<usize>)
    ensures
        match r {
            Some(close) => loop_end(program@, open as int) == Some(close as int),
            None => loop_end(program@, open as int) is None,
        },
{
    let n = program.len();
    if open >= n {
        return None;
    }
    let mut count: usize = 1;
    let mut i: usize = open;
    while count != 0
        invariant
            n == program@.len(),
            open <= i < n,
            count == 1 + depth(program@, open + 1, i + 1),
            count <= i - open + 1,
            forall|k: int| open < k <= i ==> #[trigger] depth(program@, open + 1, k) >= 0,
        decreases n - i,
    {
        if i + 1 >= n {
            return None;
        }
        i += 1;
        match program[i] {
            Instruction::LoopStart => {
                count += 1;
            },
            Instruction::LoopEnd => {
                count -= 1;
            },
            _ => {},
        }
    }
    proof {
        lemma_loop_end_is(program@, open as int, i as int);
    }
    Some(i)
}

/// Scans backward from `close` for the beginning of the loop closed there.
pub fn find_loop_start(program: &[Instruction], close: usize) -> (r: Option<usize>)
    ensures
        match r {
            Some(open) => loop_start(program@, close as int) == Some(open as int),
            None => loop_start(program@, close as int) is None,
        },
{
    let n = program.len();
    if close >= n {
        return None;
    }
    let mut count: usize = 1;
    let mut i: usize = close;
    while count != 0
        invariant
            n == program@.len(),
            i <= close < n,
            count == 1 - depth(program@, i as int, close as int),
            count <= close - i + 1,
            forall|k: int| i < k < close ==> #[trigger] depth(program@, k, close as int) <= 0,
        decreases i,
    {
        if i == 0 {
            return None;
        }
        i -= 1;
        proof {
            lemma_depth_first(program@, i as int, close as int);
        }
        match program[i] {
            Instruction::LoopEnd => {
                count += 1;
            },
            Instruction::LoopStart => {
                count -= 1;
            },
            _ => {},
        }
    }
    proof {
        lemma_loop_start_is(program@, close as int, i as int);
    }
    Some(i)
}

} // verus!
