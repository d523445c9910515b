//! A machine that runs a balanced stream of instructions never has more
//! values of its outermost frame on the stack than the stream's heights
//! say, and none when it stands at the end of the stream.

use std::rc::Rc;
use vstd::prelude::*;

use crate::code::balance::{balanced_code, effect, falls_through, jumps, Heights};
use crate::code::definitions::{instruction_len, is_defined, operands_at};
use crate::code::opcode::{opcode_of_byte, Opcode};
use crate::common::error::RTError;
use crate::common::object::Object;
use crate::vm::state::{
    reaches,
    run_relation,
    step_relation,
    went_through,
    Signal,
    VMState,
    STACK_SIZE,
};

verus! {

/// The number of values on the stack that belong to the outermost frame,
/// with `waiting` more to come: all of them while it runs; while a call is
/// under way, those below the callee and the result that the call will
/// leave.
pub open spec fn level(s: VMState, waiting: int) -> int {
    if s.frames.len() == 1 {
        s.sp + waiting
    } else {
        s.frames[1].bp as int
    }
}

/// What the machine waits for after a step: one value where the step
/// handed work out, none else.
pub open spec fn owed(res: Result<Signal, RTError>) -> int {
    match res {
        Ok(Signal::Arith { .. }) => 1,
        Ok(Signal::Native { .. }) => 1,
        _ => 0,
    }
}

/// The machine runs `code` in its outermost frame, and the values of that
/// frame, with `waiting` more to come, are no more than the height says at
/// the instruction that the frame is at.
pub open spec fn within(s: VMState, code: Seq<u8>, heights: Heights, waiting: int) -> bool {
    &&& s.inv()
    &&& s.frames[0].closure.func.instructions.code@ == code
    &&& heights.admits(code, s.frames[0].ip as int, level(s, waiting))
}

/// A step keeps the machine within the heights of a balanced stream: after
/// a step that went through, and after one that handed work out, with the
/// value that the machine then waits for.
pub proof fn lemma_step_within(
    pre: VMState,
    post: VMState,
    res: Result<Signal, RTError>,
    code: Seq<u8>,
    heights: Heights,
)
    requires
        heights.balanced(code),
        within(pre, code, heights, 0),
        step_relation(pre, post, res),
        res is Ok,
    ensures
        within(post, code, heights, owed(res)),
{
    let ip = pre.frame().ip as int;
    let running = pre.code();
    if ip >= running.len() {
    } else {
        let op = opcode_of_byte(running[ip]);
        let next = ip + instruction_len(op);
        let operands = operands_at(running, ip);
        crate::code::definitions::lemma_instruction_len_bounds(op);
        let bytes = pre.frame().closure.func.instructions.code;
        assert(bytes.len() == bytes@.len());
        let s = pre.with_ip(next as usize);
        if pre.frames.len() == 1 {
            assert(heights.at.contains_key(ip));
            assert(heights.holds_at(code, ip, Set::<int>::empty()));
            lemma_outermost(op, operands, s, post, res, pre.line_at(ip));
        } else {
            assert(s.frames[0] == pre.frames[0]);
            assert(s.frames[1].bp == pre.frames[1].bp);
            lemma_inner(op, operands, s, post, res, pre.line_at(ip));
        }
    }
}

/// What an instruction of the outermost frame does to the frame's values.
proof fn lemma_outermost(
    op: Opcode,
    operands: Seq<usize>,
    s: VMState,
    post: VMState,
    res: Result<Signal, RTError>,
    line: usize,
)
    requires
        s.inv(),
        s.frames.len() == 1,
        is_defined(op),
        crate::vm::state::executes(op, operands, s, post, res, line),
        res is Ok,
    ensures
        post.inv(),
        post.frames[0].closure == s.frames[0].closure,
        level(post, owed(res)) == s.sp + effect(op, operands),
        post.frames[0].ip == s.frames[0].ip || (jumps(op) && post.frames[0].ip == operands[0]),
        !falls_through(op) ==> post.frames[0].ip == operands[0] && jumps(op),
{
}

/// What an instruction of a frame inside another does to the values of
/// the outermost frame: nothing, and when the call returns that the
/// outermost frame made, its result is the one value above them.
proof fn lemma_inner(
    op: Opcode,
    operands: Seq<usize>,
    s: VMState,
    post: VMState,
    res: Result<Signal, RTError>,
    line: usize,
)
    requires
        s.inv(),
        s.frames.len() >= 2,
        is_defined(op),
        crate::vm::state::executes(op, operands, s, post, res, line),
        res is Ok,
    ensures
        post.inv(),
        post.frames[0] == s.frames[0],
        level(post, owed(res)) == level(s, 0),
{
}

/// Steps that each went through keep the machine within the heights of a
/// balanced stream.
pub proof fn lemma_reaches_within(
    pre: VMState,
    post: VMState,
    n: nat,
    code: Seq<u8>,
    heights: Heights,
)
    requires
        heights.balanced(code),
        within(pre, code, heights, 0),
        reaches(pre, post, n),
    ensures
        within(post, code, heights, 0),
    decreases n,
{
    if n > 0 {
        let (mid, signal) = choose|mid: VMState, signal: Result<Signal, RTError>|
            reaches(pre, mid, (n - 1) as nat) && went_through(signal) && #[trigger] step_relation(
                mid,
                post,
                signal,
            );
        lemma_reaches_within(pre, mid, (n - 1) as nat, code, heights);
        lemma_step_within(mid, post, signal, code, heights);
    }
}

/// A run keeps the machine within the heights of a balanced stream: where
/// it ends without an error, the values of the outermost frame, with the
/// one that the machine waits for where the run handed work out, are no
/// more than the height says.
pub proof fn lemma_run_within(
    pre: VMState,
    post: VMState,
    res: Result<Signal, RTError>,
    code: Seq<u8>,
    heights: Heights,
)
    requires
        heights.balanced(code),
        within(pre, code, heights, 0),
        run_relation(pre, post, res),
        res is Ok,
    ensures
        within(post, code, heights, owed(res)),
{
    let (n, last) = choose|n: nat, last: VMState|
        #![trigger reaches(pre, last, n)]
        reaches(pre, last, n) && step_relation(last, post, res) && (went_through(res) ==> n + 1
            >= usize::MAX);
    lemma_reaches_within(pre, last, n, code, heights);
    lemma_step_within(last, post, res, code, heights);
}

/// The value that the machine waited for, pushed, is the one that was to
/// come.
pub proof fn lemma_push_within(
    s: VMState,
    value: Rc<Object>,
    code: Seq<u8>,
    heights: Heights,
)
    requires
        within(s, code, heights, 1),
        s.sp < STACK_SIZE,
    ensures
        within(s.pushed(value), code, heights, 0),
{
}

/// A machine that starts a balanced stream is within its heights.
pub proof fn lemma_start_within(s: VMState, code: Seq<u8>, heights: Heights)
    requires
        heights.balanced(code),
        s.inv(),
        s.sp == 0,
        s.frames.len() == 1,
        s.frames[0].ip == 0,
        s.frames[0].closure.func.instructions.code@ == code,
    ensures
        within(s, code, heights, 0),
{
}

/// A machine that is within the heights of a balanced stream and stands
/// at the end of the stream, in its outermost frame, has no value left on
/// its stack.
pub proof fn lemma_halt_empty(s: VMState, code: Seq<u8>, heights: Heights)
    requires
        heights.balanced(code),
        within(s, code, heights, 0),
        s.frames.len() == 1,
        s.frames[0].ip >= code.len(),
    ensures
        s.sp == 0,
{
}

/// Whether `post` is what `pre` comes to after `n` steps that each ended
/// without an error, where the value that the machine waited for after a
/// step that handed work out was pushed before the next step.
pub open spec fn carries_on(pre: VMState, post: VMState, n: nat) -> bool
    decreases n,
{
    if n == 0 {
        post == pre
    } else {
        exists|mid: VMState, next: VMState, res: Result<Signal, RTError>, value: Rc<Object>|
            carries_on(pre, mid, (n - 1) as nat) && #[trigger] step_relation(mid, next, res)
                && res is Ok && #[trigger] answered(next, res, value, post)
    }
}

/// The state `post` is the state `next` that a step left, with `value`
/// pushed where the step handed work out and the stack had room for what
/// the work gave.
pub open spec fn answered(
    next: VMState,
    res: Result<Signal, RTError>,
    value: Rc<Object>,
    post: VMState,
) -> bool {
    if owed(res) == 1 {
        next.sp < STACK_SIZE && post == next.pushed(value)
    } else {
        post == next
    }
}

/// The stack is balanced. A machine starts a balanced stream with an
/// empty stack and carries on, step by step, without an error. When it
/// stands at the end of the stream, in its outermost frame, it has no value
/// left on its stack: every value that an instruction pushed was taken
/// again.
pub proof fn lemma_stack_balance(start: VMState, end: VMState, n: nat, code: Seq<u8>)
    requires
        balanced_code(code),
        start.inv(),
        start.sp == 0,
        start.frames.len() == 1,
        start.frames[0].ip == 0,
        start.frames[0].closure.func.instructions.code@ == code,
        carries_on(start, end, n),
        end.frames.len() == 1,
        end.frames[0].ip >= code.len(),
    ensures
        end.sp == 0,
{
    let heights = choose|heights: Heights| #[trigger] heights.balanced(code);
    lemma_start_within(start, code, heights);
    lemma_carries_within(start, end, n, code, heights);
    lemma_halt_empty(end, code, heights);
}

/// A machine that carries on stays within the heights of a balanced
/// stream.
pub proof fn lemma_carries_within(
    pre: VMState,
    post: VMState,
    n: nat,
    code: Seq<u8>,
    heights: Heights,
)
    requires
        heights.balanced(code),
        within(pre, code, heights, 0),
        carries_on(pre, post, n),
    ensures
        within(post, code, heights, 0),
    decreases n,
{
    if n > 0 {
        let (mid, next, res, value) = choose|
            mid: VMState,
            next: VMState,
            res: Result<Signal, RTError>,
            value: Rc<Object>,
        |
            carries_on(pre, mid, (n - 1) as nat) && #[trigger] step_relation(mid, next, res)
                && res is Ok && #[trigger] answered(next, res, value, post);
        lemma_carries_within(pre, mid, (n - 1) as nat, code, heights);
        lemma_step_within(mid, next, res, code, heights);
        if owed(res) == 1 {
            lemma_push_within(next, value, code, heights);
        }
    }
}

} // verus!
