//! The heights of the stack along the instructions that the compiler
//! writes: what each step of the compilation keeps of them.

use vstd::prelude::*;

use crate::code::balance::{balanced_code, effect, falls_through, jumps, Heights};
use crate::code::definitions::{
    decode_operands,
    encode_operands,
    instruction_len,
    is_defined,
    lemma_instruction_len_bounds,
    operand_widths,
    operands_at,
    width_sum,
};
use crate::code::opcode::{opcode_of_byte, Opcode};
use crate::compiler::scope::{
    lemma_change_operand,
    lemma_emit,
    lemma_remove_last,
    lemma_starts_increase,
    ScopeModel,
};

verus! {

/// Whether an instruction of the buffer starts at offset `p`.
pub open spec fn is_start(s: ScopeModel, p: int) -> bool {
    exists|i: int| 0 <= i < s.starts.len() && #[trigger] s.starts[i] == p
}

/// The heights fit the buffer: no height is below zero, every instruction
/// has a height and leaves the heights that the instructions expect which
/// may run after it, but for the jumps in `pending`, which wait for their
/// targets; and the heights are those of `known` where it has one.
pub open spec fn typed(s: ScopeModel, hs: Heights, pending: Set<int>, known: Map<int, int>)
    -> bool {
    &&& hs.end >= 0
    &&& forall|i: int| 0 <= i < s.starts.len() ==> hs.at.contains_key(#[trigger] s.starts[i])
    &&& forall|p: int| #[trigger]
        hs.at.contains_key(p) ==> is_start(s, p) && hs.at[p] >= 0 && hs.holds_at(
            s.code,
            p,
            pending,
        )
    &&& forall|p: int| #[trigger]
        known.contains_key(p) ==> hs.at.contains_key(p) && hs.at[p] == known[p]
}

/// No jump that has its target goes further than to the start of the last
/// instruction.
pub open spec fn at_rest(s: ScopeModel, hs: Heights, pending: Set<int>) -> bool {
    forall|p: int| #[trigger]
        hs.at.contains_key(p) && jumps(opcode_of_byte(s.code[p])) && !pending.contains(p)
            ==> operands_at(s.code, p)[0] <= s.last.position
}

/// There are heights that fit the buffer and end with `end`.
pub open spec fn typed_to(s: ScopeModel, end: int, pending: Set<int>, known: Map<int, int>)
    -> bool {
    exists|at: Map<int, int>| #[trigger] typed(s, Heights { at, end }, pending, known)
}

/// There are heights that fit the buffer and end with `end`, and the
/// buffer is at rest under them.
pub open spec fn typed_rest(s: ScopeModel, end: int, pending: Set<int>, known: Map<int, int>)
    -> bool {
    exists|at: Map<int, int>|
        #![trigger typed(s, Heights { at, end }, pending, known)]
        typed(s, Heights { at, end }, pending, known) && at_rest(s, Heights { at, end }, pending)
}

/// What an instruction is depends on its own bytes alone.
pub proof fn lemma_instruction_local(a: Seq<u8>, b: Seq<u8>, p: int)
    requires
        0 <= p < a.len(),
        p + instruction_len(opcode_of_byte(a[p])) <= a.len(),
        p + instruction_len(opcode_of_byte(a[p])) <= b.len(),
        forall|j: int| p <= j < p + instruction_len(opcode_of_byte(a[p])) ==> a[j] == b[j],
    ensures
        opcode_of_byte(b[p]) == opcode_of_byte(a[p]),
        operands_at(b, p) == operands_at(a, p),
{
    let op = opcode_of_byte(a[p]);
    let widths = operand_widths(op);
    lemma_instruction_len_bounds(op);
    reveal_with_fuel(width_sum, 3);
    reveal_with_fuel(decode_operands, 3);
    let ra = a.subrange(p + 1, a.len() as int);
    let rb = b.subrange(p + 1, b.len() as int);
    assert(a[p] == b[p]);
    assert forall|j: int| 0 <= j < instruction_len(op) - 1 implies ra[j] == rb[j] by {
        assert(a[p + 1 + j] == b[p + 1 + j]);
    }
    assert(operands_at(b, p) =~= operands_at(a, p));
}

/// Heights that fit still fit with a greater height at the end, with more
/// jumps waiting and with fewer heights known.
pub proof fn lemma_typed_weaken(
    s: ScopeModel,
    end: int,
    pending: Set<int>,
    known: Map<int, int>,
    more: int,
    waiting: Set<int>,
    fewer: Map<int, int>,
)
    requires
        typed_to(s, end, pending, known),
        more >= end,
        pending.subset_of(waiting),
        fewer.submap_of(known),
    ensures
        typed_to(s, more, waiting, fewer),
{
    let at = choose|at: Map<int, int>| #[trigger] typed(s, Heights { at, end }, pending, known);
    let hs = Heights { at, end };
    let ht = Heights { at, end: more };
    assert forall|p: int| #[trigger] ht.at.contains_key(p) implies is_start(s, p) && ht.holds_at(
        s.code,
        p,
        waiting,
    ) by {
        assert(hs.at.contains_key(p));
        assert(hs.holds_at(s.code, p, pending));
    }
    assert forall|p: int| #[trigger] fewer.contains_key(p) implies ht.at.contains_key(p)
        && ht.at[p] == fewer[p] by {
        assert(fewer.dom().contains(p));
        assert(known.contains_key(p));
    }
    assert(typed(s, ht, waiting, fewer));
}

/// Writing an instruction keeps the heights: the instruction has the
/// height that the buffer ended with, and the buffer ends with any height
/// that is no less than what the instruction leaves. A jump that is
/// written waits for its target. The buffer is at rest afterwards.
pub proof fn lemma_typed_emit(
    s: ScopeModel,
    op: Opcode,
    operands: Seq<usize>,
    line: usize,
    end: int,
    pending: Set<int>,
    known: Map<int, int>,
    after: int,
)
    requires
        s.inv(),
        typed_to(s, end, pending, known),
        is_defined(op),
        operands.len() >= operand_widths(op).len(),
        s.emit(op, operands, line).code.len() <= usize::MAX,
        after >= 0,
        falls_through(op) ==> after >= end + effect(
            op,
            operands_at(s.emit(op, operands, line).code, s.code.len() as int),
        ),
    ensures
        typed_rest(
            s.emit(op, operands, line),
            after,
            if jumps(op) {
                pending.insert(s.code.len() as int)
            } else {
                pending
            },
            known.insert(s.code.len() as int, end),
        ),
{
    let at = choose|at: Map<int, int>| #[trigger] typed(s, Heights { at, end }, pending, known);
    let hs = Heights { at, end };
    let t = s.emit(op, operands, line);
    let len = s.code.len() as int;
    let ht = Heights { at: at.insert(len, end), end: after };
    let waiting = if jumps(op) {
        pending.insert(len)
    } else {
        pending
    };
    let learnt = known.insert(len, end);
    lemma_emit(s, op, operands, line);
    lemma_instruction_len_bounds(op);
    let n = s.starts.len() as int;
    assert(t.starts[n] == len);
    assert(t.ok_at(n));
    assert forall|i: int| 0 <= i < t.starts.len() implies ht.at.contains_key(
        #[trigger] t.starts[i],
    ) by {
        if i < n {
            assert(t.starts[i] == s.starts[i]);
        }
    }
    assert forall|p: int| #[trigger] ht.at.contains_key(p) implies is_start(t, p) && ht.holds_at(
        t.code,
        p,
        waiting,
    ) && (jumps(opcode_of_byte(t.code[p])) && !waiting.contains(p) ==> operands_at(t.code, p)[0]
        <= len) by {
        if p == len {
            assert(t.starts[n] == p);
        } else {
            assert(hs.at.contains_key(p));
            assert(is_start(s, p));
            let i = choose|i: int| 0 <= i < s.starts.len() && #[trigger] s.starts[i] == p;
            assert(t.starts[i] == p);
            assert(s.ok_at(i));
            lemma_starts_increase(s, i, i);
            lemma_instruction_local(s.code, t.code, p);
            assert(hs.holds_at(s.code, p, pending));
            let q = opcode_of_byte(s.code[p]);
            let next = p + instruction_len(q);
            assert(next <= len);
            if jumps(q) && !waiting.contains(p) {
                let target = operands_at(s.code, p)[0] as int;
                if target != len {
                    assert(hs.at.contains_key(target));
                    assert(is_start(s, target));
                    let j = choose|j: int| 0 <= j < s.starts.len() && #[trigger] s.starts[j] == target;
                    lemma_starts_increase(s, j, j);
                }
            }
        }
    }
    assert(typed(t, ht, waiting, learnt));
    assert(at_rest(t, ht, waiting));
}

/// Taking the last instruction away keeps the heights of a buffer at
/// rest: the buffer then ends with the height that the instruction had.
pub proof fn lemma_typed_remove(
    s: ScopeModel,
    end: int,
    pending: Set<int>,
    known: Map<int, int>,
)
    requires
        s.inv(),
        s.starts.len() >= 1,
        s.prev_is_true(),
        typed_rest(s, end, pending, known),
        known.contains_key(s.last.position as int),
    ensures
        typed_to(
            s.remove_last(),
            known[s.last.position as int],
            pending,
            known.remove(s.last.position as int),
        ),
{
    let at = choose|at: Map<int, int>|
        #![trigger typed(s, Heights { at, end }, pending, known)]
        typed(s, Heights { at, end }, pending, known) && at_rest(s, Heights { at, end }, pending);
    let hs = Heights { at, end };
    let t = s.remove_last();
    let last = s.last.position as int;
    let n = s.starts.len() as int;
    let ht = Heights { at: at.remove(last), end: known[last] };
    lemma_remove_last(s);
    assert(s.starts[n - 1] == last);
    assert forall|i: int| 0 <= i < t.starts.len() implies ht.at.contains_key(
        #[trigger] t.starts[i],
    ) by {
        assert(t.starts[i] == s.starts[i]);
        lemma_starts_increase(s, i, n - 1);
        assert(s.ok_at(i));
        lemma_instruction_len_bounds(s.opcode_at(i));
    }
    assert forall|p: int| #[trigger] ht.at.contains_key(p) implies is_start(t, p) && ht.holds_at(
        t.code,
        p,
        pending,
    ) by {
        assert(hs.at.contains_key(p));
        let i = choose|i: int| 0 <= i < s.starts.len() && #[trigger] s.starts[i] == p;
        assert(i < n - 1);
        assert(t.starts[i] == p);
        assert(s.ok_at(i));
        lemma_starts_increase(s, i, n - 1);
        lemma_instruction_len_bounds(s.opcode_at(i));
        assert forall|j: int| p <= j < last implies s.code[j] == t.code[j] by {}
        lemma_instruction_local(s.code, t.code, p);
        assert(hs.holds_at(s.code, p, pending));
    }
    assert(typed(t, ht, pending, known.remove(last)));
}

/// Giving a waiting jump the end of the buffer as its target keeps the
/// heights, where the buffer ends with no less than the jump leaves.
pub proof fn lemma_typed_patch(
    s: ScopeModel,
    k: int,
    end: int,
    pending: Set<int>,
    known: Map<int, int>,
)
    requires
        s.inv(),
        0 <= k < s.starts.len(),
        s.is_jump(k),
        s.code.len() < 65536,
        typed_to(s, end, pending, known),
        known.contains_key(s.starts[k]),
        end >= known[s.starts[k]] + effect(s.opcode_at(k), Seq::<usize>::empty()),
    ensures
        typed_to(
            s.change_operand(s.starts[k], s.code.len() as usize),
            end,
            pending.remove(s.starts[k]),
            known,
        ),
{
    let at = choose|at: Map<int, int>| #[trigger] typed(s, Heights { at, end }, pending, known);
    let hs = Heights { at, end };
    let at_k = s.starts[k];
    let t = s.change_operand(at_k, s.code.len() as usize);
    lemma_change_operand(s, k, s.code.len() as usize);
    crate::code::definitions::lemma_instruction_lens();
    crate::code::definitions::lemma_encode_shape(s.opcode_at(k), seq![s.code.len() as usize]);
    assert(s.ok_at(k));
    lemma_starts_increase(s, k, k);
    reveal_with_fuel(width_sum, 3);
    reveal_with_fuel(decode_operands, 3);
    assert forall|p: int| #[trigger] hs.at.contains_key(p) implies is_start(t, p) && hs.holds_at(
        t.code,
        p,
        pending.remove(at_k),
    ) by {
        let i = choose|i: int| 0 <= i < s.starts.len() && #[trigger] s.starts[i] == p;
        assert(t.starts[i] == p);
        assert(s.ok_at(i));
        assert(t.opcode_at(i) == s.opcode_at(i));
        lemma_instruction_len_bounds(s.opcode_at(i));
        assert(hs.holds_at(s.code, p, pending));
        if i == k {
            assert(t.jump_target(k) == s.code.len());
            let rest = t.code.subrange(p + 1, t.code.len() as int);
            assert(rest[0] == t.code[p + 1]);
            assert(rest[1] == t.code[p + 2]);
            assert(operands_at(t.code, p)[0] == s.code.len());
            assert(operands_at(t.code, p).len() == 1);
        } else {
            if i < k {
                lemma_starts_increase(s, i, k);
            } else {
                lemma_starts_increase(s, k, i);
            }
            lemma_starts_increase(s, i, i);
            assert forall|j: int| p <= j < p + instruction_len(s.opcode_at(i)) implies s.code[j]
                == t.code[j] by {}
            lemma_instruction_local(s.code, t.code, p);
        }
    }
    assert(typed(t, hs, pending.remove(at_k), known));
}

/// The heights that are known are those of instructions of the buffer.
pub proof fn lemma_known_inside(s: ScopeModel, end: int, pending: Set<int>, known: Map<int, int>)
    requires
        s.inv(),
        typed_to(s, end, pending, known),
    ensures
        end >= 0,
        forall|p: int| #[trigger] known.contains_key(p) ==> 0 <= p < s.code.len(),
{
    let at = choose|at: Map<int, int>| #[trigger] typed(s, Heights { at, end }, pending, known);
    assert forall|p: int| #[trigger] known.contains_key(p) implies 0 <= p < s.code.len() by {
        assert(at.contains_key(p));
        let i = choose|i: int| 0 <= i < s.starts.len() && #[trigger] s.starts[i] == p;
        lemma_starts_increase(s, i, i);
    }
}

/// Whether the operand that says how many values an instruction takes
/// from the stack fits the bytes that it is written in.
pub open spec fn effect_fits(op: Opcode, operands: Seq<usize>) -> bool {
    match op {
        Opcode::Array | Opcode::Hash => operands[0] < 65536,
        Opcode::Call => operands[0] < 256,
        Opcode::Closure => operands[1] < 256,
        _ => true,
    }
}

/// An instruction that is written changes the height as its operands say,
/// where the operand that counts fits its bytes.
pub proof fn lemma_written_effect(s: ScopeModel, op: Opcode, operands: Seq<usize>, line: usize)
    requires
        s.inv(),
        is_defined(op),
        operands.len() >= operand_widths(op).len(),
        effect_fits(op, operands),
    ensures
        effect(op, operands_at(s.emit(op, operands, line).code, s.code.len() as int)) == effect(
            op,
            operands,
        ),
{
    let t = s.emit(op, operands, line);
    let len = s.code.len() as int;
    let bytes = crate::code::definitions::encode(op, operands);
    crate::code::definitions::lemma_encode_shape(op, operands);
    lemma_instruction_len_bounds(op);
    reveal_with_fuel(width_sum, 3);
    reveal_with_fuel(decode_operands, 3);
    reveal_with_fuel(encode_operands, 3);
    assert(t.code[len] == bytes[0]);
    let rest = t.code.subrange(len + 1, t.code.len() as int);
    if op == Opcode::Array || op == Opcode::Hash {
        assert(rest[0] == bytes[1]);
        assert(rest[1] == bytes[2]);
        assert(operands_at(t.code, len)[0] == operands[0]);
    } else if op == Opcode::Call {
        assert(rest[0] == bytes[1]);
        assert(operands_at(t.code, len)[0] == operands[0]);
    } else if op == Opcode::Closure {
        assert(rest[2] == bytes[3]);
        assert(operands_at(t.code, len)[1] == operands[1]);
    }
}

/// Whatever height the buffer `a` ended with, the buffer `b` ends with
/// `by` more, with the same jumps waiting and the same heights known.
#[verifier::opaque]
pub open spec fn keeps(a: ScopeModel, b: ScopeModel, by: int) -> bool {
    forall|h: int, pending: Set<int>, known: Map<int, int>| #[trigger]
        typed_to(a, h, pending, known) ==> typed_to(b, h + by, pending, known)
}

/// The buffer `t` is the buffer `s` with one instruction more, which has
/// the height that `s` ended with and leaves `by` more.
#[verifier::opaque]
pub open spec fn emitted(s: ScopeModel, t: ScopeModel, by: int) -> bool {
    forall|h: int, pending: Set<int>, known: Map<int, int>|
        #[trigger] typed_to(s, h, pending, known) && h + by >= 0 ==> typed_rest(
            t,
            h + by,
            pending,
            known.insert(s.code.len() as int, h),
        )
}

/// The buffer `b` is the buffer `a`, or it ends with the height that `a`
/// ended with, is at rest, and its last instruction has one more than
/// that height.
#[verifier::opaque]
pub open spec fn settles(a: ScopeModel, b: ScopeModel) -> bool {
    forall|h: int, pending: Set<int>, known: Map<int, int>| #[trigger]
        typed_to(a, h, pending, known) ==> b == a || typed_rest(
            b,
            h,
            pending,
            known.insert(b.last.position as int, h + 1),
        )
}

/// The heights that are known, with the height `h` for each of `jumps`.
pub open spec fn with_jumps(known: Map<int, int>, jumps: Set<int>, h: int) -> Map<int, int> {
    Map::new(
        |p: int| known.contains_key(p) || jumps.contains(p),
        |p: int|
            if jumps.contains(p) {
                h
            } else {
                known[p]
            },
    )
}

/// Whatever height the buffer `a` ended with, the buffer `b` ends with
/// `by` more, and the jumps at `jumps` wait for their targets with one more
/// than that height.
#[verifier::opaque]
pub open spec fn waits(a: ScopeModel, b: ScopeModel, by: int, jumps: Set<int>) -> bool {
    forall|h: int, pending: Set<int>, known: Map<int, int>| #[trigger]
        typed_to(a, h, pending, known) ==> typed_to(
            b,
            h + by,
            pending + jumps,
            with_jumps(known, jumps, h + 1),
        )
}

/// An instruction that is no jump, written at the end of a buffer, leaves
/// what its effect says.
pub proof fn lemma_emitted(s: ScopeModel, op: Opcode, operands: Seq<usize>, line: usize)
    requires
        s.inv(),
        is_defined(op),
        !jumps(op),
        operands.len() >= operand_widths(op).len(),
        effect_fits(op, operands),
        s.emit(op, operands, line).code.len() <= usize::MAX,
    ensures
        emitted(s, s.emit(op, operands, line), effect(op, operands)),
{
    reveal(emitted);
    let t = s.emit(op, operands, line);
    let by = effect(op, operands);
    lemma_written_effect(s, op, operands, line);
    assert forall|h: int, pending: Set<int>, known: Map<int, int>| #[trigger]
        typed_to(s, h, pending, known) && h + by >= 0 implies typed_rest(
        t,
        h + by,
        pending,
        known.insert(s.code.len() as int, h),
    ) by {
        lemma_typed_emit(s, op, operands, line, h, pending, known, h + by);
    }
}

/// A buffer keeps its height.
pub proof fn lemma_keeps_same(s: ScopeModel)
    ensures
        keeps(s, s, 0),
{
    reveal(keeps);
}

/// A buffer that ends with a height may be taken to end with a greater
/// one.
pub proof fn lemma_keeps_more(a: ScopeModel, b: ScopeModel, x: int, y: int)
    requires
        keeps(a, b, x),
        y >= x,
    ensures
        keeps(a, b, y),
{
    reveal(keeps);
    assert forall|h: int, pending: Set<int>, known: Map<int, int>| #[trigger]
        typed_to(a, h, pending, known) implies typed_to(b, h + y, pending, known) by {
        lemma_typed_weaken(b, h + x, pending, known, h + y, pending, known);
    }
}

/// Heights add up from buffer to buffer.
pub proof fn lemma_keeps_chain(a: ScopeModel, b: ScopeModel, c: ScopeModel, x: int, y: int)
    requires
        keeps(a, b, x),
        keeps(b, c, y),
    ensures
        keeps(a, c, x + y),
{
    reveal(keeps);
    assert forall|h: int, pending: Set<int>, known: Map<int, int>| #[trigger]
        typed_to(a, h, pending, known) implies typed_to(c, h + x + y, pending, known) by {
        assert(typed_to(b, h + x, pending, known));
    }
}

/// An instruction written behind what came before adds its effect.
pub proof fn lemma_keeps_emitted(a: ScopeModel, m: ScopeModel, b: ScopeModel, x: int, y: int)
    requires
        a.inv(),
        m.inv(),
        keeps(a, m, x),
        emitted(m, b, y),
        x + y >= 0,
    ensures
        keeps(a, b, x + y),
{
    reveal(keeps);
    reveal(emitted);
    assert forall|h: int, pending: Set<int>, known: Map<int, int>| #[trigger]
        typed_to(a, h, pending, known) implies typed_to(b, h + x + y, pending, known) by {
        lemma_known_inside(a, h, pending, known);
        assert(typed_to(m, h + x, pending, known));
        lemma_known_inside(m, h + x, pending, known);
        let learnt = known.insert(m.code.len() as int, h + x);
        assert(typed_rest(b, h + x + y, pending, learnt));
        assert(known.submap_of(learnt));
        lemma_typed_weaken(b, h + x + y, pending, learnt, h + x + y, pending, known);
    }
}

/// A buffer settles as itself.
pub proof fn lemma_settles_same(s: ScopeModel)
    ensures
        settles(s, s),
{
    reveal(settles);
}

/// An expression and an instruction behind it that takes its value make
/// a statement.
pub proof fn lemma_settles_emitted(a: ScopeModel, m: ScopeModel, b: ScopeModel)
    requires
        a.inv(),
        m.inv(),
        keeps(a, m, 1),
        emitted(m, b, -1),
        b.last.position == m.code.len(),
    ensures
        settles(a, b),
{
    reveal(keeps);
    reveal(emitted);
    reveal(settles);
    assert forall|h: int, pending: Set<int>, known: Map<int, int>| #[trigger]
        typed_to(a, h, pending, known) implies typed_rest(
        b,
        h,
        pending,
        known.insert(b.last.position as int, h + 1),
    ) by {
        lemma_known_inside(a, h, pending, known);
        assert(typed_to(m, h + 1, pending, known));
    }
}

/// Statements one after the other make a statement.
pub proof fn lemma_settles_chain(a: ScopeModel, b: ScopeModel, c: ScopeModel)
    requires
        a.inv(),
        settles(a, b),
        settles(b, c),
        b == a || b.last.position >= a.code.len(),
    ensures
        settles(a, c),
{
    reveal(settles);
    assert forall|h: int, pending: Set<int>, known: Map<int, int>| #[trigger]
        typed_to(a, h, pending, known) implies c == a || typed_rest(
        c,
        h,
        pending,
        known.insert(c.last.position as int, h + 1),
    ) by {
        if b != a {
            lemma_known_inside(a, h, pending, known);
            let learnt = known.insert(b.last.position as int, h + 1);
            assert(typed_rest(b, h, pending, learnt));
            assert(known.submap_of(learnt));
            lemma_typed_weaken(b, h, pending, learnt, h, pending, known);
            assert(typed_to(b, h, pending, known));
        }
    }
}

/// A step without jumps that wait is a step that keeps the heights, and
/// the other way round.
pub proof fn lemma_waits_none(a: ScopeModel, b: ScopeModel, by: int)
    ensures
        waits(a, b, by, Set::<int>::empty()) <==> keeps(a, b, by),
{
    reveal(waits);
    reveal(keeps);
    let none = Set::<int>::empty();
    assert forall|pending: Set<int>, known: Map<int, int>, h: int|
        #![trigger with_jumps(known, none, h), pending + none]
        pending + none == pending && with_jumps(known, none, h) == known by {
        assert(pending + none =~= pending);
        assert(with_jumps(known, none, h) =~= known);
    }
    if waits(a, b, by, none) {
        assert forall|h: int, pending: Set<int>, known: Map<int, int>| #[trigger]
            typed_to(a, h, pending, known) implies typed_to(b, h + by, pending, known) by {
            assert(typed_to(b, h + by, pending + none, with_jumps(known, none, h + 1)));
        }
    }
    if keeps(a, b, by) {
        assert forall|h: int, pending: Set<int>, known: Map<int, int>| #[trigger]
            typed_to(a, h, pending, known) implies typed_to(
            b,
            h + by,
            pending + none,
            with_jumps(known, none, h + 1),
        ) by {
            assert(typed_to(b, h + by, pending, known));
            assert(pending + none == pending);
            assert(with_jumps(known, none, h + 1) == known);
        }
    }
}

/// A jump written behind an expression waits for its target with the
/// height that the expression left. `JumpIfFalse` takes the expression's
/// value; after `Jump` the buffer goes on with the height from before the
/// expression.
pub proof fn lemma_waits_jump(
    a: ScopeModel,
    s: ScopeModel,
    op: Opcode,
    line: usize,
    waiting: Set<int>,
)
    requires
        s.inv(),
        waits(a, s, 1, waiting),
        jumps(op),
        s.emit(op, seq![0xFFFFusize], line).code.len() <= usize::MAX,
    ensures
        waits(a, s.emit(op, seq![0xFFFFusize], line), 0, waiting.insert(s.code.len() as int)),
{
    reveal(waits);
    let t = s.emit(op, seq![0xFFFFusize], line);
    let len = s.code.len() as int;
    assert forall|h: int, pending: Set<int>, known: Map<int, int>| #[trigger]
        typed_to(a, h, pending, known) implies typed_to(
        t,
        h,
        pending + waiting.insert(len),
        with_jumps(known, waiting.insert(len), h + 1),
    ) by {
        let p1 = pending + waiting;
        let k1 = with_jumps(known, waiting, h + 1);
        assert(typed_to(s, h + 1, p1, k1));
        lemma_known_inside(s, h + 1, p1, k1);
        lemma_typed_emit(s, op, seq![0xFFFFusize], line, h + 1, p1, k1, h);
        assert(p1.insert(len) =~= pending + waiting.insert(len));
        assert(k1.insert(len, h + 1) =~= with_jumps(known, waiting.insert(len), h + 1));
    }
}

/// A block behind jumps that wait: its statements, and its last `Pop`
/// taken away where it ends with one, leave one value more.
pub proof fn lemma_waits_block(
    a: ScopeModel,
    x: ScopeModel,
    s: ScopeModel,
    waiting: Set<int>,
)
    requires
        a.inv(),
        x.inv(),
        s.inv(),
        waits(a, x, 0, waiting),
        settles(x, s),
        !x.last_is(Opcode::Pop),
        s == x || (s.starts.len() >= 1 && s.prev_is_true() && s.last.position >= x.code.len()),
    ensures
        waits(
            a,
            if s.last_is(Opcode::Pop) {
                s.remove_last()
            } else {
                s
            },
            1,
            waiting,
        ),
{
    reveal(waits);
    reveal(settles);
    let t = if s.last_is(Opcode::Pop) {
        s.remove_last()
    } else {
        s
    };
    assert forall|h: int, pending: Set<int>, known: Map<int, int>| #[trigger]
        typed_to(a, h, pending, known) implies typed_to(
        t,
        h + 1,
        pending + waiting,
        with_jumps(known, waiting, h + 1),
    ) by {
        let p1 = pending + waiting;
        let k1 = with_jumps(known, waiting, h + 1);
        assert(typed_to(x, h, p1, k1));
        lemma_known_inside(x, h, p1, k1);
        if s == x {
            lemma_typed_weaken(x, h, p1, k1, h + 1, p1, k1);
        } else {
            let last = s.last.position as int;
            let learnt = k1.insert(last, h + 1);
            assert(typed_rest(s, h, p1, learnt));
            if s.last_is(Opcode::Pop) {
                lemma_typed_remove(s, h, p1, learnt);
                assert(k1.submap_of(learnt.remove(last)));
                lemma_typed_weaken(t, h + 1, p1, learnt.remove(last), h + 1, p1, k1);
            } else {
                assert(k1.submap_of(learnt));
                lemma_typed_weaken(s, h, p1, learnt, h + 1, p1, k1);
            }
        }
    }
}

/// An instruction written behind jumps that wait adds its effect.
pub proof fn lemma_waits_emitted(
    a: ScopeModel,
    s: ScopeModel,
    t: ScopeModel,
    by: int,
    more: int,
    waiting: Set<int>,
)
    requires
        a.inv(),
        s.inv(),
        waits(a, s, by, waiting),
        emitted(s, t, more),
        by + more >= 0,
    ensures
        waits(a, t, by + more, waiting),
{
    reveal(waits);
    reveal(emitted);
    assert forall|h: int, pending: Set<int>, known: Map<int, int>| #[trigger]
        typed_to(a, h, pending, known) implies typed_to(
        t,
        h + by + more,
        pending + waiting,
        with_jumps(known, waiting, h + 1),
    ) by {
        let p1 = pending + waiting;
        let k1 = with_jumps(known, waiting, h + 1);
        lemma_known_inside(a, h, pending, known);
        assert(typed_to(s, h + by, p1, k1));
        lemma_known_inside(s, h + by, p1, k1);
        let learnt = k1.insert(s.code.len() as int, h + by);
        assert(typed_rest(t, h + by + more, p1, learnt));
        assert(k1.submap_of(learnt));
        lemma_typed_weaken(t, h + by + more, p1, learnt, h + by + more, p1, k1);
    }
}

/// A jump that waits gets the end of the buffer as its target, where the
/// buffer ends with what the jump leaves: the height from before the
/// expression for `JumpIfFalse`, one more for `Jump`.
pub proof fn lemma_waits_patch(
    a: ScopeModel,
    s: ScopeModel,
    k: int,
    by: int,
    waiting: Set<int>,
)
    requires
        a.inv(),
        s.inv(),
        waits(a, s, by, waiting),
        0 <= k < s.starts.len(),
        s.is_jump(k),
        waiting.contains(s.starts[k]),
        s.starts[k] >= a.code.len(),
        s.code.len() < 65536,
        by >= 1 + effect(s.opcode_at(k), Seq::<usize>::empty()),
    ensures
        waits(
            a,
            s.change_operand(s.starts[k], s.code.len() as usize),
            by,
            waiting.remove(s.starts[k]),
        ),
{
    reveal(waits);
    let pos = s.starts[k];
    let t = s.change_operand(pos, s.code.len() as usize);
    assert forall|h: int, pending: Set<int>, known: Map<int, int>| #[trigger]
        typed_to(a, h, pending, known) implies typed_to(
        t,
        h + by,
        pending + waiting.remove(pos),
        with_jumps(known, waiting.remove(pos), h + 1),
    ) by {
        let p1 = pending + waiting;
        let k1 = with_jumps(known, waiting, h + 1);
        lemma_known_inside(a, h, pending, known);
        assert(typed_to(s, h + by, p1, k1));
        assert(k1.contains_key(pos));
        lemma_typed_patch(s, k, h + by, p1, k1);
        let k2 = with_jumps(known, waiting.remove(pos), h + 1);
        assert(k2.submap_of(k1));
        assert(p1.remove(pos).subset_of(pending + waiting.remove(pos)));
        lemma_typed_weaken(t, h + by, p1.remove(pos), k1, h + by, pending + waiting.remove(pos), k2);
    }
}

/// A buffer that was filled from nothing by statements is balanced.
pub proof fn lemma_settled_balanced(s: ScopeModel)
    requires
        s.inv(),
        settles(ScopeModel::empty(), s),
    ensures
        balanced_code(s.code),
{
    reveal(settles);
    let none = Set::<int>::empty();
    let nothing = Map::<int, int>::empty();
    let blank = ScopeModel::empty();
    assert(typed(blank, Heights { at: nothing, end: 0 }, none, nothing));
    assert(typed_to(blank, 0, none, nothing));
    if s == blank {
        let hs = Heights { at: nothing, end: 0 };
        assert(hs.balanced(s.code));
    } else {
        let known = nothing.insert(s.last.position as int, 1);
        assert(typed_rest(s, 0, none, known));
        let at = choose|at: Map<int, int>|
            #![trigger typed(s, Heights { at, end: 0 }, none, known)]
            typed(s, Heights { at, end: 0 }, none, known) && at_rest(
                s,
                Heights { at, end: 0 },
                none,
            );
        let hs = Heights { at, end: 0 };
        assert forall|p: int| #[trigger] hs.at.contains_key(p) implies 0 <= p < s.code.len()
            && hs.holds_at(s.code, p, none) by {
            let i = choose|i: int| 0 <= i < s.starts.len() && #[trigger] s.starts[i] == p;
            lemma_starts_increase(s, i, i);
        }
        if s.code.len() > 0 {
            assert(s.starts[0] == 0);
            assert(hs.at.contains_key(s.starts[0]));
        }
        assert(hs.balanced(s.code));
    }
}

} // verus!
