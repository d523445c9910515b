//! The instruction buffer of one function body under compilation, with the
//! record of the last instructions written to it, and what the contracts
//! say of it.

use vstd::prelude::*;

use crate::code::definitions::{
    decode_operand,
    encode,
    instruction_len,
    is_defined,
    lemma_instruction_len_bounds,
    make,
    Instructions,
};
use crate::code::opcode::{
    byte_of_opcode,
    opcode_of_byte,
    Opcode,
};

verus! {

/// An instruction that was written: its opcode and the offset of its first
/// byte.
#[derive(Debug, Clone, Copy, PartialEq, Eq, Structural)]
pub struct EmittedInstruction {
    pub opcode: Opcode,
    pub position: usize,
}

impl EmittedInstruction {
    pub fn new(opcode: Opcode, position: usize) -> (ins: EmittedInstruction)
        ensures
            ins == (EmittedInstruction { opcode, position }),
    {
        EmittedInstruction { opcode, position }
    }
}

impl Default for EmittedInstruction {
    fn default() -> (ins: EmittedInstruction)
        ensures
            ins == (EmittedInstruction { opcode: Opcode::Invalid, position: 0 }),
    {
        EmittedInstruction { opcode: Opcode::Invalid, position: 0 }
    }
}

/// What the contracts say of a scope's buffer: the bytes and their lines,
/// the last instruction and the one before it as they were recorded, and
/// the offsets at which the instructions start.
pub struct ScopeModel {
    pub code: Seq<u8>,
    pub lines: Seq<usize>,
    pub last: EmittedInstruction,
    pub prev: EmittedInstruction,
    pub starts: Seq<int>,
}

/// The bytes of `code` with `bytes` written over them from `at` on.
pub open spec fn overwritten(code: Seq<u8>, at: int, bytes: Seq<u8>) -> Seq<u8> {
    Seq::new(
        code.len(),
        |i: int|
            if at <= i < at + bytes.len() {
                bytes[i - at]
            } else {
                code[i]
            },
    )
}

impl ScopeModel {
    /// An empty buffer.
    pub open spec fn empty() -> ScopeModel {
        ScopeModel {
            code: Seq::empty(),
            lines: Seq::empty(),
            last: EmittedInstruction { opcode: Opcode::Invalid, position: 0 },
            prev: EmittedInstruction { opcode: Opcode::Invalid, position: 0 },
            starts: Seq::empty(),
        }
    }

    /// The number of instructions in the buffer.
    pub open spec fn count(self) -> int {
        self.starts.len() as int
    }

    /// The opcode of instruction number `i`.
    pub open spec fn opcode_at(self, i: int) -> Opcode {
        opcode_of_byte(self.code[self.starts[i]])
    }

    /// Where instruction number `i` ends.
    pub open spec fn end_of(self, i: int) -> int {
        if i + 1 < self.starts.len() {
            self.starts[i + 1]
        } else {
            self.code.len() as int
        }
    }

    /// Instruction number `i` lies in the buffer, has a defined opcode and
    /// ends where the next one starts, or where the buffer ends.
    pub open spec fn ok_at(self, i: int) -> bool {
        &&& 0 <= self.starts[i] < self.code.len()
        &&& is_defined(self.opcode_at(i))
        &&& self.starts[i] + instruction_len(self.opcode_at(i)) == self.end_of(i)
    }

    /// The buffer is sound: every byte has its line, the instructions stand
    /// one after the other from the first byte to the last, each with a
    /// defined opcode and all its operands, and the record of the last
    /// instruction is true.
    pub open spec fn inv(self) -> bool {
        &&& self.code.len() == self.lines.len()
        &&& self.code.len() <= usize::MAX
        &&& (self.starts.len() == 0 <==> self.code.len() == 0)
        &&& self.starts.len() > 0 ==> self.starts[0] == 0
        &&& forall|i: int| 0 <= i < self.starts.len() ==> #[trigger] self.ok_at(i)
        &&& self.starts.len() > 0 ==> self.last.position == self.starts.last()
            && self.last.opcode == self.opcode_at(self.starts.len() - 1)
    }

    /// The record of the instruction before the last is true.
    pub open spec fn prev_is_true(self) -> bool {
        self.starts.len() > 1 ==> self.prev.position == self.starts[self.starts.len() - 2]
            && self.prev.opcode == self.opcode_at(self.starts.len() - 2)
    }

    /// Whether instruction number `i` is a jump.
    pub open spec fn is_jump(self, i: int) -> bool {
        self.opcode_at(i) == Opcode::Jump || self.opcode_at(i) == Opcode::JumpIfFalse
    }

    /// The target of the jump that is instruction number `i`.
    pub open spec fn jump_target(self, i: int) -> int {
        decode_operand(2, self.code, self.starts[i] + 1) as int
    }

    /// Every jump among the instructions from number `from` on goes to
    /// `limit` at the furthest.
    pub open spec fn jumps_within(self, from: int, limit: int) -> bool {
        forall|i: int|
            from <= i < self.starts.len() && #[trigger] self.is_jump(i) ==> self.jump_target(i)
                <= limit
    }

    /// Every jump among the instructions from number `from` on, but for
    /// those whose numbers are in `pending`, goes to `limit` at the furthest.
    /// The jumps in `pending` wait for their targets.
    pub open spec fn jumps_within_except(self, from: int, limit: int, pending: Set<int>) -> bool {
        forall|i: int|
            from <= i < self.starts.len() && #[trigger] self.is_jump(i) && !pending.contains(i)
                ==> self.jump_target(i) <= limit
    }

    /// Something was written from instruction number `from` on and has come
    /// to rest: the record of the instruction before the last is true, and
    /// every jump from number `from` on goes to the start of the last
    /// instruction at the furthest.
    pub open spec fn settled_from(self, from: int) -> bool {
        &&& self.starts.len() > from
        &&& self.prev_is_true()
        &&& self.jumps_within(from, self.starts.last())
    }

    /// This buffer goes on from `before`: what `before` held is still
    /// there, byte for byte and instruction for instruction.
    pub open spec fn extends(self, before: ScopeModel) -> bool {
        &&& before.code.len() <= self.code.len()
        &&& before.lines.len() <= self.lines.len()
        &&& before.starts.len() <= self.starts.len()
        &&& self.code.take(before.code.len() as int) == before.code
        &&& self.lines.take(before.lines.len() as int) == before.lines
        &&& self.starts.take(before.starts.len() as int) == before.starts
    }

    /// Whether the buffer holds something and the last instruction recorded
    /// has this opcode.
    pub open spec fn last_is(self, op: Opcode) -> bool {
        self.code.len() > 0 && self.last.opcode == op
    }

    /// The buffer after the instruction that `make` builds is written at its
    /// end and recorded as the last.
    pub open spec fn emit(self, op: Opcode, operands: Seq<usize>, line: usize) -> ScopeModel {
        let bytes = encode(op, operands);
        ScopeModel {
            code: self.code + bytes,
            lines: self.lines + Seq::new(bytes.len(), |i: int| line),
            last: EmittedInstruction { opcode: op, position: self.code.len() as usize },
            prev: self.last,
            starts: if bytes.len() > 0 {
                self.starts.push(self.code.len() as int)
            } else {
                self.starts
            },
        }
    }

    /// The buffer cut off where the last instruction starts; the
    /// instruction before it is recorded as the last.
    pub open spec fn remove_last(self) -> ScopeModel {
        ScopeModel {
            code: self.code.take(self.last.position as int),
            lines: self.lines.take(self.last.position as int),
            last: self.prev,
            prev: self.prev,
            starts: self.starts.drop_last(),
        }
    }

    /// The buffer with `ReturnValue` in the place of the last instruction's
    /// opcode.
    pub open spec fn replace_last_with_return(self) -> ScopeModel {
        ScopeModel {
            code: self.code.update(
                self.last.position as int,
                byte_of_opcode(Opcode::ReturnValue),
            ),
            last: EmittedInstruction {
                opcode: Opcode::ReturnValue,
                position: self.last.position,
            },
            ..self
        }
    }

    /// The buffer with the instruction at `at` written anew with `operand`
    /// as its one operand.
    pub open spec fn change_operand(self, at: int, operand: usize) -> ScopeModel {
        ScopeModel {
            code: overwritten(
                self.code,
                at,
                encode(opcode_of_byte(self.code[at]), seq![operand]),
            ),
            ..self
        }
    }
}

/// The instructions of a sound buffer start one behind the other, and
/// each ends within the buffer.
pub proof fn lemma_starts_increase(s: ScopeModel, i: int, j: int)
    requires
        s.inv(),
        0 <= i <= j < s.starts.len(),
    ensures
        0 <= s.starts[i] <= s.starts[j] < s.code.len(),
        i < j ==> s.end_of(i) <= s.starts[j],
        s.end_of(j) <= s.code.len(),
        s.starts[i] < s.end_of(i),
    decreases j - i,
{
    assert(s.ok_at(i));
    assert(s.ok_at(j));
    crate::code::definitions::lemma_instruction_len_bounds(s.opcode_at(i));
    crate::code::definitions::lemma_instruction_len_bounds(s.opcode_at(j));
    if j + 1 < s.starts.len() {
        assert(s.ok_at(j + 1));
    }
    if i < j {
        lemma_starts_increase(s, i + 1, j);
    }
}

/// What a buffer held ends at the latest where the instruction starts that
/// came right behind it in a buffer that goes on from it.
pub proof fn lemma_extends_bound(before: ScopeModel, after: ScopeModel)
    requires
        before.inv(),
        after.inv(),
        after.extends(before),
        before.starts.len() < after.starts.len(),
    ensures
        before.code.len() == after.starts[before.starts.len() as int],
{
    let m = before.starts.len() as int;
    assert(after.ok_at(m));
    if m == 0 {
        assert(after.starts[0] == 0);
    } else {
        assert(before.ok_at(m - 1));
        assert(after.ok_at(m - 1));
        assert(after.starts.take(m)[m - 1] == after.starts[m - 1]);
        assert(after.code.take(before.code.len() as int)[before.starts[m - 1]] == after.code[
            before.starts[m - 1]
        ]);
    }
}

/// In a buffer that goes on from a sound one, the instructions of the
/// earlier buffer are what they were.
pub proof fn lemma_extends_keeps(before: ScopeModel, after: ScopeModel, i: int)
    requires
        before.inv(),
        after.extends(before),
        0 <= i < before.starts.len(),
    ensures
        after.starts[i] == before.starts[i],
        after.opcode_at(i) == before.opcode_at(i),
        before.is_jump(i) ==> after.jump_target(i) == before.jump_target(i),
{
    assert(after.starts.take(before.starts.len() as int)[i] == after.starts[i]);
    lemma_starts_increase(before, i, i);
    let p = before.starts[i];
    assert(after.code.take(before.code.len() as int)[p] == after.code[p]);
    if before.is_jump(i) {
        crate::code::definitions::lemma_instruction_lens();
        assert(before.ok_at(i));
        assert(after.code.take(before.code.len() as int)[p + 1] == after.code[p + 1]);
        assert(after.code.take(before.code.len() as int)[p + 2] == after.code[p + 2]);
    }
}

/// Going on is transitive.
pub proof fn lemma_extends_transitive(a: ScopeModel, b: ScopeModel, c: ScopeModel)
    requires
        b.extends(a),
        c.extends(b),
    ensures
        c.extends(a),
{
    assert(c.code.take(a.code.len() as int) =~= a.code) by {
        assert forall|j: int| 0 <= j < a.code.len() implies c.code[j] == a.code[j] by {
            assert(b.code.take(a.code.len() as int)[j] == b.code[j]);
            assert(c.code.take(b.code.len() as int)[j] == c.code[j]);
        }
    }
    assert(c.lines.take(a.lines.len() as int) =~= a.lines) by {
        assert forall|j: int| 0 <= j < a.lines.len() implies c.lines[j] == a.lines[j] by {
            assert(b.lines.take(a.lines.len() as int)[j] == b.lines[j]);
            assert(c.lines.take(b.lines.len() as int)[j] == c.lines[j]);
        }
    }
    assert(c.starts.take(a.starts.len() as int) =~= a.starts) by {
        assert forall|j: int| 0 <= j < a.starts.len() implies c.starts[j] == a.starts[j] by {
            assert(b.starts.take(a.starts.len() as int)[j] == b.starts[j]);
            assert(c.starts.take(b.starts.len() as int)[j] == c.starts[j]);
        }
    }
}

/// Jumps that stayed within a limit in a buffer stay within every further
/// limit in a buffer that goes on from it, where the jumps that came with
/// going on do so.
pub proof fn lemma_jumps_carry(
    b: ScopeModel,
    c: ScopeModel,
    from: int,
    limit: int,
    further: int,
)
    requires
        b.inv(),
        c.extends(b),
        0 <= from,
        limit <= further,
        b.jumps_within(from, limit),
        c.jumps_within(b.count(), further),
    ensures
        c.jumps_within(from, further),
{
    assert forall|i: int| from <= i < c.starts.len() && #[trigger] c.is_jump(i) implies
        c.jump_target(i) <= further by {
        if i < b.starts.len() {
            lemma_extends_keeps(b, c, i);
            assert(b.is_jump(i));
        }
    }
}

/// What holds of a buffer `t` that is `s` with one more instruction at its
/// end: `t` is sound, keeps what `s` held, has both records true, and the
/// new instruction is its last.
pub proof fn lemma_appended(s: ScopeModel, t: ScopeModel, op: Opcode, bytes: Seq<u8>)
    requires
        s.inv(),
        is_defined(op),
        bytes.len() == instruction_len(op),
        1 <= bytes.len() <= 4,
        opcode_of_byte(bytes[0]) == op,
        s.code.len() + bytes.len() <= usize::MAX,
        t.code == s.code + bytes,
        t.lines.len() == t.code.len(),
        t.lines.take(s.lines.len() as int) == s.lines,
        t.starts == s.starts.push(s.code.len() as int),
        t.last == (EmittedInstruction { opcode: op, position: s.code.len() as usize }),
        t.prev == s.last,
    ensures
        t.inv(),
        t.extends(s),
        t.prev_is_true(),
        t.opcode_at(s.starts.len() as int) == op,
{
    let n = s.starts.len() as int;
    assert(t.code.take(s.code.len() as int) =~= s.code);
    assert(t.starts.take(s.starts.len() as int) =~= s.starts);
    assert(t.code[s.code.len() as int] == bytes[0]);
    assert(t.extends(s));
    assert forall|i: int| 0 <= i < t.starts.len() implies #[trigger] t.ok_at(i) by {
        if i < n {
            assert(s.ok_at(i));
            lemma_extends_keeps(s, t, i);
        }
    }
    if n > 0 {
        lemma_extends_keeps(s, t, n - 1);
        assert(s.starts[0] == 0);
        assert(t.starts[0] == s.starts[0]);
    }
}

/// Writing an instruction with all its operands keeps the buffer sound,
/// keeps what it held, and leaves both records true.
pub proof fn lemma_emit(s: ScopeModel, op: Opcode, operands: Seq<usize>, line: usize)
    requires
        s.inv(),
        is_defined(op),
        operands.len() >= crate::code::definitions::operand_widths(op).len(),
        s.emit(op, operands, line).code.len() <= usize::MAX,
    ensures
        s.emit(op, operands, line).inv(),
        s.emit(op, operands, line).extends(s),
        s.emit(op, operands, line).prev_is_true(),
        s.emit(op, operands, line).starts == s.starts.push(s.code.len() as int),
        s.emit(op, operands, line).code.len() == s.code.len() + instruction_len(op),
        s.emit(op, operands, line).opcode_at(s.starts.len() as int) == op,
{
    let t = s.emit(op, operands, line);
    let bytes = encode(op, operands);
    crate::code::definitions::lemma_encode_shape(op, operands);
    assert(t.lines.take(s.lines.len() as int) =~= s.lines);
    lemma_appended(s, t, op, bytes);
}

/// Cutting the last instruction off keeps the buffer sound; what is left is
/// what the buffer held before that instruction.
pub proof fn lemma_remove_last(s: ScopeModel)
    requires
        s.inv(),
        s.starts.len() >= 1,
        s.prev_is_true(),
    ensures
        s.remove_last().inv(),
        s.remove_last().starts == s.starts.drop_last(),
        s.remove_last().code.len() == s.starts.last(),
        s.extends(s.remove_last()),
{
    let t = s.remove_last();
    let n = s.starts.len() as int;
    lemma_starts_increase(s, n - 1, n - 1);
    assert(t.code.len() == s.starts.last());
    assert(s.code.take(t.code.len() as int) =~= t.code);
    assert(s.lines.take(t.lines.len() as int) =~= t.lines);
    assert(s.starts.take(t.starts.len() as int) =~= t.starts);
    assert forall|i: int| 0 <= i < t.starts.len() implies #[trigger] t.ok_at(i) by {
        assert(s.ok_at(i));
        lemma_starts_increase(s, i, n - 1);
    }
    if n == 1 {
        assert(s.starts[0] == 0);
    } else {
        lemma_starts_increase(s, 0, n - 1);
        lemma_starts_increase(s, n - 2, n - 1);
        assert(t.starts[0] == s.starts[0]);
    }
}

/// A buffer that the whole went on from, and that held fewer instructions,
/// is one that the part also goes on from, where the part is the whole
/// without its last instruction or with only its bytes from the last
/// instruction on changed.
pub proof fn lemma_part_extends(s: ScopeModel, t: ScopeModel, before: ScopeModel, k: int)
    requires
        s.inv(),
        before.inv(),
        s.extends(before),
        before.starts.len() <= k < s.starts.len(),
        t.lines.len() >= s.starts[k],
        t.code.len() >= s.starts[k],
        t.starts.len() >= k,
        t.code.take(s.starts[k]) == s.code.take(s.starts[k]),
        t.lines.take(s.starts[k]) == s.lines.take(s.starts[k]),
        t.starts.take(k) == s.starts.take(k),
    ensures
        t.extends(before),
{
    let m = before.starts.len() as int;
    let p = s.starts[k];
    lemma_starts_increase(s, k, k);
    lemma_extends_bound(before, s);
    lemma_starts_increase(s, m, k);
    assert(before.code.len() <= p);
    assert(p <= s.code.len());
    assert(s.lines.len() == s.code.len());
    assert(before.lines.len() == before.code.len());
    assert(t.code.take(before.code.len() as int) =~= before.code) by {
        assert forall|j: int| 0 <= j < before.code.len() implies t.code[j] == before.code[j] by {
            assert(s.code.take(before.code.len() as int)[j] == s.code[j]);
            assert(t.code.take(p)[j] == t.code[j]);
            assert(s.code.take(p)[j] == s.code[j]);
        }
    }
    assert(t.lines.take(before.lines.len() as int) =~= before.lines) by {
        assert forall|j: int| 0 <= j < before.lines.len() implies t.lines[j]
            == before.lines[j] by {
            assert(s.lines.take(before.lines.len() as int)[j] == s.lines[j]);
            assert(t.lines.take(p)[j] == t.lines[j]);
            assert(s.lines.take(p)[j] == s.lines[j]);
        }
    }
    assert(t.starts.take(m) =~= before.starts) by {
        assert forall|j: int| 0 <= j < m implies t.starts[j] == before.starts[j] by {
            assert(s.starts.take(m)[j] == s.starts[j]);
            assert(t.starts.take(k)[j] == t.starts[j]);
            assert(s.starts.take(k)[j] == s.starts[j]);
        }
    }
}

/// Putting `ReturnValue` in the place of a last instruction that is `Pop`
/// keeps the buffer sound and the instructions before it as they were.
pub proof fn lemma_replace_last_with_return(s: ScopeModel)
    requires
        s.inv(),
        s.starts.len() >= 1,
        s.last.opcode == Opcode::Pop,
    ensures
        s.replace_last_with_return().inv(),
        s.replace_last_with_return().starts == s.starts,
        s.replace_last_with_return().lines == s.lines,
        s.replace_last_with_return().code.len() == s.code.len(),
        s.replace_last_with_return().code.take(s.starts.last()) == s.code.take(s.starts.last()),
        s.replace_last_with_return().opcode_at(s.starts.len() - 1) == Opcode::ReturnValue,
        forall|i: int|
            0 <= i < s.starts.len() - 1 ==> #[trigger] s.replace_last_with_return().opcode_at(i)
                == s.opcode_at(i),
        forall|i: int|
            0 <= i < s.starts.len() - 1 && s.is_jump(i)
                ==> #[trigger] s.replace_last_with_return().jump_target(i) == s.jump_target(i),
{
    let t = s.replace_last_with_return();
    let n = s.starts.len() as int;
    crate::code::definitions::lemma_instruction_lens();
    let p = s.starts[n - 1];
    assert(s.ok_at(n - 1));
    assert(p + 1 == s.code.len());
    assert(t.code.take(p) =~= s.code.take(p));
    assert forall|i: int| 0 <= i < n - 1 implies #[trigger] t.opcode_at(i) == s.opcode_at(i) by {
        lemma_starts_increase(s, i, n - 1);
    }
    assert forall|i: int| 0 <= i < t.starts.len() implies #[trigger] t.ok_at(i) by {
        assert(s.ok_at(i));
        if i < n - 1 {
            assert(t.opcode_at(i) == s.opcode_at(i));
        }
    }
    assert forall|i: int| 0 <= i < n - 1 && s.is_jump(i) implies #[trigger] t.jump_target(i)
        == s.jump_target(i) by {
        assert(s.ok_at(i));
        lemma_starts_increase(s, i, n - 1);
    }
}

/// Writing a jump anew with another target keeps the buffer sound. The jump
/// then goes to the target, as far as two bytes hold it, and every other
/// instruction is what it was.
pub proof fn lemma_change_operand(s: ScopeModel, k: int, operand: usize)
    requires
        s.inv(),
        0 <= k < s.starts.len(),
        s.is_jump(k),
    ensures
        s.change_operand(s.starts[k], operand).inv(),
        s.change_operand(s.starts[k], operand).starts == s.starts,
        s.change_operand(s.starts[k], operand).code.len() == s.code.len(),
        s.change_operand(s.starts[k], operand).lines == s.lines,
        s.change_operand(s.starts[k], operand).last == s.last,
        s.change_operand(s.starts[k], operand).prev == s.prev,
        s.change_operand(s.starts[k], operand).code.take(s.starts[k]) == s.code.take(s.starts[k]),
        s.change_operand(s.starts[k], operand).jump_target(k) == operand % 65536,
        forall|i: int|
            0 <= i < s.starts.len() ==> #[trigger] s.change_operand(
                s.starts[k],
                operand,
            ).opcode_at(i) == s.opcode_at(i),
        forall|i: int|
            0 <= i < s.starts.len() && i != k && s.is_jump(i) ==> #[trigger] s.change_operand(
                s.starts[k],
                operand,
            ).jump_target(i) == s.jump_target(i),
{
    let p = s.starts[k];
    let t = s.change_operand(p, operand);
    let op = s.opcode_at(k);
    let bytes = encode(op, seq![operand]);
    let n = s.starts.len() as int;
    crate::code::definitions::lemma_instruction_lens();
    crate::code::definitions::lemma_encode_shape(op, seq![operand]);
    lemma_starts_increase(s, k, k);
    assert(s.ok_at(k));
    assert(p + 3 <= s.code.len());
    assert(bytes.len() == 3);
    assert(bytes[1] == ((operand % 65536) / 256) as u8 && bytes[2] == ((operand % 65536)
        % 256) as u8) by {
        reveal_with_fuel(crate::code::definitions::encode_operands, 2);
        assert(crate::code::definitions::operand_widths(op) == seq![2usize]);
    }
    assert(t.code[p] == bytes[0]);
    assert(t.code[p + 1] == bytes[1]);
    assert(t.code[p + 2] == bytes[2]);
    assert(t.code.take(p) =~= s.code.take(p));
    assert(t.opcode_at(k) == op);
    assert forall|i: int| 0 <= i < n implies #[trigger] t.opcode_at(i) == s.opcode_at(i) by {
        if i < k {
            lemma_starts_increase(s, i, k);
        } else if i > k {
            lemma_starts_increase(s, k, i);
        }
    }
    assert forall|i: int| 0 <= i < t.starts.len() implies #[trigger] t.ok_at(i) by {
        assert(s.ok_at(i));
        assert(t.opcode_at(i) == s.opcode_at(i));
    }
    assert forall|i: int| 0 <= i < n && i != k && s.is_jump(i) implies #[trigger] t.jump_target(i)
        == s.jump_target(i) by {
        assert(s.ok_at(i));
        if i < k {
            lemma_starts_increase(s, i, k);
        } else {
            lemma_starts_increase(s, k, i);
        }
    }
}

/// Whether an opcode is one of the two jumps.
pub open spec fn is_jump_opcode(op: Opcode) -> bool {
    op == Opcode::Jump || op == Opcode::JumpIfFalse
}

/// After an instruction is written, the jumps that stayed within a limit
/// stay within the new length. A jump that is written joins those that wait
/// for their targets.
pub proof fn lemma_emit_jumps(
    s: ScopeModel,
    op: Opcode,
    operands: Seq<usize>,
    line: usize,
    from: int,
    limit: int,
    pending: Set<int>,
)
    requires
        s.inv(),
        is_defined(op),
        operands.len() >= crate::code::definitions::operand_widths(op).len(),
        s.emit(op, operands, line).code.len() <= usize::MAX,
        0 <= from,
        limit <= s.code.len(),
        s.jumps_within_except(from, limit, pending),
    ensures
        s.emit(op, operands, line).jumps_within_except(
            from,
            s.code.len() as int,
            if is_jump_opcode(op) {
                pending.insert(s.count())
            } else {
                pending
            },
        ),
        s.emit(op, operands, line).is_jump(s.count()) == is_jump_opcode(op),
{
    let t = s.emit(op, operands, line);
    lemma_emit(s, op, operands, line);
    let after = if is_jump_opcode(op) {
        pending.insert(s.count())
    } else {
        pending
    };
    assert forall|i: int|
        from <= i < t.starts.len() && #[trigger] t.is_jump(i) && !after.contains(
            i,
        ) implies t.jump_target(i) <= s.code.len() by {
        if i < s.starts.len() {
            lemma_extends_keeps(s, t, i);
            assert(s.is_jump(i));
        }
    }
}

/// Jumps that stayed within a limit in a buffer, but for those that wait,
/// stay within every further limit in a buffer that goes on from it, where
/// the jumps that came with going on do so.
pub proof fn lemma_carry_except(
    b: ScopeModel,
    c: ScopeModel,
    from: int,
    limit: int,
    further: int,
    pending: Set<int>,
)
    requires
        b.inv(),
        c.extends(b),
        0 <= from,
        limit <= further,
        b.jumps_within_except(from, limit, pending),
        c.jumps_within(b.count(), further),
    ensures
        c.jumps_within_except(from, further, pending),
{
    assert forall|i: int|
        from <= i < c.starts.len() && #[trigger] c.is_jump(i) && !pending.contains(
            i,
        ) implies c.jump_target(i) <= further by {
        if i < b.starts.len() {
            lemma_extends_keeps(b, c, i);
            assert(b.is_jump(i));
        }
    }
}

/// Cutting the last instruction off leaves the jumps within the new length,
/// where they went to the start of that instruction at the furthest.
pub proof fn lemma_remove_jumps(s: ScopeModel, from: int, pending: Set<int>)
    requires
        s.inv(),
        s.starts.len() >= 1,
        s.prev_is_true(),
        0 <= from,
        s.jumps_within_except(from, s.starts.last(), pending),
    ensures
        s.remove_last().jumps_within_except(from, s.remove_last().code.len() as int, pending),
{
    let t = s.remove_last();
    lemma_remove_last(s);
    assert forall|i: int|
        from <= i < t.starts.len() && #[trigger] t.is_jump(i) && !pending.contains(
            i,
        ) implies t.jump_target(i) <= t.code.len() by {
        lemma_extends_keeps(t, s, i);
        assert(s.is_jump(i));
    }
}

/// A jump that gets its target no longer waits, and goes where the other
/// jumps may go if its target is within their limit.
pub proof fn lemma_change_jumps(
    s: ScopeModel,
    k: int,
    operand: usize,
    from: int,
    limit: int,
    pending: Set<int>,
)
    requires
        s.inv(),
        0 <= k < s.starts.len(),
        s.is_jump(k),
        0 <= from,
        operand <= limit,
        s.jumps_within_except(from, limit, pending),
    ensures
        s.change_operand(s.starts[k], operand).jumps_within_except(from, limit, pending.remove(k)),
{
    let t = s.change_operand(s.starts[k], operand);
    lemma_change_operand(s, k, operand);
    assert forall|i: int|
        from <= i < t.starts.len() && #[trigger] t.is_jump(i) && !pending.remove(k).contains(
            i,
        ) implies t.jump_target(i) <= limit by {
        assert(t.opcode_at(i) == s.opcode_at(i));
        assert(s.is_jump(i));
        if i != k {
            assert(t.jump_target(i) == s.jump_target(i));
        }
    }
}

/// Putting `ReturnValue` in the place of a trailing `Pop` leaves every jump
/// where it went.
pub proof fn lemma_replace_jumps(s: ScopeModel, from: int, limit: int)
    requires
        s.inv(),
        s.starts.len() >= 1,
        s.last.opcode == Opcode::Pop,
        0 <= from,
        s.jumps_within(from, limit),
    ensures
        s.replace_last_with_return().jumps_within(from, limit),
{
    let t = s.replace_last_with_return();
    let n = s.starts.len() as int;
    lemma_replace_last_with_return(s);
    assert forall|i: int| from <= i < t.starts.len() && #[trigger] t.is_jump(i) implies
        t.jump_target(i) <= limit by {
        if i < n - 1 {
            assert(t.opcode_at(i) == s.opcode_at(i));
            assert(s.is_jump(i));
            assert(t.jump_target(i) == s.jump_target(i));
        }
    }
}

/// Whether the bytes from `at` on are instructions one after the other up
/// to the last byte, each with a defined opcode and all its operands, and
/// every jump among them goes to an offset inside the stream.
pub open spec fn stream_sound(code: Seq<u8>, at: int) -> bool
    decreases code.len() - at,
{
    if at < 0 || at > code.len() {
        false
    } else if at == code.len() {
        true
    } else {
        let op = opcode_of_byte(code[at]);
        let next = at + instruction_len(op);
        &&& is_defined(op)
        &&& at < next <= code.len()
        &&& is_jump_opcode(op) ==> decode_operand(2, code, at + 1) < code.len()
        &&& stream_sound(code, next)
    }
}

/// Whether a stream is made of whole instructions and every jump in it goes
/// to an offset inside it.
pub open spec fn jumps_inside(code: Seq<u8>) -> bool {
    stream_sound(code, 0)
}

/// The opcode of the last instruction of the stream that starts at `at`.
pub open spec fn last_opcode_from(code: Seq<u8>, at: int) -> Opcode
    decreases code.len() - at,
{
    if at < 0 || at >= code.len() {
        Opcode::Invalid
    } else {
        let op = opcode_of_byte(code[at]);
        let next = at + instruction_len(op);
        if at < next < code.len() {
            last_opcode_from(code, next)
        } else {
            op
        }
    }
}

/// Whether the last instruction of a stream gives control back to the
/// caller: it is `ReturnValue` or `Return`.
pub open spec fn ends_with_return(code: Seq<u8>) -> bool {
    last_opcode_from(code, 0) == Opcode::ReturnValue || last_opcode_from(code, 0)
        == Opcode::Return
}

/// The bytes of a sound buffer whose jumps stay below its length are a
/// sound stream, and its last instruction is the one on record.
pub proof fn lemma_stream_sound(s: ScopeModel, i: int)
    requires
        s.inv(),
        s.starts.len() > 0 ==> s.jumps_within(0, s.starts.last()),
        0 <= i <= s.starts.len(),
    ensures
        i < s.starts.len() ==> stream_sound(s.code, s.starts[i]) && last_opcode_from(
            s.code,
            s.starts[i],
        ) == s.last.opcode,
        i == s.starts.len() ==> stream_sound(s.code, s.code.len() as int),
    decreases s.starts.len() - i,
{
    let n = s.starts.len() as int;
    if i < n {
        lemma_stream_sound(s, i + 1);
        lemma_starts_increase(s, i, n - 1);
        assert(s.ok_at(i));
        crate::code::definitions::lemma_instruction_len_bounds(s.opcode_at(i));
        if s.is_jump(i) {
            assert(s.jump_target(i) <= s.starts.last());
        }
    }
}

/// The instruction buffer of one function body under compilation, with the
/// record of the last instruction written and of the one before it.
pub struct CompilationScope {
    pub instructions: Instructions,
    /// The last instruction written.
    pub last_ins: EmittedInstruction,
    /// The instruction written before the last.
    pub prev_ins: EmittedInstruction,
    /// The offsets at which the instructions start.
    pub starts: Ghost<Seq<int>>,
}

impl Default for CompilationScope {
    fn default() -> (scope: CompilationScope)
        ensures
            scope@ == ScopeModel::empty(),
            scope@.inv(),
    {
        CompilationScope::new()
    }
}

impl CompilationScope {
    pub open spec fn view(&self) -> ScopeModel {
        ScopeModel {
            code: self.instructions.code@,
            lines: self.instructions.lines@,
            last: self.last_ins,
            prev: self.prev_ins,
            starts: self.starts@,
        }
    }

    /// A scope with an empty buffer.
    pub fn new() -> (scope: CompilationScope)
        ensures
            scope@ == ScopeModel::empty(),
            scope@.inv(),
    {
        CompilationScope {
            instructions: Instructions::default(),
            last_ins: EmittedInstruction::default(),
            prev_ins: EmittedInstruction::default(),
            starts: Ghost(Seq::empty()),
        }
    }

    /// Writes an instruction at the end of the buffer, records it as the
    /// last, and gives the offset of its first byte.
    pub fn emit(&mut self, op: Opcode, operands: &[usize], line: usize) -> (pos: usize)
        ensures
            final(self)@ == old(self)@.emit(op, operands@, line),
            pos == old(self)@.code.len(),
    {
        let mut ins = make(op, operands, line);
        let pos = self.instructions.code.len();
        let ghost added = ins.code@.len() > 0;
        self.instructions.code.append(&mut ins.code);
        self.instructions.lines.append(&mut ins.lines);
        self.prev_ins = self.last_ins;
        self.last_ins = EmittedInstruction::new(op, pos);
        proof {
            if added {
                self.starts = Ghost(self.starts@.push(pos as int));
            }
        }
        pos
    }

    /// Whether the buffer holds something and the last instruction written
    /// has this opcode.
    pub fn is_last_instruction(&self, opcode: Opcode) -> (b: bool)
        ensures
            b == self@.last_is(opcode),
    {
        if self.instructions.code.len() == 0 {
            return false;
        }
        self.last_ins.opcode == opcode
    }

    /// Cuts the buffer off where the last instruction starts.
    pub fn remove_last_pop(&mut self)
        requires
            old(self)@.last.position <= old(self)@.code.len(),
            old(self)@.lines.len() == old(self)@.code.len(),
        ensures
            final(self)@ == old(self)@.remove_last(),
    {
        let position = self.last_ins.position;
        self.instructions.code.truncate(position);
        self.instructions.lines.truncate(position);
        self.last_ins = self.prev_ins;
        proof {
            self.starts = Ghost(self.starts@.drop_last());
            assert(self.instructions.code@ =~= old(self)@.code.take(position as int));
            assert(self.instructions.lines@ =~= old(self)@.lines.take(position as int));
        }
    }

    /// Writes `new_instruction` over the bytes from `pos` on. The bytes must
    /// lie within the buffer: an instruction takes the place of one of the
    /// same length.
    pub fn replace_instruction(&mut self, pos: usize, new_instruction: &[u8])
        requires
            pos + new_instruction@.len() <= old(self)@.code.len(),
        ensures
            final(self)@ == (ScopeModel {
                code: overwritten(old(self)@.code, pos as int, new_instruction@),
                ..old(self)@
            }),
    {
        let total = self.instructions.code.len();
        let mut i: usize = 0;
        assert(self.instructions.code@ =~= overwritten(
            old(self)@.code,
            pos as int,
            new_instruction@.take(0),
        ));
        while i < new_instruction.len()
            invariant
                i <= new_instruction@.len(),
                pos + new_instruction@.len() <= old(self)@.code.len(),
                total == old(self)@.code.len(),
                self.instructions.code@ == overwritten(
                    old(self)@.code,
                    pos as int,
                    new_instruction@.take(i as int),
                ),
                self.instructions.lines == old(self).instructions.lines,
                self.last_ins == old(self).last_ins,
                self.prev_ins == old(self).prev_ins,
                self.starts == old(self).starts,
            decreases new_instruction@.len() - i,
        {
            self.instructions.code.set(pos + i, new_instruction[i]);
            i = i + 1;
            assert(self.instructions.code@ =~= overwritten(
                old(self)@.code,
                pos as int,
                new_instruction@.take(i as int),
            ));
        }
        assert(new_instruction@.take(new_instruction@.len() as int) =~= new_instruction@);
    }

    /// Puts `ReturnValue` in the place of the last instruction's opcode.
    pub fn replace_last_pop_with_return(&mut self)
        requires
            old(self)@.last.position < old(self)@.code.len(),
        ensures
            final(self)@ == old(self)@.replace_last_with_return(),
    {
        let last_pos = self.last_ins.position;
        let operands: [usize; 1] = [0];
        let new_instruction = make(Opcode::ReturnValue, operands.as_slice(), 1);
        proof {
            assert(operands@ =~= seq![0usize]);
            crate::code::definitions::lemma_encode_shape(Opcode::ReturnValue, seq![0usize]);
            crate::code::definitions::lemma_instruction_lens();
        }
        self.replace_instruction(last_pos, new_instruction.code.as_slice());
        self.last_ins.opcode = Opcode::ReturnValue;
        assert(self@.code =~= old(self)@.replace_last_with_return().code);
    }

    /// Writes the instruction at `op_pos` anew with `operand` as its one
    /// operand. The instruction must be one with one operand, so that the
    /// bytes written take the place of as many.
    pub fn change_operand(&mut self, op_pos: usize, operand: usize)
        requires
            op_pos < old(self)@.code.len(),
            op_pos + encode(opcode_of_byte(old(self)@.code[op_pos as int]), seq![operand]).len()
                <= old(self)@.code.len(),
            old(self)@.lines.len() == old(self)@.code.len(),
        ensures
            final(self)@ == old(self)@.change_operand(op_pos as int, operand),
    {
        let op = Opcode::from(self.instructions.code[op_pos]);
        let line = self.instructions.lines[op_pos];
        let operands: [usize; 1] = [operand];
        assert(operands@ =~= seq![operand]);
        let new_instruction = make(op, operands.as_slice(), line);
        self.replace_instruction(op_pos, new_instruction.code.as_slice());
    }
}

} // verus!
