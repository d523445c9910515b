//! The height of the stack along a stream of instructions: a number of
//! values for each instruction, such that every instruction leaves the
//! height that the instructions expect which may run after it.

use vstd::prelude::*;

use crate::code::definitions::{instruction_len, is_defined, operands_at};
use crate::code::opcode::{opcode_of_byte, Opcode};

verus! {

/// A height of the stack for the instructions of a stream, by the offsets
/// at which they start, and a height for the end of the stream.
pub struct Heights {
    pub at: Map<int, int>,
    pub end: int,
}

/// By how much an instruction changes the number of values on the stack
/// of the frame that it runs in, where it goes through. A call counts with
/// what the callee leaves when it returns: its result in the place of
/// itself and its arguments. `ReturnValue` counts with the value that it
/// takes.
pub open spec fn effect(op: Opcode, operands: Seq<usize>) -> int {
    match op {
        Opcode::Constant | Opcode::True | Opcode::False | Opcode::Nil | Opcode::GetGlobal
        | Opcode::GetLocal | Opcode::GetBuiltin | Opcode::GetFree | Opcode::CurrClosure => 1,
        Opcode::Pop | Opcode::SetGlobal | Opcode::SetLocal | Opcode::JumpIfFalse | Opcode::Add
        | Opcode::Sub | Opcode::Mul | Opcode::Div | Opcode::Equal | Opcode::NotEqual
        | Opcode::Greater | Opcode::Index | Opcode::ReturnValue => -1,
        Opcode::Array | Opcode::Hash => 1 - operands[0],
        Opcode::Call => -operands[0],
        Opcode::Closure => 1 - operands[1],
        _ => 0,
    }
}

/// Whether the instruction after `op` can be the next to run.
pub open spec fn falls_through(op: Opcode) -> bool {
    op != Opcode::Jump && op != Opcode::Return && op != Opcode::ReturnValue
}

/// Whether `op` can make another instruction than the one after it the
/// next to run in its frame.
pub open spec fn jumps(op: Opcode) -> bool {
    op == Opcode::Jump || op == Opcode::JumpIfFalse
}

impl Heights {
    /// Whether the stream may come to the offset `to` with `height` values
    /// on the stack: the offset is the end of the stream or the start of an
    /// instruction, and the height there is no less.
    pub open spec fn admits(self, code: Seq<u8>, to: int, height: int) -> bool {
        if to == code.len() {
            self.end >= height
        } else {
            self.at.contains_key(to) && self.at[to] >= height
        }
    }

    /// The instruction at offset `p` leaves the heights that the
    /// instructions expect which may run after it. A jump in `pending` has
    /// no target yet and leaves nothing there.
    pub open spec fn holds_at(self, code: Seq<u8>, p: int, pending: Set<int>) -> bool {
        let op = opcode_of_byte(code[p]);
        let next = p + instruction_len(op);
        let operands = operands_at(code, p);
        let after = self.at[p] + effect(op, operands);
        is_defined(op) && next <= code.len() ==> {
            &&& falls_through(op) ==> self.admits(code, next, after)
            &&& jumps(op) && !pending.contains(p) ==> self.admits(code, operands[0] as int, after)
        }
    }

    /// The stream is balanced under these heights: it starts with an empty
    /// stack, every instruction that has a height leaves the heights that
    /// the instructions after it expect, and at the end of the stream the
    /// stack is empty again.
    pub open spec fn balanced(self, code: Seq<u8>) -> bool {
        &&& self.admits(code, 0, 0)
        &&& self.end == 0
        &&& forall|p: int| #[trigger]
            self.at.contains_key(p) ==> 0 <= p < code.len() && self.holds_at(
                code,
                p,
                Set::<int>::empty(),
            )
    }
}

/// Whether a stream is balanced under some heights.
pub open spec fn balanced_code(code: Seq<u8>) -> bool {
    exists|heights: Heights| #[trigger] heights.balanced(code)
}

} // verus!
