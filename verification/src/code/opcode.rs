use vstd::prelude::*;

verus! {

/// The operations of the stack machine. The position of a variant in this
/// list is the byte that stands for it in an instruction stream.
#[derive(Debug, Clone, Copy, PartialEq, Eq, Hash, Structural)]
pub enum Opcode {
    Constant,
    Pop,
    Add,
    Sub,
    Mul,
    Div,
    True,
    False,
    Equal,
    NotEqual,
    Greater,
    Minus,
    Bang,
    Jump,
    JumpIfFalse,
    Nil,
    GetGlobal,
    SetGlobal,
    Array,
    Hash,
    Index,
    Call,
    ReturnValue,
    Return,
    GetLocal,
    SetLocal,
    GetBuiltin,
    Closure,
    GetFree,
    CurrClosure,
    Invalid,
}

/// The opcode that a byte stands for; every byte past the last defined
/// opcode stands for `Invalid`.
pub open spec fn opcode_of_byte(code: u8) -> Opcode {
    match code {
        0 => Opcode::Constant,
        1 => Opcode::Pop,
        2 => Opcode::Add,
        3 => Opcode::Sub,
        4 => Opcode::Mul,
        5 => Opcode::Div,
        6 => Opcode::True,
        7 => Opcode::False,
        8 => Opcode::Equal,
        9 => Opcode::NotEqual,
        10 => Opcode::Greater,
        11 => Opcode::Minus,
        12 => Opcode::Bang,
        13 => Opcode::Jump,
        14 => Opcode::JumpIfFalse,
        15 => Opcode::Nil,
        16 => Opcode::GetGlobal,
        17 => Opcode::SetGlobal,
        18 => Opcode::Array,
        19 => Opcode::Hash,
        20 => Opcode::Index,
        21 => Opcode::Call,
        22 => Opcode::ReturnValue,
        23 => Opcode::Return,
        24 => Opcode::GetLocal,
        25 => Opcode::SetLocal,
        26 => Opcode::GetBuiltin,
        27 => Opcode::Closure,
        28 => Opcode::GetFree,
        29 => Opcode::CurrClosure,
        _ => Opcode::Invalid,
    }
}

/// The byte that stands for an opcode.
pub open spec fn byte_of_opcode(op: Opcode) -> u8 {
    match op {
        Opcode::Constant => 0,
        Opcode::Pop => 1,
        Opcode::Add => 2,
        Opcode::Sub => 3,
        Opcode::Mul => 4,
        Opcode::Div => 5,
        Opcode::True => 6,
        Opcode::False => 7,
        Opcode::Equal => 8,
        Opcode::NotEqual => 9,
        Opcode::Greater => 10,
        Opcode::Minus => 11,
        Opcode::Bang => 12,
        Opcode::Jump => 13,
        Opcode::JumpIfFalse => 14,
        Opcode::Nil => 15,
        Opcode::GetGlobal => 16,
        Opcode::SetGlobal => 17,
        Opcode::Array => 18,
        Opcode::Hash => 19,
        Opcode::Index => 20,
        Opcode::Call => 21,
        Opcode::ReturnValue => 22,
        Opcode::Return => 23,
        Opcode::GetLocal => 24,
        Opcode::SetLocal => 25,
        Opcode::GetBuiltin => 26,
        Opcode::Closure => 27,
        Opcode::GetFree => 28,
        Opcode::CurrClosure => 29,
        Opcode::Invalid => 30,
    }
}

impl Default for Opcode {
    fn default() -> (op: Opcode)
        ensures
            op == Opcode::Invalid,
    {
        Opcode::Invalid
    }
}

impl vstd::std_specs::convert::FromSpecImpl<u8> for Opcode {
    open spec fn obeys_from_spec() -> bool {
        true
    }

    open spec fn from_spec(code: u8) -> Opcode {
        opcode_of_byte(code)
    }
}

impl From<u8> for Opcode {
    fn from(code: u8) -> (op: Opcode) {
        match code {
            0 => Opcode::Constant,
            1 => Opcode::Pop,
            2 => Opcode::Add,
            3 => Opcode::Sub,
            4 => Opcode::Mul,
            5 => Opcode::Div,
            6 => Opcode::True,
            7 => Opcode::False,
            8 => Opcode::Equal,
            9 => Opcode::NotEqual,
            10 => Opcode::Greater,
            11 => Opcode::Minus,
            12 => Opcode::Bang,
            13 => Opcode::Jump,
            14 => Opcode::JumpIfFalse,
            15 => Opcode::Nil,
            16 => Opcode::GetGlobal,
            17 => Opcode::SetGlobal,
            18 => Opcode::Array,
            19 => Opcode::Hash,
            20 => Opcode::Index,
            21 => Opcode::Call,
            22 => Opcode::ReturnValue,
            23 => Opcode::Return,
            24 => Opcode::GetLocal,
            25 => Opcode::SetLocal,
            26 => Opcode::GetBuiltin,
            27 => Opcode::Closure,
            28 => Opcode::GetFree,
            29 => Opcode::CurrClosure,
            _ => Opcode::Invalid,
        }
    }
}

impl vstd::std_specs::convert::FromSpecImpl<Opcode> for u8 {
    open spec fn obeys_from_spec() -> bool {
        true
    }

    open spec fn from_spec(op: Opcode) -> u8 {
        byte_of_opcode(op)
    }
}

impl From<Opcode> for u8 {
    fn from(op: Opcode) -> (code: u8) {
        match op {
            Opcode::Constant => 0,
            Opcode::Pop => 1,
            Opcode::Add => 2,
            Opcode::Sub => 3,
            Opcode::Mul => 4,
            Opcode::Div => 5,
            Opcode::True => 6,
            Opcode::False => 7,
            Opcode::Equal => 8,
            Opcode::NotEqual => 9,
            Opcode::Greater => 10,
            Opcode::Minus => 11,
            Opcode::Bang => 12,
            Opcode::Jump => 13,
            Opcode::JumpIfFalse => 14,
            Opcode::Nil => 15,
            Opcode::GetGlobal => 16,
            Opcode::SetGlobal => 17,
            Opcode::Array => 18,
            Opcode::Hash => 19,
            Opcode::Index => 20,
            Opcode::Call => 21,
            Opcode::ReturnValue => 22,
            Opcode::Return => 23,
            Opcode::GetLocal => 24,
            Opcode::SetLocal => 25,
            Opcode::GetBuiltin => 26,
            Opcode::Closure => 27,
            Opcode::GetFree => 28,
            Opcode::CurrClosure => 29,
            Opcode::Invalid => 30,
        }
    }
}

/// Every opcode but `Invalid` comes back from its own byte.
pub proof fn lemma_opcode_byte_round_trip(op: Opcode)
    ensures
        opcode_of_byte(byte_of_opcode(op)) == op,
        byte_of_opcode(op) <= 30,
{
}

} // verus!
