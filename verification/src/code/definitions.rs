use byteorder::{BigEndian, ByteOrder, WriteBytesExt};
use vstd::prelude::*;

use crate::code::opcode::{byte_of_opcode, opcode_of_byte, Opcode};
use crate::text::{decimal, padded_decimal, push_decimal, push_padded_decimal};

verus! {

/// What is known of an opcode: its printed name and the width in bytes of
/// each of its operands.
#[derive(Debug)]
pub struct Definition {
    pub name: &'static str,
    pub operand_widths: Vec<usize>,
}

/// Every opcode but `Invalid` has a definition.
pub open spec fn is_defined(op: Opcode) -> bool {
    op != Opcode::Invalid
}

/// The widths of an opcode's operands, in bytes, in the order in which they
/// follow the opcode.
pub open spec fn operand_widths(op: Opcode) -> Seq<usize> {
    match op {
        Opcode::Constant | Opcode::Jump | Opcode::JumpIfFalse | Opcode::GetGlobal
        | Opcode::SetGlobal | Opcode::Array | Opcode::Hash => seq![2usize],
        Opcode::GetLocal | Opcode::SetLocal | Opcode::GetBuiltin | Opcode::GetFree
        | Opcode::Call => seq![1usize],
        Opcode::Closure => seq![2usize, 1usize],
        _ => Seq::<usize>::empty(),
    }
}

/// The name under which an opcode is printed.
pub open spec fn opcode_name(op: Opcode) -> Seq<char> {
    match op {
        Opcode::Constant => "OpConstant"@,
        Opcode::Pop => "OpPop"@,
        Opcode::Add => "OpAdd"@,
        Opcode::Sub => "OpSub"@,
        Opcode::Mul => "OpMul"@,
        Opcode::Div => "OpDiv"@,
        Opcode::True => "OpTrue"@,
        Opcode::False => "OpFalse"@,
        Opcode::Equal => "OpEqual"@,
        Opcode::NotEqual => "OpNotEqual"@,
        Opcode::Greater => "OpGreater"@,
        Opcode::Minus => "OpMinus"@,
        Opcode::Bang => "OpBang"@,
        Opcode::Jump => "OpJump"@,
        Opcode::JumpIfFalse => "OpJumpIfFalse"@,
        Opcode::Nil => "OpNil"@,
        Opcode::GetGlobal => "OpGetGlobal"@,
        Opcode::SetGlobal => "OpSetGlobal"@,
        Opcode::Array => "OpArray"@,
        Opcode::Hash => "OpMap"@,
        Opcode::Index => "OpIndex"@,
        Opcode::Call => "OpCall"@,
        Opcode::ReturnValue => "OpReturnValue"@,
        Opcode::Return => "OpReturn"@,
        Opcode::GetLocal => "OpGetLocal"@,
        Opcode::SetLocal => "OpSetLocal"@,
        Opcode::GetBuiltin => "OpGetBuiltin"@,
        Opcode::Closure => "OpClosure"@,
        Opcode::GetFree => "OpGetFree"@,
        Opcode::CurrClosure => "OpCurrClosure"@,
        Opcode::Invalid => Seq::<char>::empty(),
    }
}

/// The number of bytes that the first `n` operands take.
pub open spec fn width_sum(widths: Seq<usize>, n: int) -> int
    decreases n,
{
    if n <= 0 {
        0
    } else {
        width_sum(widths, n - 1) + widths[n - 1]
    }
}

/// The bytes of one operand: the low `width` bytes of its value, the high
/// byte first. Only widths one and two are in use.
pub open spec fn encode_operand(width: usize, operand: usize) -> Seq<u8> {
    if width == 2 {
        seq![((operand % 65536) / 256) as u8, ((operand % 65536) % 256) as u8]
    } else if width == 1 {
        seq![(operand % 256) as u8]
    } else {
        Seq::<u8>::empty()
    }
}

/// The bytes of the first `n` operands, one after the other.
pub open spec fn encode_operands(widths: Seq<usize>, operands: Seq<usize>, n: int) -> Seq<u8>
    decreases n,
{
    if n <= 0 {
        Seq::<u8>::empty()
    } else {
        encode_operands(widths, operands, n - 1) + encode_operand(widths[n - 1], operands[n - 1])
    }
}

/// How many operands an instruction takes from those on offer: as many as
/// the opcode defines, or all that are on offer where these are fewer.
pub open spec fn operands_taken(op: Opcode, operands: Seq<usize>) -> int {
    if operands.len() <= operand_widths(op).len() {
        operands.len() as int
    } else {
        operand_widths(op).len() as int
    }
}

/// The bytes of one instruction: the opcode's byte, then its operands. An
/// opcode without a definition gives no bytes.
pub open spec fn encode(op: Opcode, operands: Seq<usize>) -> Seq<u8> {
    if is_defined(op) {
        seq![byte_of_opcode(op)] + encode_operands(
            operand_widths(op),
            operands,
            operands_taken(op, operands),
        )
    } else {
        Seq::<u8>::empty()
    }
}

/// The operand of the given width that starts at `at`.
pub open spec fn decode_operand(width: usize, bytes: Seq<u8>, at: int) -> usize {
    if width == 2 {
        (bytes[at] * 256 + bytes[at + 1]) as usize
    } else {
        bytes[at] as usize
    }
}

/// The first `n` operands read from `bytes`, which start with the first
/// operand's first byte.
pub open spec fn decode_operands(widths: Seq<usize>, bytes: Seq<u8>, n: int) -> Seq<usize>
    decreases n,
{
    if n <= 0 {
        Seq::<usize>::empty()
    } else {
        decode_operands(widths, bytes, n - 1).push(
            decode_operand(widths[n - 1], bytes, width_sum(widths, n - 1)),
        )
    }
}

/// Whether every width is one or two bytes, the only widths that can be
/// written and read.
pub open spec fn widths_supported(widths: Seq<usize>) -> bool {
    forall|i: int| 0 <= i < widths.len() ==> widths[i] == 1 || widths[i] == 2
}

/// Whether an operand fits in `width` bytes.
pub open spec fn operand_fits(width: usize, operand: usize) -> bool {
    if width == 2 {
        operand < 65536
    } else {
        operand < 256
    }
}

/// `WriteBytesExt::write_u16::<BigEndian>` of byteorder on a byte vector:
/// it appends the two bytes of `n`, the high byte first. Writing to a vector
/// cannot fail, so the call's result is dropped.
#[verifier::external_body]
fn write_u16_be(buf: &mut Vec<u8>, n: u16)
    ensures
        final(buf)@ == old(buf)@.push((n / 256) as u8).push((n % 256) as u8),
{
    let _ = buf.write_u16::<BigEndian>(n);
}

/// `WriteBytesExt::write_u8` of byteorder on a byte vector: it appends the
/// byte. Writing to a vector cannot fail, so the call's result is dropped.
#[verifier::external_body]
fn write_byte(buf: &mut Vec<u8>, n: u8)
    ensures
        final(buf)@ == old(buf)@.push(n),
{
    let _ = buf.write_u8(n);
}

/// `BigEndian::read_u16` of byteorder: the number whose high byte is the
/// first byte of `buf` and whose low byte is the second. It panics on fewer
/// than two bytes.
#[verifier::external_body]
pub(crate) fn read_u16_be(buf: &[u8]) -> (n: u16)
    requires
        buf@.len() >= 2,
    ensures
        n == buf@[0] * 256 + buf@[1],
{
    BigEndian::read_u16(buf)
}

impl Definition {
    pub fn new(name: &'static str, operand_widths: Vec<usize>) -> (def: Definition)
        ensures
            def.name@ == name@,
            def.operand_widths == operand_widths,
    {
        Definition { name, operand_widths }
    }

    /// Whether this is the definition of `op`.
    pub open spec fn describes(&self, op: Opcode) -> bool {
        &&& self.name@ == opcode_name(op)
        &&& self.operand_widths@ == operand_widths(op)
    }
}

fn widths_none() -> (w: Vec<usize>)
    ensures
        w@ == Seq::<usize>::empty(),
{
    Vec::new()
}

fn widths_one(a: usize) -> (w: Vec<usize>)
    ensures
        w@ == seq![a],
{
    let mut w = Vec::new();
    w.push(a);
    assert(w@ =~= seq![a]);
    w
}

fn widths_two(a: usize, b: usize) -> (w: Vec<usize>)
    ensures
        w@ == seq![a, b],
{
    let mut w = Vec::new();
    w.push(a);
    w.push(b);
    assert(w@ =~= seq![a, b]);
    w
}

/// The definition of an opcode, if it has one.
pub fn definition(op: Opcode) -> (res: Option<Definition>)
    ensures
        res is Some <==> is_defined(op),
        res matches Some(def) ==> def.describes(op),
{
    let def = match op {
        Opcode::Constant => Definition::new("OpConstant", widths_one(2)),
        Opcode::Pop => Definition::new("OpPop", widths_none()),
        Opcode::Add => Definition::new("OpAdd", widths_none()),
        Opcode::Sub => Definition::new("OpSub", widths_none()),
        Opcode::Mul => Definition::new("OpMul", widths_none()),
        Opcode::Div => Definition::new("OpDiv", widths_none()),
        Opcode::True => Definition::new("OpTrue", widths_none()),
        Opcode::False => Definition::new("OpFalse", widths_none()),
        Opcode::Equal => Definition::new("OpEqual", widths_none()),
        Opcode::NotEqual => Definition::new("OpNotEqual", widths_none()),
        Opcode::Greater => Definition::new("OpGreater", widths_none()),
        Opcode::Minus => Definition::new("OpMinus", widths_none()),
        Opcode::Bang => Definition::new("OpBang", widths_none()),
        Opcode::Jump => Definition::new("OpJump", widths_one(2)),
        Opcode::JumpIfFalse => Definition::new("OpJumpIfFalse", widths_one(2)),
        Opcode::Nil => Definition::new("OpNil", widths_none()),
        Opcode::GetGlobal => Definition::new("OpGetGlobal", widths_one(2)),
        Opcode::SetGlobal => Definition::new("OpSetGlobal", widths_one(2)),
        Opcode::Array => Definition::new("OpArray", widths_one(2)),
        Opcode::Hash => Definition::new("OpMap", widths_one(2)),
        Opcode::Index => Definition::new("OpIndex", widths_none()),
        Opcode::Call => Definition::new("OpCall", widths_one(1)),
        Opcode::ReturnValue => Definition::new("OpReturnValue", widths_none()),
        Opcode::Return => Definition::new("OpReturn", widths_none()),
        Opcode::GetLocal => Definition::new("OpGetLocal", widths_one(1)),
        Opcode::SetLocal => Definition::new("OpSetLocal", widths_one(1)),
        Opcode::GetBuiltin => Definition::new("OpGetBuiltin", widths_one(1)),
        Opcode::Closure => Definition::new("OpClosure", widths_two(2, 1)),
        Opcode::GetFree => Definition::new("OpGetFree", widths_one(1)),
        Opcode::CurrClosure => Definition::new("OpCurrClosure", widths_none()),
        Opcode::Invalid => {
            return None;
        },
    };
    Some(def)
}

/// The text of the error for a byte that stands for no opcode.
pub open spec fn undefined_message(op: u8) -> Seq<char> {
    "opcode "@ + decimal(op as nat) + " undefined"@
}

/// Finds the definition of the opcode that a byte stands for.
pub fn lookup(op: u8) -> (res: Result<Definition, String>)
    ensures
        res is Ok <==> is_defined(opcode_of_byte(op)),
        res matches Ok(def) ==> def.describes(opcode_of_byte(op)),
        res matches Err(msg) ==> msg@ == undefined_message(op),
{
    match definition(Opcode::from(op)) {
        Some(def) => Ok(def),
        None => {
            let mut msg = "opcode ".to_owned();
            push_decimal(&mut msg, op as usize);
            msg.append(" undefined");
            Err(msg)
        },
    }
}

/// A stream of instructions, with the source line that each byte of it came
/// from.
#[derive(Debug)]
pub struct Instructions {
    pub code: Vec<u8>,
    pub lines: Vec<usize>,
}

/// Whether two byte vectors hold the same bytes.
fn same_bytes(a: &Vec<u8>, b: &Vec<u8>) -> (same: bool)
    ensures
        same == (a@ == b@),
{
    if a.len() != b.len() {
        return false;
    }
    let mut i: usize = 0;
    while i < a.len()
        invariant
            a@.len() == b@.len(),
            i <= a@.len(),
            forall|j: int| 0 <= j < i ==> a@[j] == b@[j],
        decreases a@.len() - i,
    {
        if a[i] != b[i] {
            return false;
        }
        i = i + 1;
    }
    assert(a@ =~= b@);
    true
}

/// Whether two vectors of line numbers hold the same numbers.
fn same_lines(a: &Vec<usize>, b: &Vec<usize>) -> (same: bool)
    ensures
        same == (a@ == b@),
{
    if a.len() != b.len() {
        return false;
    }
    let mut i: usize = 0;
    while i < a.len()
        invariant
            a@.len() == b@.len(),
            i <= a@.len(),
            forall|j: int| 0 <= j < i ==> a@[j] == b@[j],
        decreases a@.len() - i,
    {
        if a[i] != b[i] {
            return false;
        }
        i = i + 1;
    }
    assert(a@ =~= b@);
    true
}

impl PartialEq for Instructions {
    fn eq(&self, other: &Self) -> (same: bool) {
        same_bytes(&self.code, &other.code) && same_lines(&self.lines, &other.lines)
    }
}

impl vstd::std_specs::cmp::PartialEqSpecImpl for Instructions {
    open spec fn obeys_eq_spec() -> bool {
        true
    }

    open spec fn eq_spec(&self, other: &Self) -> bool {
        self.code@ == other.code@ && self.lines@ == other.lines@
    }
}

impl Clone for Instructions {
    fn clone(&self) -> (copy: Instructions)
        ensures
            copy.code@ == self.code@,
            copy.lines@ == self.lines@,
    {
        let copy = Instructions { code: self.code.clone(), lines: self.lines.clone() };
        assert(copy.code@ =~= self.code@);
        assert(copy.lines@ =~= self.lines@);
        copy
    }
}

impl Eq for Instructions {

}

impl Default for Instructions {
    fn default() -> (ins: Instructions)
        ensures
            ins.code@ == Seq::<u8>::empty(),
            ins.lines@ == Seq::<usize>::empty(),
    {
        Instructions { code: Vec::new(), lines: Vec::new() }
    }
}

/// Builds one instruction: the opcode's byte, then each operand in the width
/// that the opcode defines for it, the high byte first. An operand too large
/// for its width loses its high bytes; operands beyond those that the opcode
/// defines are dropped. Every byte is marked with `line`.
pub fn make(op: Opcode, operands: &[usize], line: usize) -> (ins: Instructions)
    ensures
        ins.code@ == encode(op, operands@),
        ins.lines@ == Seq::new(ins.code@.len(), |i: int| line),
{
    let def = match definition(op) {
        Some(def) => def,
        None => {
            let ins = Instructions::default();
            assert(ins.lines@ =~= Seq::new(ins.code@.len(), |i: int| line));
            return ins;
        },
    };
    let mut instruction: Vec<u8> = Vec::new();
    let mut lines: Vec<usize> = Vec::new();
    instruction.push(op.into());
    lines.push(line);
    let widths = &def.operand_widths;
    let mut i: usize = 0;
    while i < operands.len() && i < widths.len()
        invariant
            widths@ == operand_widths(op),
            i <= operands@.len(),
            i <= widths@.len(),
            instruction@ == seq![byte_of_opcode(op)] + encode_operands(
                widths@,
                operands@,
                i as int,
            ),
            lines@ == Seq::new(instruction@.len(), |j: int| line),
        decreases operands@.len() - i,
    {
        let o = operands[i];
        let width = widths[i];
        let ghost before = instruction@;
        if width == 2 {
            let n = (o % 65536) as u16;
            write_u16_be(&mut instruction, n);
            lines.push(line);
            lines.push(line);
        } else {
            let n = (o % 256) as u8;
            write_byte(&mut instruction, n);
            lines.push(line);
        }
        i = i + 1;
        assert(instruction@ =~= seq![byte_of_opcode(op)] + encode_operands(
            widths@,
            operands@,
            i as int,
        ));
        assert(lines@ =~= Seq::new(instruction@.len(), |j: int| line));
    }
    assert(lines@ =~= Seq::new(instruction@.len(), |j: int| line));
    Instructions::new(instruction, lines)
}

/// Reads the operands of the instruction that `def` describes from the bytes
/// that follow its opcode, and says how many bytes they took.
pub fn read_operands(def: &Definition, ins: &[u8]) -> (res: (Vec<usize>, usize))
    requires
        widths_supported(def.operand_widths@),
        width_sum(def.operand_widths@, def.operand_widths@.len() as int) <= ins@.len(),
    ensures
        res.0@ == decode_operands(def.operand_widths@, ins@, def.operand_widths@.len() as int),
        res.0@.len() == def.operand_widths@.len(),
        res.1 == width_sum(def.operand_widths@, def.operand_widths@.len() as int),
{
    let widths = &def.operand_widths;
    let mut operands: Vec<usize> = Vec::new();
    let mut offset: usize = 0;
    let mut i: usize = 0;
    while i < widths.len()
        invariant
            i <= widths@.len(),
            widths_supported(widths@),
            width_sum(widths@, widths@.len() as int) <= ins@.len(),
            offset == width_sum(widths@, i as int),
            operands@ == decode_operands(widths@, ins@, i as int),
            operands@.len() == i,
        decreases widths@.len() - i,
    {
        proof {
            lemma_width_sum_grows(widths@, i as int + 1, widths@.len() as int);
            assert(width_sum(widths@, i as int + 1) == width_sum(widths@, i as int) + widths@[i as int]);
        }
        let width = widths[i];
        let available = ins.len();
        assert(offset + width <= available);
        let value = if width == 2 {
            let two = vstd::slice::slice_subrange(ins, offset, offset + 2);
            read_u16_be(two) as usize
        } else {
            ins[offset] as usize
        };
        operands.push(value);
        offset = offset + width;
        i = i + 1;
    }
    (operands, offset)
}

/// The bytes taken by the first operands are no more than those taken by
/// more of them.
pub proof fn lemma_width_sum_grows(widths: Seq<usize>, n: int, m: int)
    requires
        0 <= n <= m,
    ensures
        0 <= width_sum(widths, n) <= width_sum(widths, m),
    decreases m,
{
    if n < m {
        lemma_width_sum_grows(widths, n, m - 1);
    } else if n > 0 {
        lemma_width_sum_grows(widths, n - 1, n - 1);
    }
}

impl Instructions {
    pub fn new(data: Vec<u8>, lines: Vec<usize>) -> (ins: Instructions)
        ensures
            ins.code == data,
            ins.lines == lines,
    {
        Instructions { code: data, lines }
    }

    /// The number of bytes in the stream.
    pub fn len(&self) -> (n: usize)
        ensures
            n == self.code@.len(),
    {
        self.code.len()
    }

    /// The byte at `index`.
    pub fn get(&self, index: usize) -> (byte: u8)
        requires
            index < self.code@.len(),
        ensures
            byte == self.code@[index as int],
    {
        self.code[index]
    }
}

/// The number of bytes that an instruction with this opcode takes.
#[verifier::opaque]
pub open spec fn instruction_len(op: Opcode) -> int {
    1 + width_sum(operand_widths(op), operand_widths(op).len() as int)
}

/// The printed form of one instruction: its name, then its operands in
/// decimal, each after a space.
pub open spec fn instruction_text(name: Seq<char>, count: nat, operands: Seq<usize>) -> Seq<char> {
    if operands.len() != count {
        "ERROR: operand len "@ + decimal(operands.len()) + " does not match defined "@ + decimal(
            count,
        )
    } else if count == 0 {
        name
    } else if count == 1 {
        name.push(' ') + decimal(operands[0] as nat)
    } else if count == 2 {
        name.push(' ') + decimal(operands[0] as nat) + seq![' '] + decimal(operands[1] as nat)
    } else {
        "ERROR: unhandled operandCount for "@ + name
    }
}

/// The operands of the instruction whose opcode is at `at`.
pub open spec fn operands_at(code: Seq<u8>, at: int) -> Seq<usize> {
    let widths = operand_widths(opcode_of_byte(code[at]));
    decode_operands(widths, code.subrange(at + 1, code.len() as int), widths.len() as int)
}

/// The printed line of what stands at `at`: the offset in four digits and
/// the instruction, or what is wrong with the bytes there.
pub open spec fn line_text(code: Seq<u8>, at: int) -> Seq<char> {
    let op = opcode_of_byte(code[at]);
    if !is_defined(op) {
        ("ERROR: "@ + undefined_message(code[at])).push('\n')
    } else if at + instruction_len(op) > code.len() {
        "ERROR: instruction cut short"@.push('\n')
    } else {
        (padded_decimal(at as nat, 4).push(' ') + instruction_text(
            opcode_name(op),
            operand_widths(op).len(),
            operands_at(code, at),
        )).push('\n')
    }
}

/// Where the walk through the stream goes on after `at`: one byte further
/// after a byte that stands for no opcode, else past the instruction.
pub open spec fn next_offset(code: Seq<u8>, at: int) -> int {
    let op = opcode_of_byte(code[at]);
    if !is_defined(op) {
        at + 1
    } else {
        at + instruction_len(op)
    }
}

/// The printed form of the stream from `at` on, one line for each
/// instruction.
pub open spec fn disassembly(code: Seq<u8>, at: int) -> Seq<char>
    decreases code.len() - at,
{
    if at < 0 || at >= code.len() {
        Seq::<char>::empty()
    } else if next_offset(code, at) <= at {
        Seq::<char>::empty()
    } else if next_offset(code, at) > code.len() {
        line_text(code, at)
    } else {
        line_text(code, at) + disassembly(code, next_offset(code, at))
    }
}

/// The opcodes of the stream from `at` on, as the walk that prints it meets
/// them. A byte that stands for no opcode counts as `Invalid`.
pub open spec fn opcodes_from(code: Seq<u8>, at: int) -> Seq<Opcode>
    decreases code.len() - at,
{
    if at < 0 || at >= code.len() {
        Seq::<Opcode>::empty()
    } else if next_offset(code, at) <= at {
        Seq::<Opcode>::empty()
    } else if next_offset(code, at) > code.len() {
        seq![opcode_of_byte(code[at])]
    } else {
        seq![opcode_of_byte(code[at])] + opcodes_from(code, next_offset(code, at))
    }
}

/// An instruction takes at least its opcode's byte and at most four bytes.
pub proof fn lemma_instruction_len_bounds(op: Opcode)
    ensures
        1 <= instruction_len(op) <= 4,
        widths_supported(operand_widths(op)),
        operand_widths(op).len() <= 2,
        instruction_len(op) == 1 + width_sum(operand_widths(op), operand_widths(op).len() as int),
{
    reveal(instruction_len);
    reveal_with_fuel(width_sum, 3);
}

/// The instructions with one operand of two bytes take three bytes, and
/// the two opcodes that end a function take one.
pub proof fn lemma_instruction_lens()
    ensures
        instruction_len(Opcode::Jump) == 3,
        instruction_len(Opcode::JumpIfFalse) == 3,
        instruction_len(Opcode::Constant) == 3,
        instruction_len(Opcode::Pop) == 1,
        instruction_len(Opcode::ReturnValue) == 1,
        instruction_len(Opcode::Return) == 1,
{
    reveal(instruction_len);
    reveal_with_fuel(width_sum, 3);
}

/// An instruction that `make` writes with all its operands takes as many
/// bytes as its opcode says, and starts with the opcode's byte.
pub proof fn lemma_encode_shape(op: Opcode, operands: Seq<usize>)
    requires
        is_defined(op),
        operands.len() >= operand_widths(op).len(),
    ensures
        encode(op, operands).len() == instruction_len(op),
        1 <= instruction_len(op) <= 4,
        encode(op, operands)[0] == byte_of_opcode(op),
        opcode_of_byte(encode(op, operands)[0]) == op,
{
    lemma_instruction_len_bounds(op);
    lemma_encoded_len(operand_widths(op), operands, operand_widths(op).len() as int);
    crate::code::opcode::lemma_opcode_byte_round_trip(op);
}

impl Instructions {
    /// The printed form of one instruction.
    pub fn fmt_instruction(&self, def: &Definition, operands: &[usize]) -> (text: String)
        ensures
            text@ == instruction_text(def.name@, def.operand_widths@.len(), operands@),
    {
        let operand_count = def.operand_widths.len();
        if operands.len() != operand_count {
            let mut text = "ERROR: operand len ".to_owned();
            push_decimal(&mut text, operands.len());
            text.append(" does not match defined ");
            push_decimal(&mut text, operand_count);
            return text;
        }
        if operand_count == 0 {
            def.name.to_owned()
        } else if operand_count == 1 {
            let mut text = def.name.to_owned();
            text.push(' ');
            push_decimal(&mut text, operands[0]);
            text
        } else if operand_count == 2 {
            let mut text = def.name.to_owned();
            text.push(' ');
            push_decimal(&mut text, operands[0]);
            text.push(' ');
            push_decimal(&mut text, operands[1]);
            assert(text@ =~= def.name@.push(' ') + decimal(operands@[0] as nat) + seq![' ']
                + decimal(operands@[1] as nat));
            text
        } else {
            let mut text = "ERROR: unhandled operandCount for ".to_owned();
            text.append(def.name);
            text
        }
    }

    /// The stream printed one instruction to a line: the offset in four
    /// digits, the opcode's name and the operands. A byte that stands for
    /// no opcode gets a line that says so and the walk goes on behind it; an
    /// instruction whose operands the stream does not hold ends the walk.
    pub fn to_string(&self) -> (out: String)
        ensures
            out@ == disassembly(self.code@, 0),
    {
        let mut out = String::new();
        let mut i: usize = 0;
        let n = self.code.len();
        while i < n
            invariant
                n == self.code@.len(),
                i <= n,
                out@ + disassembly(self.code@, i as int) == disassembly(self.code@, 0),
            decreases n - i,
        {
            let ghost before = out@;
            let ghost code = self.code@;
            let byte = self.code[i];
            proof {
                lemma_instruction_len_bounds(opcode_of_byte(byte));
            }
            match lookup(byte) {
                Err(err) => {
                    out.append("ERROR: ");
                    out.append(err.as_str());
                    out.push('\n');
                    assert(out@ =~= before + line_text(code, i as int));
                    assert(before + (line_text(code, i as int) + disassembly(code, i + 1))
                        =~= before + line_text(code, i as int) + disassembly(code, i + 1));
                    i = i + 1;
                },
                Ok(def) => {
                    let (needed, overflow) = width_total(&def);
                    if overflow || n - i - 1 < needed {
                        out.append("ERROR: instruction cut short");
                        out.push('\n');
                        assert(out@ =~= before + line_text(code, i as int));
                        assert(disassembly(code, i as int) =~= line_text(code, i as int));
                        assert(disassembly(code, n as int) =~= Seq::<char>::empty());
                        i = n;
                    } else {
                        let rest = vstd::slice::slice_subrange(self.code.as_slice(), i + 1, n);
                        let (operands, read) = read_operands(&def, rest);
                        let text = self.fmt_instruction(&def, operands.as_slice());
                        push_padded_decimal(&mut out, i, 4);
                        out.push(' ');
                        out.append(text.as_str());
                        out.push('\n');
                        assert(out@ =~= before + line_text(code, i as int));
                        assert(before + (line_text(code, i as int) + disassembly(
                            code,
                            i + 1 + read,
                        )) =~= before + line_text(code, i as int) + disassembly(code, i + 1 + read));
                        i = i + 1 + read;
                    }
                },
            }
        }
        assert(out@ + Seq::<char>::empty() =~= out@);
        out
    }
}

/// The bytes that the operands of `def` take; the flag is set where that
/// number is beyond what a `usize` holds.
fn width_total(def: &Definition) -> (res: (usize, bool))
    ensures
        !res.1 ==> res.0 == width_sum(def.operand_widths@, def.operand_widths@.len() as int),
        res.1 ==> width_sum(def.operand_widths@, def.operand_widths@.len() as int) > usize::MAX,
{
    let widths = &def.operand_widths;
    let mut total: usize = 0;
    let mut i: usize = 0;
    while i < widths.len()
        invariant
            widths@ == def.operand_widths@,
            i <= widths@.len(),
            total == width_sum(widths@, i as int),
        decreases widths@.len() - i,
    {
        if widths[i] > usize::MAX - total {
            proof {
                lemma_width_sum_grows(widths@, i as int + 1, widths@.len() as int);
                assert(width_sum(widths@, i as int + 1) == width_sum(widths@, i as int)
                    + widths@[i as int]);
            }
            return (0, true);
        }
        total = total + widths[i];
        i = i + 1;
    }
    (total, false)
}

/// What `read_operands` gives for the bytes that `make` wrote: the operands
/// that went in, where there is one for each width and each fits its width,
/// and the instruction takes one byte and the widths' sum.
pub proof fn lemma_read_operands_of_make(op: Opcode, operands: Seq<usize>)
    requires
        is_defined(op),
        operands.len() == operand_widths(op).len(),
        forall|i: int|
            0 <= i < operands.len() ==> operand_fits(
                #[trigger] operand_widths(op)[i],
                operands[i],
            ),
    ensures
        encode(op, operands).len() == instruction_len(op),
        encode(op, operands)[0] == byte_of_opcode(op),
        decode_operands(
            operand_widths(op),
            encode(op, operands).subrange(1, encode(op, operands).len() as int),
            operands.len() as int,
        ) == operands,
{
    let widths = operand_widths(op);
    let n = operands.len() as int;
    let bytes = encode(op, operands).subrange(1, encode(op, operands).len() as int);
    lemma_instruction_len_bounds(op);
    assert(bytes =~= encode_operands(widths, operands, n));
    assert(bytes.subrange(0, bytes.len() as int) =~= bytes);
    lemma_decode_encoded(widths, operands, bytes, n);
    assert(operands.subrange(0, n) =~= operands);
}

/// The bytes of the first `n` operands take the widths' sum, and reading
/// them back from any bytes that start with them gives the operands.
pub proof fn lemma_decode_encoded(
    widths: Seq<usize>,
    operands: Seq<usize>,
    bytes: Seq<u8>,
    n: int,
)
    requires
        widths_supported(widths),
        0 <= n <= widths.len(),
        n <= operands.len(),
        forall|i: int| 0 <= i < n ==> operand_fits(#[trigger] widths[i], operands[i]),
        encode_operands(widths, operands, n).len() <= bytes.len(),
        bytes.subrange(0, encode_operands(widths, operands, n).len() as int) == encode_operands(
            widths,
            operands,
            n,
        ),
    ensures
        encode_operands(widths, operands, n).len() == width_sum(widths, n),
        decode_operands(widths, bytes, n) == operands.subrange(0, n),
    decreases n,
{
    if n <= 0 {
        assert(decode_operands(widths, bytes, n) =~= operands.subrange(0, n));
    } else {
        let shorter = encode_operands(widths, operands, n - 1);
        let last = encode_operand(widths[n - 1], operands[n - 1]);
        let whole = encode_operands(widths, operands, n);
        assert(whole == shorter + last);
        assert(bytes.subrange(0, shorter.len() as int) =~= shorter) by {
            assert forall|j: int| 0 <= j < shorter.len() implies bytes[j] == shorter[j] by {
                assert(bytes.subrange(0, whole.len() as int)[j] == whole[j]);
            }
        }
        lemma_decode_encoded(widths, operands, bytes, n - 1);
        let at = width_sum(widths, n - 1);
        assert(operand_fits(widths[n - 1], operands[n - 1]));
        assert(forall|j: int|
            0 <= j < last.len() ==> bytes[at + j] == last[j]) by {
            assert forall|j: int| 0 <= j < last.len() implies bytes[at + j] == last[j] by {
                assert(bytes.subrange(0, whole.len() as int)[at + j] == whole[at + j]);
            }
        }
        if widths[n - 1] == 2 {
            assert(bytes[at] == last[0]);
            assert(bytes[at + 1] == last[1]);
        } else {
            assert(bytes[at] == last[0]);
        }
        assert(decode_operand(widths[n - 1], bytes, at) == operands[n - 1]);
        assert(decode_operands(widths, bytes, n) =~= operands.subrange(0, n));
    }
}

/// The bytes of a run of instructions, one after the other.
pub open spec fn encode_all(ops: Seq<(Opcode, Seq<usize>)>) -> Seq<u8>
    decreases ops.len(),
{
    if ops.len() == 0 {
        Seq::<u8>::empty()
    } else {
        encode(ops[0].0, ops[0].1) + encode_all(ops.drop_first())
    }
}

/// The walk over a stream sees behind some bytes what it sees in the bytes
/// that follow them.
pub proof fn lemma_opcodes_shift(front: Seq<u8>, back: Seq<u8>, at: int)
    requires
        0 <= at,
    ensures
        opcodes_from(front + back, front.len() + at) == opcodes_from(back, at),
    decreases back.len() - at,
{
    let whole = front + back;
    if at < back.len() {
        assert(whole[front.len() + at] == back[at]);
        lemma_instruction_len_bounds(opcode_of_byte(back[at]));
        assert(next_offset(whole, front.len() + at) == front.len() + next_offset(back, at));
        if next_offset(back, at) <= back.len() {
            lemma_opcodes_shift(front, back, next_offset(back, at));
        }
    }
}

/// The instructions that `make` writes for a run of opcodes, put one after the
/// other and walked through as the printed form does, give the opcodes
/// back in their order, where each opcode is defined and has all its
/// operands.
pub proof fn lemma_disassemble_round_trip(ops: Seq<(Opcode, Seq<usize>)>)
    requires
        forall|i: int|
            0 <= i < ops.len() ==> is_defined(#[trigger] ops[i].0) && ops[i].1.len()
                == operand_widths(ops[i].0).len(),
    ensures
        opcodes_from(encode_all(ops), 0) == ops.map_values(|p: (Opcode, Seq<usize>)| p.0),
    decreases ops.len(),
{
    let names = ops.map_values(|p: (Opcode, Seq<usize>)| p.0);
    if ops.len() == 0 {
        assert(opcodes_from(encode_all(ops), 0) =~= names);
    } else {
        let op = ops[0].0;
        let first = encode(op, ops[0].1);
        let rest = ops.drop_first();
        let tail = encode_all(rest);
        let whole = encode_all(ops);
        assert(is_defined(ops[0].0));
        lemma_instruction_len_bounds(op);
        lemma_encoded_len(operand_widths(op), ops[0].1, ops[0].1.len() as int);
        assert(first.len() == instruction_len(op));
        assert(whole == first + tail);
        assert(whole[0] == byte_of_opcode(op));
        crate::code::opcode::lemma_opcode_byte_round_trip(op);
        assert(next_offset(whole, 0) == first.len());
        assert forall|i: int| 0 <= i < rest.len() implies is_defined(#[trigger] rest[i].0)
            && rest[i].1.len() == operand_widths(rest[i].0).len() by {
            assert(rest[i] == ops[i + 1]);
        }
        lemma_disassemble_round_trip(rest);
        lemma_opcodes_shift(first, tail, 0);
        assert(opcodes_from(whole, 0) =~= names) by {
            let rest_names = rest.map_values(|p: (Opcode, Seq<usize>)| p.0);
            assert(rest_names =~= names.drop_first());
            assert(names =~= seq![op] + rest_names);
        }
    }
}

/// The bytes of the first `n` operands take the sum of their widths.
pub proof fn lemma_encoded_len(widths: Seq<usize>, operands: Seq<usize>, n: int)
    requires
        widths_supported(widths),
        0 <= n <= widths.len(),
    ensures
        encode_operands(widths, operands, n).len() == width_sum(widths, n),
    decreases n,
{
    if n > 0 {
        lemma_encoded_len(widths, operands, n - 1);
    }
}

/// The number of bytes that an instruction with this opcode takes; none
/// for an opcode without a definition.
pub fn instruction_length(op: Opcode) -> (len: usize)
    ensures
        is_defined(op) ==> len == instruction_len(op),
        !is_defined(op) ==> len == 0,
        len <= 4,
{
    proof {
        lemma_instruction_len_bounds(op);
    }
    match definition(op) {
        None => 0,
        Some(def) => {
            let (total, overflow) = width_total(&def);
            1 + total
        },
    }
}

} // verus!
