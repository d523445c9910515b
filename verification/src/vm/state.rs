//! What the machine does, said over plain values: its state as the
//! contracts see it, and what each instruction makes of a state.

use std::rc::Rc;
use vstd::prelude::*;

use crate::code::definitions::{instruction_len, is_defined, operands_at};
use crate::code::opcode::{opcode_of_byte, Opcode};
use crate::common::builtins::{builtin_name_of, is_pure_builtin, pure_builtin_gives, BUILTIN_COUNT};
use crate::common::error::RTError;
use crate::common::number;
use crate::common::object::{
    falsey,
    objects_equal,
    valid_key,
    value_under,
    with_pair,
    Closure,
    Object,
};
use crate::text::{comes_after, decimal, repeated};
use crate::vm::frame::Frame;

verus! {

/// The number of values that the stack holds at most.
pub const STACK_SIZE: usize = 4096;

/// The number of global bindings that a machine starts with.
pub const GLOBALS_SIZE: usize = 65536;

/// The four operations on two numbers that the machine leaves to the
/// program around it.
#[derive(Debug, Clone, Copy, PartialEq, Eq, Structural)]
pub enum ArithOp {
    Add,
    Sub,
    Mul,
    Div,
}

/// What the machine says after a step.
#[derive(Debug)]
pub enum Signal {
    /// An instruction was carried out; the next can follow.
    Continue,
    /// The frame that runs is at the end of its instructions.
    Halt,
    /// The machine took two numbers from the stack and waits for the result
    /// of `op` on them, as a number to be pushed.
    Arith { op: ArithOp, left: u64, right: u64 },
    /// The machine took a call of the built-in function number `index` from
    /// the stack and waits for what the function gives for `args`: a value
    /// to be pushed, or a message for a runtime error on line `line`.
    Native { index: usize, args: Vec<Rc<Object>>, line: usize },
}

/// The state of a machine: the constants of the program, the stack with the
/// number of values on it, the global bindings, and the frames of the calls
/// that are under way, the innermost last.
pub struct VMState {
    pub constants: Seq<Rc<Object>>,
    pub stack: Seq<Rc<Object>>,
    pub sp: int,
    pub globals: Seq<Rc<Object>>,
    pub frames: Seq<Frame>,
}

/// A sequence with `value` at place `at`: in the place of what was there,
/// or at the end where the sequence ended there.
pub open spec fn stored(stack: Seq<Rc<Object>>, at: int, value: Rc<Object>) -> Seq<Rc<Object>> {
    if at < stack.len() {
        stack.update(at, value)
    } else {
        stack.push(value)
    }
}

impl VMState {
    /// The state is sound: the values on the stack are within what the
    /// stack holds, which is within its size, and a frame runs.
    pub open spec fn inv(self) -> bool {
        &&& 0 <= self.sp <= self.stack.len() <= STACK_SIZE
        &&& self.frames.len() >= 1
    }

    /// The frame that runs.
    pub open spec fn frame(self) -> Frame {
        self.frames.last()
    }

    /// The bytes of the instructions that run.
    pub open spec fn code(self) -> Seq<u8> {
        self.frame().closure.func.instructions.code@
    }

    /// The source line of the byte at `ip` of the instructions that run;
    /// zero where the instructions have no line for it.
    pub open spec fn line_at(self, ip: int) -> usize {
        let lines = self.frame().closure.func.instructions.lines@;
        if 0 <= ip < lines.len() {
            lines[ip]
        } else {
            0
        }
    }

    /// The state with the frame that runs at another instruction.
    pub open spec fn with_ip(self, ip: usize) -> VMState {
        VMState {
            frames: self.frames.update(
                self.frames.len() - 1,
                Frame { closure: self.frame().closure, ip, bp: self.frame().bp },
            ),
            ..self
        }
    }

    /// The value `depth` places below the top of the stack.
    pub open spec fn at(self, depth: int) -> Rc<Object> {
        self.stack[self.sp - 1 - depth]
    }

    /// The state with the top `count` values taken from the stack. They stay
    /// in their slots, but no longer count.
    pub open spec fn dropped(self, count: int) -> VMState {
        VMState { sp: self.sp - count, ..self }
    }

    /// The state with `value` pushed on the stack.
    pub open spec fn pushed(self, value: Rc<Object>) -> VMState {
        VMState { stack: stored(self.stack, self.sp, value), sp: self.sp + 1, ..self }
    }

    /// The values from `from` up to the top of the stack.
    pub open spec fn top_values(self, count: int) -> Seq<Rc<Object>> {
        self.stack.subrange(self.sp - count, self.sp)
    }
}

/// The text of the error for a byte that stands for no opcode.
pub open spec fn undefined_opcode(byte: u8) -> Seq<char> {
    "opcode "@ + decimal(byte as nat) + " undefined"@
}

/// The text of the error for a call with the wrong number of arguments.
pub open spec fn wrong_arguments(want: usize, got: usize) -> Seq<char> {
    "wrong number of arguments: want="@ + decimal(want as nat) + ", got="@ + decimal(got as nat)
}

/// The step ended in a runtime error with this message on this line.
/// Nothing is said of the state after an error.
pub open spec fn fails(res: Result<Signal, RTError>, msg: Seq<char>, line: usize) -> bool {
    res matches Err(err) && err.msg@ == msg && err.line == line
}

/// The step went through and left the state `want`.
pub open spec fn goes_on(post: VMState, res: Result<Signal, RTError>, want: VMState) -> bool {
    res matches Ok(Signal::Continue) && post == want
}

/// The step pushed `value` on the stack of `s`, or failed where the stack
/// was full.
pub open spec fn pushes(
    s: VMState,
    post: VMState,
    res: Result<Signal, RTError>,
    value: Rc<Object>,
    line: usize,
) -> bool {
    if s.sp < STACK_SIZE {
        goes_on(post, res, s.pushed(value))
    } else {
        fails(res, "Stack overflow!"@, line)
    }
}

/// The step pushed a value on the stack of `s`, or failed where the stack
/// was full. The value is the one found on top of the stack afterwards.
pub open spec fn pushes_top(s: VMState, post: VMState, res: Result<Signal, RTError>, line: usize)
    -> bool {
    if s.sp < STACK_SIZE {
        res matches Ok(Signal::Continue) && 0 <= s.sp < post.stack.len() && post == s.pushed(
            post.stack[s.sp],
        )
    } else {
        fails(res, "Stack overflow!"@, line)
    }
}

/// What an arithmetic instruction does. It takes the right operand, then
/// the left, from the stack. Two numbers are handed out with the operation,
/// for their result to be pushed. Two texts are joined by `Add`, and a text
/// is repeated by `Mul` as often as the whole part of the number says; no
/// other operation takes text. Other pairs of values are an error.
pub open spec fn does_arithmetic(
    op: ArithOp,
    s: VMState,
    post: VMState,
    res: Result<Signal, RTError>,
    line: usize,
) -> bool {
    if s.sp < 2 {
        fails(res, "Stack underflow!"@, line)
    } else {
        let right = *s.at(0);
        let left = *s.at(1);
        let rest = s.dropped(2);
        match (left, right) {
            (Object::Number(a), Object::Number(b)) => res matches Ok(
                Signal::Arith { op: o, left: l, right: r },
            ) && o == op && l == a && r == b && post == rest,
            (Object::Str(a), Object::Str(b)) => if op == ArithOp::Add {
                &&& pushes_top(rest, post, res, line)
                &&& *post.stack[rest.sp] matches Object::Str(text)
                &&& text@ == a@ + b@
            } else {
                fails(res, "Invalid operation on strings."@, line)
            },
            (Object::Str(a), Object::Number(n)) => if op == ArithOp::Mul {
                &&& pushes_top(rest, post, res, line)
                &&& *post.stack[rest.sp] matches Object::Str(text)
                &&& text@ == repeated(a@, number::repeat_count(n) as nat)
            } else {
                fails(res, "Invalid operation on strings."@, line)
            },
            (Object::Number(n), Object::Str(a)) => if op == ArithOp::Mul {
                &&& pushes_top(rest, post, res, line)
                &&& *post.stack[rest.sp] matches Object::Str(text)
                &&& text@ == repeated(a@, number::repeat_count(n) as nat)
            } else {
                fails(res, "Invalid operation on strings."@, line)
            },
            _ => fails(res, "Invalid binary operation."@, line),
        }
    }
}

/// What `Greater` gives for two values: numbers compare by value, texts in
/// the order of a dictionary; other pairs do not compare.
pub open spec fn greater_of(left: Object, right: Object) -> Option<bool> {
    match (left, right) {
        (Object::Number(a), Object::Number(b)) => Some(number::greater(a, b)),
        (Object::Str(a), Object::Str(b)) => Some(comes_after(a@, b@)),
        _ => None,
    }
}

/// What a comparison does: it takes the right operand, then the left, from
/// the stack and pushes the truth value of the comparison.
pub open spec fn does_comparison(
    op: Opcode,
    s: VMState,
    post: VMState,
    res: Result<Signal, RTError>,
    line: usize,
) -> bool {
    if s.sp < 2 {
        fails(res, "Stack underflow!"@, line)
    } else {
        let right = *s.at(0);
        let left = *s.at(1);
        let rest = s.dropped(2);
        if op == Opcode::Equal {
            pushes(rest, post, res, Rc::new(Object::Bool(objects_equal(left, right))), line)
        } else if op == Opcode::NotEqual {
            pushes(rest, post, res, Rc::new(Object::Bool(!objects_equal(left, right))), line)
        } else {
            match greater_of(left, right) {
                Some(b) => pushes(rest, post, res, Rc::new(Object::Bool(b)), line),
                None => fails(res, "Invalid binary operation."@, line),
            }
        }
    }
}

/// What `Minus` and `Bang` do to the value on top of the stack: `Minus`
/// gives a number its other sign and takes nothing else; `Bang` gives true
/// for a value that counts as false and false for any other.
pub open spec fn does_unary(
    op: Opcode,
    s: VMState,
    post: VMState,
    res: Result<Signal, RTError>,
    line: usize,
) -> bool {
    if op == Opcode::Minus {
        if s.sp >= 1 && *s.at(0) is Number {
            pushes(
                s.dropped(1),
                post,
                res,
                Rc::new(Object::Number(number::negated((*s.at(0))->Number_0))),
                line,
            )
        } else {
            fails(res, "Operand must be a number"@, line)
        }
    } else {
        if s.sp >= 1 {
            pushes(s.dropped(1), post, res, Rc::new(Object::Bool(falsey(*s.at(0)))), line)
        } else {
            fails(res, "Stack underflow!"@, line)
        }
    }
}

/// What the two jumps do: `Jump` goes to its target; `JumpIfFalse` takes a
/// value from the stack and goes to its target where the value counts as
/// false.
pub open spec fn does_jump(
    op: Opcode,
    target: usize,
    s: VMState,
    post: VMState,
    res: Result<Signal, RTError>,
    line: usize,
) -> bool {
    if op == Opcode::Jump {
        goes_on(post, res, s.with_ip(target))
    } else if s.sp < 1 {
        fails(res, "Stack underflow!"@, line)
    } else if falsey(*s.at(0)) {
        goes_on(post, res, s.dropped(1).with_ip(target))
    } else {
        goes_on(post, res, s.dropped(1))
    }
}

/// What the instructions do that fetch and store bindings: globals by their
/// index, locals by their place above the frame's base, captured values by
/// their place in the closure that runs.
pub open spec fn does_binding(
    op: Opcode,
    index: usize,
    s: VMState,
    post: VMState,
    res: Result<Signal, RTError>,
    line: usize,
) -> bool {
    if op == Opcode::GetGlobal {
        if index < s.globals.len() {
            pushes(s, post, res, s.globals[index as int], line)
        } else {
            fails(res, "global not found"@, line)
        }
    } else if op == Opcode::SetGlobal {
        if s.sp < 1 {
            fails(res, "Stack underflow!"@, line)
        } else if index < s.globals.len() {
            goes_on(
                post,
                res,
                VMState { globals: s.globals.update(index as int, s.at(0)), ..s.dropped(1) },
            )
        } else {
            fails(res, "global not found"@, line)
        }
    } else if op == Opcode::GetLocal {
        if s.frame().bp + index < s.sp {
            pushes(s, post, res, s.stack[s.frame().bp + index], line)
        } else {
            fails(res, "local not found"@, line)
        }
    } else if op == Opcode::SetLocal {
        if s.sp < 1 {
            fails(res, "Stack underflow!"@, line)
        } else if s.frame().bp + index < s.sp - 1 {
            goes_on(
                post,
                res,
                VMState {
                    stack: s.stack.update(s.frame().bp + index, s.at(0)),
                    ..s.dropped(1)
                },
            )
        } else {
            fails(res, "local not found"@, line)
        }
    } else if op == Opcode::GetFree {
        if index < s.frame().closure.free@.len() {
            pushes(s, post, res, s.frame().closure.free@[index as int], line)
        } else {
            fails(res, "free variable not found"@, line)
        }
    } else {
        // GetBuiltin
        if index < BUILTIN_COUNT {
            &&& pushes_top(s, post, res, line)
            &&& s.sp < STACK_SIZE ==> {
                &&& *post.stack[s.sp] matches Object::Builtin(f)
                &&& f.index == index
                &&& f.name@ == builtin_name_of(index)
            }
        } else {
            fails(res, "builtin not found"@, line)
        }
    }
}

/// The pairs of a mapping built from the first `n` of the values, which
/// are keys and values in turn; a key that comes again gives its place to
/// the later value.
pub open spec fn pairs_of(values: Seq<Rc<Object>>, n: int) -> Seq<(Rc<Object>, Rc<Object>)>
    decreases n,
{
    if n < 2 {
        Seq::empty()
    } else {
        with_pair(pairs_of(values, n - 2), values[n - 2], values[n - 1])
    }
}

/// Whether every second value from the first on, among the first `n`, can
/// be the key of a mapping.
pub open spec fn keys_valid(values: Seq<Rc<Object>>, n: int) -> bool
    decreases n,
{
    if n < 2 {
        true
    } else {
        keys_valid(values, n - 2) && valid_key(*values[n - 2])
    }
}

/// What `Array` and `Map` do: they take the top `count` values from the
/// stack and push an array of them, in the order in which they were
/// pushed, or a mapping of them, keys and values in turn.
pub open spec fn does_collect(
    op: Opcode,
    count: usize,
    s: VMState,
    post: VMState,
    res: Result<Signal, RTError>,
    line: usize,
) -> bool {
    if count > s.sp {
        fails(res, "Stack underflow!"@, line)
    } else if op == Opcode::Array {
        &&& pushes_top(s.dropped(count as int), post, res, line)
        &&& res is Ok ==> {
            &&& *post.stack[s.sp - count] matches Object::Arr(a)
            &&& a.elements@ == s.top_values(count as int)
        }
    } else if count % 2 != 0 {
        fails(res, "a map needs a value for every key"@, line)
    } else if !keys_valid(s.top_values(count as int), count as int) {
        fails(res, "unusable as hash key"@, line)
    } else {
        &&& pushes_top(s.dropped(count as int), post, res, line)
        &&& res is Ok ==> {
            &&& *post.stack[s.sp - count] matches Object::Hash(m)
            &&& m.pairs@ == pairs_of(s.top_values(count as int), count as int)
        }
    }
}

/// What `Index` gives for a collection and a key, where it gives a value:
/// the element of an array that a number names, the value of a mapping
/// under a key, and nil where there is none.
pub open spec fn indexed(collection: Object, key: Object) -> Option<Rc<Object>> {
    match collection {
        Object::Arr(a) => match key {
            Object::Number(n) => match number::index_of(n) {
                Some(i) => if i < a.elements@.len() {
                    Some(a.elements@[i as int])
                } else {
                    Some(Rc::new(Object::Nil))
                },
                None => Some(Rc::new(Object::Nil)),
            },
            _ => None,
        },
        Object::Hash(m) => if valid_key(key) {
            match value_under(m.pairs@, key) {
                Some(v) => Some(v),
                None => Some(Rc::new(Object::Nil)),
            }
        } else {
            None
        },
        _ => None,
    }
}

/// The message of `Index` where it gives no value.
pub open spec fn index_error(collection: Object, key: Object) -> Seq<char> {
    match collection {
        Object::Arr(a) => "array index must be a number"@,
        Object::Hash(m) => "unusable as hash key"@,
        _ => "index operator not supported"@,
    }
}

/// What `Index` does: it takes the key, then the collection, from the stack
/// and pushes what the collection holds at the key.
pub open spec fn does_index(s: VMState, post: VMState, res: Result<Signal, RTError>, line: usize)
    -> bool {
    if s.sp < 2 {
        fails(res, "Stack underflow!"@, line)
    } else {
        match indexed(*s.at(1), *s.at(0)) {
            Some(v) => pushes(s.dropped(2), post, res, v, line),
            None => fails(res, index_error(*s.at(1), *s.at(0)), line),
        }
    }
}

/// The stack made as long as `len` with nil, where it was shorter.
pub open spec fn extended(stack: Seq<Rc<Object>>, len: int) -> Seq<Rc<Object>> {
    if len <= stack.len() {
        stack
    } else {
        stack + Seq::new((len - stack.len()) as nat, |i: int| Rc::new(Object::Nil))
    }
}

/// What `Call` does with `count` arguments on the stack and the callee
/// below them.
///
/// A closure must take as many parameters as there are arguments. It gets a
/// frame whose base is the slot of the first argument, and the stack counts
/// up to the slots of its local bindings; these hold nil where the stack
/// was not that long yet. A built-in function and its arguments leave the
/// stack. One that the machine works out by itself has what it gives pushed;
/// any other is handed out with its arguments, for what it gives to be
/// pushed. Any other value cannot be called.
pub open spec fn does_call(
    count: usize,
    s: VMState,
    post: VMState,
    res: Result<Signal, RTError>,
    line: usize,
) -> bool {
    if s.sp < count + 1 {
        fails(res, "Stack underflow!"@, line)
    } else {
        let args = s.top_values(count as int);
        let rest = s.dropped(count + 1);
        match *s.at(count as int) {
            Object::Clos(closure) => if closure.func.num_params != count {
                fails(res, wrong_arguments(closure.func.num_params, count), line)
            } else if s.sp - count + closure.func.num_locals > STACK_SIZE {
                fails(res, "Stack overflow!"@, line)
            } else {
                goes_on(
                    post,
                    res,
                    VMState {
                        frames: s.frames.push(
                            Frame { closure, ip: 0, bp: (s.sp - count) as usize },
                        ),
                        sp: s.sp - count + closure.func.num_locals,
                        stack: extended(s.stack, s.sp - count + closure.func.num_locals),
                        ..s
                    },
                )
            },
            Object::Builtin(f) => if f.index >= BUILTIN_COUNT {
                fails(res, "builtin not found"@, line)
            } else if is_pure_builtin(f.index) {
                match res {
                    Ok(signal) => {
                        &&& signal is Continue
                        &&& 0 <= rest.sp < post.stack.len()
                        &&& post == rest.pushed(post.stack[rest.sp])
                        &&& pure_builtin_gives(
                            f.index,
                            args,
                            Ok::<Rc<Object>, String>(post.stack[rest.sp]),
                        )
                    },
                    Err(err) => err.line == line && pure_builtin_gives(
                        f.index,
                        args,
                        Err::<Rc<Object>, String>(err.msg),
                    ),
                }
            } else {
                &&& res matches Ok(Signal::Native { index, args: handed, line: at })
                &&& index == f.index
                &&& handed@ == args
                &&& at == line
                &&& post == rest
            },
            _ => fails(res, "not a function"@, line),
        }
    }
}

/// What `ReturnValue` and `Return` do: the frame that runs ends, the stack
/// loses what the call put on it, the callee included, and gets what the
/// call gives: the value on top of the stack for `ReturnValue`, nil for
/// `Return`. The outermost frame is no call and cannot return.
pub open spec fn does_return(
    op: Opcode,
    s: VMState,
    post: VMState,
    res: Result<Signal, RTError>,
    line: usize,
) -> bool {
    if op == Opcode::ReturnValue && s.sp < 1 {
        fails(res, "Stack underflow!"@, line)
    } else if s.frames.len() < 2 || s.frame().bp < 1 || s.frame().bp > s.stack.len() {
        fails(res, "return outside of a function"@, line)
    } else {
        let value = if op == Opcode::ReturnValue {
            s.at(0)
        } else {
            Rc::new(Object::Nil)
        };
        goes_on(
            post,
            res,
            (VMState { frames: s.frames.drop_last(), sp: s.frame().bp - 1, ..s }).pushed(value),
        )
    }
}

/// What `Closure` does: it takes the top `count` values from the stack and
/// pushes a closure of the compiled function at `index` of the constants
/// that holds them as its captured values.
pub open spec fn does_closure(
    index: usize,
    count: usize,
    s: VMState,
    post: VMState,
    res: Result<Signal, RTError>,
    line: usize,
) -> bool {
    if index >= s.constants.len() {
        fails(res, "constant not found"@, line)
    } else if !(*s.constants[index as int] is CompiledFunc) {
        fails(res, "not a function"@, line)
    } else if count > s.sp {
        fails(res, "Stack underflow!"@, line)
    } else {
        &&& pushes_top(s.dropped(count as int), post, res, line)
        &&& res is Ok ==> {
            &&& *post.stack[s.sp - count] matches Object::Clos(c)
            &&& Object::CompiledFunc(c.func) == *s.constants[index as int]
            &&& c.free@ == s.top_values(count as int)
        }
    }
}

/// What the instruction `op` with these operands does to the state `s`,
/// whose frame is already at the next instruction.
pub open spec fn executes(
    op: Opcode,
    operands: Seq<usize>,
    s: VMState,
    post: VMState,
    res: Result<Signal, RTError>,
    line: usize,
) -> bool {
    match op {
        Opcode::Constant => if operands[0] < s.constants.len() {
            pushes(s, post, res, s.constants[operands[0] as int], line)
        } else {
            fails(res, "constant not found"@, line)
        },
        Opcode::Pop => if s.sp < 1 {
            fails(res, "Stack underflow!"@, line)
        } else {
            goes_on(post, res, s.dropped(1))
        },
        Opcode::Add => does_arithmetic(ArithOp::Add, s, post, res, line),
        Opcode::Sub => does_arithmetic(ArithOp::Sub, s, post, res, line),
        Opcode::Mul => does_arithmetic(ArithOp::Mul, s, post, res, line),
        Opcode::Div => does_arithmetic(ArithOp::Div, s, post, res, line),
        Opcode::True => pushes(s, post, res, Rc::new(Object::Bool(true)), line),
        Opcode::False => pushes(s, post, res, Rc::new(Object::Bool(false)), line),
        Opcode::Nil => pushes(s, post, res, Rc::new(Object::Nil), line),
        Opcode::Equal | Opcode::NotEqual | Opcode::Greater => does_comparison(
            op,
            s,
            post,
            res,
            line,
        ),
        Opcode::Minus | Opcode::Bang => does_unary(op, s, post, res, line),
        Opcode::Jump | Opcode::JumpIfFalse => does_jump(op, operands[0], s, post, res, line),
        Opcode::GetGlobal | Opcode::SetGlobal | Opcode::GetLocal | Opcode::SetLocal
        | Opcode::GetBuiltin | Opcode::GetFree => does_binding(
            op,
            operands[0],
            s,
            post,
            res,
            line,
        ),
        Opcode::CurrClosure => {
            &&& pushes_top(s, post, res, line)
            &&& s.sp < STACK_SIZE ==> *post.stack[s.sp] == Object::Clos(s.frame().closure)
        },
        Opcode::Array | Opcode::Hash => does_collect(op, operands[0], s, post, res, line),
        Opcode::Index => does_index(s, post, res, line),
        Opcode::Call => does_call(operands[0], s, post, res, line),
        Opcode::ReturnValue | Opcode::Return => does_return(op, s, post, res, line),
        Opcode::Closure => does_closure(operands[0], operands[1], s, post, res, line),
        Opcode::Invalid => false,
    }
}

/// What one step of the machine does. At the end of the instructions of
/// the frame that runs, the machine halts and stays as it is. Else it reads
/// the instruction at the frame's instruction pointer, sets the pointer
/// behind it, and carries it out. A byte that stands for no opcode, and an
/// instruction whose operands the stream does not hold, are errors. An
/// error bears the line of the instruction's first byte.
pub open spec fn step_relation(pre: VMState, post: VMState, res: Result<Signal, RTError>) -> bool {
    let ip = pre.frame().ip as int;
    let code = pre.code();
    if ip >= code.len() {
        res matches Ok(Signal::Halt) && post == pre
    } else {
        let op = opcode_of_byte(code[ip]);
        let line = pre.line_at(ip);
        if !is_defined(op) {
            fails(res, undefined_opcode(code[ip]), line)
        } else if ip + instruction_len(op) > code.len() {
            fails(res, "instruction cut short"@, line)
        } else {
            executes(
                op,
                operands_at(code, ip),
                pre.with_ip((ip + instruction_len(op)) as usize),
                post,
                res,
                line,
            )
        }
    }
}

/// Whether a step carried an instruction out and the next can follow.
pub open spec fn went_through(res: Result<Signal, RTError>) -> bool {
    res matches Ok(Signal::Continue)
}

/// Whether `post` is what `pre` comes to after `n` steps that each went
/// through.
pub open spec fn reaches(pre: VMState, post: VMState, n: nat) -> bool
    decreases n,
{
    if n == 0 {
        post == pre
    } else {
        exists|mid: VMState, signal: Result<Signal, RTError>|
            reaches(pre, mid, (n - 1) as nat) && went_through(signal) && #[trigger] step_relation(
                mid,
                post,
                signal,
            )
    }
}

/// What a run of the machine does: a number of steps that each went
/// through, and then one more, whose outcome is the outcome of the run. A
/// run ends with a step that did not simply go through; only a run of as
/// many steps as a `usize` counts may end otherwise.
pub open spec fn run_relation(pre: VMState, post: VMState, res: Result<Signal, RTError>) -> bool {
    exists|n: nat, last: VMState|
        #![trigger reaches(pre, last, n)]
        reaches(pre, last, n) && step_relation(last, post, res) && (went_through(res) ==> n + 1
            >= usize::MAX)
}

} // verus!
