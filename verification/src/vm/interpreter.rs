use std::rc::Rc;
use vstd::prelude::*;

use crate::code::definitions::{
    definition,
    instruction_length,
    is_defined,
    lemma_instruction_len_bounds,
    operand_widths,
    read_operands,
};
use crate::code::opcode::Opcode;
use crate::common::builtins::{builtin_is_pure, builtin_name, call_pure_builtin, BUILTIN_COUNT};
use crate::common::error::RTError;
use crate::common::number::{number_index, number_negate, number_repeat_count};
use crate::common::object::{
    Array,
    BuiltinFunction,
    Closure,
    CompiledFunction,
    HMap,
    Object,
};
use crate::common::shared::share;
use crate::compiler::Bytecode;
use crate::text::{push_decimal, repeat_text, text_greater};
use crate::vm::frame::Frame;
use crate::vm::state::{
    does_arithmetic,
    does_binding,
    does_call,
    does_closure,
    does_collect,
    does_comparison,
    does_index,
    does_jump,
    does_return,
    does_unary,
    executes,
    extended,
    keys_valid,
    pairs_of,
    pushes,
    pushes_top,
    reaches,
    run_relation,
    step_relation,
    went_through,
    ArithOp,
    Signal,
    VMState,
    GLOBALS_SIZE,
    STACK_SIZE,
};

verus! {

/// The machine: the constants of the program, a stack of values, the
/// global bindings, and the frames of the calls that are under way.
pub struct VM {
    constants: Vec<Rc<Object>>,
    stack: Vec<Rc<Object>>,
    sp: usize,
    pub globals: Vec<Rc<Object>>,
    frames: Vec<Frame>,
}

/// As many nils as the machine has global bindings to start with.
pub open spec fn fresh_globals() -> Seq<Rc<Object>> {
    Seq::new(GLOBALS_SIZE as nat, |i: int| Rc::new(Object::Nil))
}

/// The state in which a machine starts a program: nothing on the stack,
/// and one frame, at the first instruction of the program, for a closure
/// without captured values of a function without parameters or local
/// bindings whose instructions are the program's.
pub open spec fn starts_with(
    s: VMState,
    code: Seq<u8>,
    lines: Seq<usize>,
    constants: Seq<Rc<Object>>,
    globals: Seq<Rc<Object>>,
) -> bool {
    &&& s.constants == constants
    &&& s.globals == globals
    &&& s.stack == Seq::<Rc<Object>>::empty()
    &&& s.sp == 0
    &&& s.frames.len() == 1
    &&& s.frames[0].ip == 0
    &&& s.frames[0].bp == 0
    &&& s.frames[0].closure.free@ == Seq::<Rc<Object>>::empty()
    &&& s.frames[0].closure.func.num_locals == 0
    &&& s.frames[0].closure.func.num_params == 0
    &&& s.frames[0].closure.func.instructions.code@ == code
    &&& s.frames[0].closure.func.instructions.lines@ == lines
}

impl VM {
    pub closed spec fn view(&self) -> VMState {
        VMState {
            constants: self.constants@,
            stack: self.stack@,
            sp: self.sp as int,
            globals: self.globals@,
            frames: self.frames@,
        }
    }

    /// The machine's state is sound.
    pub open spec fn wf(&self) -> bool {
        self@.inv()
    }

    /// A machine for a compiled program, with all global bindings nil.
    pub fn new(bytecode: Bytecode) -> (vm: VM)
        ensures
            vm.wf(),
            starts_with(
                vm@,
                bytecode.instructions.code@,
                bytecode.instructions.lines@,
                bytecode.constants@,
                fresh_globals(),
            ),
    {
        let nil = Rc::new(Object::Nil);
        let mut globals: Vec<Rc<Object>> = Vec::new();
        let mut i: usize = 0;
        while i < GLOBALS_SIZE
            invariant
                i <= GLOBALS_SIZE,
                globals@.len() == i,
                *nil == Object::Nil,
                forall|j: int| 0 <= j < i ==> globals@[j] == Rc::new(Object::Nil),
            decreases GLOBALS_SIZE - i,
        {
            globals.push(share(&nil));
            i = i + 1;
        }
        assert(globals@ =~= fresh_globals());
        Self::new_with_global_store(bytecode, globals)
    }

    /// A machine for a compiled program that goes on with the global
    /// bindings of an earlier run.
    pub fn new_with_global_store(bytecode: Bytecode, globals: Vec<Rc<Object>>) -> (vm: VM)
        ensures
            vm.wf(),
            starts_with(
                vm@,
                bytecode.instructions.code@,
                bytecode.instructions.lines@,
                bytecode.constants@,
                globals@,
            ),
    {
        let main_fn = CompiledFunction::new(bytecode.instructions, 0, 0);
        let main_closure = Closure::new(Rc::new(main_fn), Vec::new());
        let mut frames: Vec<Frame> = Vec::new();
        frames.push(Frame::new(Rc::new(main_closure), 0));
        VM { constants: bytecode.constants, stack: Vec::new(), sp: 0, globals, frames }
    }

    /// The value `distance` places below the top of the stack, or nil where
    /// the stack does not reach that far down.
    pub fn peek(&self, distance: usize) -> (value: Rc<Object>)
        requires
            self.wf(),
        ensures
            distance < self@.sp ==> value == self@.at(distance as int),
            distance >= self@.sp ==> *value == Object::Nil,
    {
        if distance >= self.sp {
            Rc::new(Object::Nil)
        } else {
            share(&self.stack[self.sp - distance - 1])
        }
    }

    /// Pushes a value on the stack. A full stack is a runtime error, which
    /// bears line zero as no instruction asked for the push.
    pub fn push(&mut self, obj: Rc<Object>) -> (res: Result<(), RTError>)
        requires
            old(self).wf(),
        ensures
            match res {
                Ok(_) => old(self)@.sp < STACK_SIZE && final(self)@ == old(self)@.pushed(obj)
                    && final(self).wf(),
                Err(err) => old(self)@.sp >= STACK_SIZE && err.msg@ == "Stack overflow!"@
                    && err.line == 0 && final(self)@ == old(self)@,
            },
    {
        if self.sp >= STACK_SIZE {
            return Err(RTError::new("Stack overflow!", 0));
        }
        if self.sp >= self.stack.len() {
            self.stack.push(obj);
        } else {
            self.stack.set(self.sp, obj);
        }
        self.sp = self.sp + 1;
        Ok(())
    }

    /// Takes the top value from the stack. An empty stack is a runtime error
    /// on line `line`. The value stays in its slot, where `last_popped`
    /// finds it.
    pub fn pop(&mut self, line: usize) -> (res: Result<Rc<Object>, RTError>)
        requires
            old(self).wf(),
        ensures
            match res {
                Ok(value) => old(self)@.sp >= 1 && value == old(self)@.at(0) && final(self)@
                    == old(self)@.dropped(1) && final(self).wf(),
                Err(err) => old(self)@.sp == 0 && err.msg@ == "Stack underflow!"@ && err.line
                    == line && final(self)@ == old(self)@,
            },
    {
        if self.sp == 0 {
            return Err(RTError::new("Stack underflow!", line));
        }
        let obj = share(&self.stack[self.sp - 1]);
        self.sp = self.sp - 1;
        Ok(obj)
    }

    /// The value that was taken from the stack last: the one in the slot
    /// above the top. Nil where that slot was never filled.
    pub fn last_popped(&mut self) -> (value: Rc<Object>)
        requires
            old(self).wf(),
        ensures
            final(self)@ == old(self)@,
            old(self)@.sp < old(self)@.stack.len() ==> value == old(self)@.stack[old(self)@.sp],
            old(self)@.sp >= old(self)@.stack.len() ==> *value == Object::Nil,
    {
        if self.sp < self.stack.len() {
            share(&self.stack[self.sp])
        } else {
            Rc::new(Object::Nil)
        }
    }

    /// Pushes a value for the instruction on line `line`.
    fn push_value(&mut self, obj: Rc<Object>, line: usize) -> (res: Result<Signal, RTError>)
        requires
            old(self).wf(),
        ensures
            pushes(old(self)@, final(self)@, res, obj, line),
            pushes_top(old(self)@, final(self)@, res, line),
            res is Ok ==> final(self).wf() && final(self)@.stack[old(self)@.sp] == obj,
    {
        match self.push(obj) {
            Ok(_) => Ok(Signal::Continue),
            Err(_) => Err(RTError::new("Stack overflow!", line)),
        }
    }

    /// Takes the top `count` values from the stack.
    fn drop_values(&mut self, count: usize)
        requires
            old(self).wf(),
            count <= old(self)@.sp,
        ensures
            final(self).wf(),
            final(self)@ == old(self)@.dropped(count as int),
    {
        self.sp = self.sp - count;
    }

    /// The value `depth` places below the top of the stack.
    fn top(&self, depth: usize) -> (value: Rc<Object>)
        requires
            self.wf(),
            depth < self@.sp,
        ensures
            value == self@.at(depth as int),
    {
        share(&self.stack[self.sp - 1 - depth])
    }

    /// The top `count` values of the stack, the lowest first.
    fn top_values(&self, count: usize) -> (values: Vec<Rc<Object>>)
        requires
            self.wf(),
            count <= self@.sp,
        ensures
            values@ == self@.top_values(count as int),
    {
        let start = self.sp - count;
        let mut values: Vec<Rc<Object>> = Vec::new();
        let mut i: usize = start;
        while i < self.sp
            invariant
                self.wf(),
                start <= i <= self.sp,
                start == self.sp - count,
                values@ == self.stack@.subrange(start as int, i as int),
            decreases self.sp - i,
        {
            values.push(share(&self.stack[i]));
            i = i + 1;
            assert(values@ =~= self.stack@.subrange(start as int, i as int));
        }
        values
    }

    /// Sets the frame that runs at another instruction.
    fn set_ip(&mut self, ip: usize)
        requires
            old(self).wf(),
        ensures
            final(self).wf(),
            final(self)@ == old(self)@.with_ip(ip),
    {
        let frame = self.frames.pop().unwrap();
        let moved = Frame { closure: frame.closure, ip, bp: frame.bp };
        self.frames.push(moved);
        assert(self.frames@ =~= old(self)@.with_ip(ip).frames);
    }
}

impl VM {
    /// Carries out `Add`, `Sub`, `Mul` or `Div`.
    fn binary_op(&mut self, optype: ArithOp, line: usize) -> (res: Result<Signal, RTError>)
        requires
            old(self).wf(),
        ensures
            does_arithmetic(optype, old(self)@, final(self)@, res, line),
            res is Ok ==> final(self).wf(),
    {
        if self.sp < 2 {
            return Err(RTError::new("Stack underflow!", line));
        }
        // the right operand lies above the left
        let right = self.top(0);
        let left = self.top(1);
        self.drop_values(2);
        match (&*left, &*right) {
            (Object::Number(a), Object::Number(b)) => Ok(
                Signal::Arith { op: optype, left: *a, right: *b },
            ),
            (Object::Str(a), Object::Str(b)) => {
                match optype {
                    ArithOp::Add => {
                        let mut text = a.clone();
                        text.append(b.as_str());
                        self.push_value(Rc::new(Object::Str(text)), line)
                    },
                    _ => Err(RTError::new("Invalid operation on strings.", line)),
                }
            },
            (Object::Str(a), Object::Number(n)) => {
                match optype {
                    ArithOp::Mul => {
                        let text = repeat_text(a.as_str(), number_repeat_count(*n));
                        self.push_value(Rc::new(Object::Str(text)), line)
                    },
                    _ => Err(RTError::new("Invalid operation on strings.", line)),
                }
            },
            (Object::Number(n), Object::Str(a)) => {
                match optype {
                    ArithOp::Mul => {
                        let text = repeat_text(a.as_str(), number_repeat_count(*n));
                        self.push_value(Rc::new(Object::Str(text)), line)
                    },
                    _ => Err(RTError::new("Invalid operation on strings.", line)),
                }
            },
            _ => Err(RTError::new("Invalid binary operation.", line)),
        }
    }

    /// Carries out `Equal`, `NotEqual` or `Greater`.
    fn comparison(&mut self, op: Opcode, line: usize) -> (res: Result<Signal, RTError>)
        requires
            old(self).wf(),
            op == Opcode::Equal || op == Opcode::NotEqual || op == Opcode::Greater,
        ensures
            does_comparison(op, old(self)@, final(self)@, res, line),
            res is Ok ==> final(self).wf(),
    {
        if self.sp < 2 {
            return Err(RTError::new("Stack underflow!", line));
        }
        let right = self.top(0);
        let left = self.top(1);
        self.drop_values(2);
        match op {
            Opcode::Equal => {
                let same = left.equals(&right);
                self.push_value(Rc::new(Object::Bool(same)), line)
            },
            Opcode::NotEqual => {
                let same = left.equals(&right);
                self.push_value(Rc::new(Object::Bool(!same)), line)
            },
            _ => {
                match (&*left, &*right) {
                    (Object::Number(a), Object::Number(b)) => {
                        let more = crate::common::number::number_greater(*a, *b);
                        self.push_value(Rc::new(Object::Bool(more)), line)
                    },
                    (Object::Str(a), Object::Str(b)) => {
                        let more = text_greater(a.as_str(), b.as_str());
                        self.push_value(Rc::new(Object::Bool(more)), line)
                    },
                    _ => Err(RTError::new("Invalid binary operation.", line)),
                }
            },
        }
    }

    /// Carries out `Minus` or `Bang`.
    fn unary_op(&mut self, op: Opcode, line: usize) -> (res: Result<Signal, RTError>)
        requires
            old(self).wf(),
            op == Opcode::Minus || op == Opcode::Bang,
        ensures
            does_unary(op, old(self)@, final(self)@, res, line),
            res is Ok ==> final(self).wf(),
    {
        match op {
            Opcode::Minus => {
                let operand = self.peek(0);
                match &*operand {
                    Object::Number(n) => {
                        self.drop_values(1);
                        self.push_value(Rc::new(Object::Number(number_negate(*n))), line)
                    },
                    _ => Err(RTError::new("Operand must be a number", line)),
                }
            },
            _ => {
                if self.sp < 1 {
                    return Err(RTError::new("Stack underflow!", line));
                }
                let operand = self.top(0);
                self.drop_values(1);
                self.push_value(Rc::new(Object::Bool(operand.is_falsey())), line)
            },
        }
    }

    /// Carries out `Jump` or `JumpIfFalse`.
    fn jump(&mut self, op: Opcode, target: usize, line: usize) -> (res: Result<Signal, RTError>)
        requires
            old(self).wf(),
            op == Opcode::Jump || op == Opcode::JumpIfFalse,
        ensures
            does_jump(op, target, old(self)@, final(self)@, res, line),
            res is Ok ==> final(self).wf(),
    {
        match op {
            Opcode::Jump => {
                self.set_ip(target);
                Ok(Signal::Continue)
            },
            _ => {
                if self.sp < 1 {
                    return Err(RTError::new("Stack underflow!", line));
                }
                let condition = self.top(0);
                self.drop_values(1);
                if condition.is_falsey() {
                    self.set_ip(target);
                }
                Ok(Signal::Continue)
            },
        }
    }

    /// Carries out an instruction that fetches or stores a binding.
    fn binding(&mut self, op: Opcode, index: usize, line: usize) -> (res: Result<
        Signal,
        RTError,
    >)
        requires
            old(self).wf(),
            op == Opcode::GetGlobal || op == Opcode::SetGlobal || op == Opcode::GetLocal || op
                == Opcode::SetLocal || op == Opcode::GetFree || op == Opcode::GetBuiltin,
        ensures
            does_binding(op, index, old(self)@, final(self)@, res, line),
            res is Ok ==> final(self).wf(),
    {
        let bp = self.frames[self.frames.len() - 1].bp;
        match op {
            Opcode::GetGlobal => {
                if index < self.globals.len() {
                    let value = share(&self.globals[index]);
                    self.push_value(value, line)
                } else {
                    Err(RTError::new("global not found", line))
                }
            },
            Opcode::SetGlobal => {
                if self.sp < 1 {
                    return Err(RTError::new("Stack underflow!", line));
                }
                if index < self.globals.len() {
                    let value = self.top(0);
                    self.drop_values(1);
                    self.globals.set(index, value);
                    Ok(Signal::Continue)
                } else {
                    Err(RTError::new("global not found", line))
                }
            },
            Opcode::GetLocal => {
                if index < self.sp && bp < self.sp - index {
                    let value = share(&self.stack[bp + index]);
                    self.push_value(value, line)
                } else {
                    Err(RTError::new("local not found", line))
                }
            },
            Opcode::SetLocal => {
                if self.sp < 1 {
                    return Err(RTError::new("Stack underflow!", line));
                }
                if index < self.sp - 1 && bp < self.sp - 1 - index {
                    let value = self.top(0);
                    self.drop_values(1);
                    self.stack.set(bp + index, value);
                    Ok(Signal::Continue)
                } else {
                    Err(RTError::new("local not found", line))
                }
            },
            Opcode::GetFree => {
                let frame = &self.frames[self.frames.len() - 1];
                if index < frame.closure.free.len() {
                    let value = share(&frame.closure.free[index]);
                    self.push_value(value, line)
                } else {
                    Err(RTError::new("free variable not found", line))
                }
            },
            _ => {
                if index < BUILTIN_COUNT {
                    let function = BuiltinFunction::new(builtin_name(index).to_owned(), index);
                    self.push_value(Rc::new(Object::Builtin(Box::new(function))), line)
                } else {
                    Err(RTError::new("builtin not found", line))
                }
            },
        }
    }

    /// Carries out `Array` or `Map`.
    fn collect(&mut self, op: Opcode, count: usize, line: usize) -> (res: Result<Signal, RTError>)
        requires
            old(self).wf(),
            op == Opcode::Array || op == Opcode::Hash,
        ensures
            does_collect(op, count, old(self)@, final(self)@, res, line),
            res is Ok ==> final(self).wf(),
    {
        if count > self.sp {
            return Err(RTError::new("Stack underflow!", line));
        }
        let values = self.top_values(count);
        match op {
            Opcode::Array => {
                self.drop_values(count);
                self.push_value(Rc::new(Object::Arr(Rc::new(Array { elements: values }))), line)
            },
            _ => {
                if count % 2 != 0 {
                    return Err(RTError::new("a map needs a value for every key", line));
                }
                let mut map = HMap::new();
                let mut i: usize = 0;
                while i < count
                    invariant
                        i <= count,
                        i % 2 == 0,
                        count % 2 == 0,
                        values@.len() == count,
                        map.wf(),
                        keys_valid(values@, i as int),
                        map.pairs@ == pairs_of(values@, i as int),
                        self@ == old(self)@,
                        self.wf(),
                        op == Opcode::Hash,
                        count <= self.sp,
                        values@ == old(self)@.top_values(count as int),
                    decreases count - i,
                {
                    if !values[i].is_a_valid_key() {
                        proof {
                            lemma_keys_invalid(values@, i as int + 2, count as int);
                        }
                        return Err(RTError::new("unusable as hash key", line));
                    }
                    map.insert(share(&values[i]), share(&values[i + 1]));
                    i = i + 2;
                }
                self.drop_values(count);
                self.push_value(Rc::new(Object::Hash(Rc::new(map))), line)
            },
        }
    }

    /// Carries out `Index`.
    fn index(&mut self, line: usize) -> (res: Result<Signal, RTError>)
        requires
            old(self).wf(),
        ensures
            does_index(old(self)@, final(self)@, res, line),
            res is Ok ==> final(self).wf(),
    {
        if self.sp < 2 {
            return Err(RTError::new("Stack underflow!", line));
        }
        let key = self.top(0);
        let collection = self.top(1);
        match &*collection {
            Object::Arr(a) => {
                match &*key {
                    Object::Number(n) => {
                        let value = match number_index(*n) {
                            Some(i) => if i < a.elements.len() {
                                share(&a.elements[i])
                            } else {
                                Rc::new(Object::Nil)
                            },
                            None => Rc::new(Object::Nil),
                        };
                        self.drop_values(2);
                        self.push_value(value, line)
                    },
                    _ => Err(RTError::new("array index must be a number", line)),
                }
            },
            Object::Hash(m) => {
                if !key.is_a_valid_key() {
                    return Err(RTError::new("unusable as hash key", line));
                }
                let value = match m.get(&key) {
                    Some(v) => v,
                    None => Rc::new(Object::Nil),
                };
                self.drop_values(2);
                self.push_value(value, line)
            },
            _ => Err(RTError::new("index operator not supported", line)),
        }
    }

    /// Carries out `Call`.
    fn call(&mut self, count: usize, line: usize) -> (res: Result<Signal, RTError>)
        requires
            old(self).wf(),
        ensures
            does_call(count, old(self)@, final(self)@, res, line),
            res is Ok ==> final(self).wf(),
    {
        if self.sp <= count {
            return Err(RTError::new("Stack underflow!", line));
        }
        let callee = self.top(count);
        match &*callee {
            Object::Clos(closure) => {
                if closure.func.num_params != count {
                    let mut msg = "wrong number of arguments: want=".to_owned();
                    push_decimal(&mut msg, closure.func.num_params);
                    msg.append(", got=");
                    push_decimal(&mut msg, count);
                    return Err(RTError::new(msg.as_str(), line));
                }
                let bp = self.sp - count;
                let num_locals = closure.func.num_locals;
                if num_locals > STACK_SIZE - bp {
                    return Err(RTError::new("Stack overflow!", line));
                }
                let top = bp + num_locals;
                // the slots of the local bindings
                while self.stack.len() < top
                    invariant
                        top <= STACK_SIZE,
                        self.sp == old(self).sp,
                        self.sp <= self.stack@.len(),
                        self.frames == old(self).frames,
                        self.globals == old(self).globals,
                        self.constants == old(self).constants,
                        old(self)@.stack.len() <= self.stack@.len(),
                        self.stack@.len() <= top || self.stack@.len() == old(self)@.stack.len(),
                        self.stack@ == extended(old(self)@.stack, self.stack@.len() as int),
                    decreases top - self.stack@.len(),
                {
                    self.stack.push(Rc::new(Object::Nil));
                    assert(self.stack@ =~= extended(old(self)@.stack, self.stack@.len() as int));
                }
                assert(self.stack@ =~= extended(old(self)@.stack, top as int));
                self.frames.push(Frame::new(share(closure), bp));
                self.sp = top;
                Ok(Signal::Continue)
            },
            Object::Builtin(function) => {
                let index = function.index;
                if index >= BUILTIN_COUNT {
                    return Err(RTError::new("builtin not found", line));
                }
                let args = self.top_values(count);
                self.drop_values(count + 1);
                if builtin_is_pure(index) {
                    match call_pure_builtin(index, &args) {
                        Ok(value) => self.push_value(value, line),
                        Err(msg) => Err(RTError { msg, line }),
                    }
                } else {
                    Ok(Signal::Native { index, args, line })
                }
            },
            _ => Err(RTError::new("not a function", line)),
        }
    }

    /// Carries out `ReturnValue` or `Return`.
    fn return_from(&mut self, op: Opcode, line: usize) -> (res: Result<Signal, RTError>)
        requires
            old(self).wf(),
            op == Opcode::ReturnValue || op == Opcode::Return,
        ensures
            does_return(op, old(self)@, final(self)@, res, line),
            res is Ok ==> final(self).wf(),
    {
        let value = match op {
            Opcode::ReturnValue => {
                if self.sp < 1 {
                    return Err(RTError::new("Stack underflow!", line));
                }
                self.top(0)
            },
            _ => Rc::new(Object::Nil),
        };
        let bp = self.frames[self.frames.len() - 1].bp;
        if self.frames.len() < 2 || bp < 1 || bp > self.stack.len() {
            return Err(RTError::new("return outside of a function", line));
        }
        self.frames.pop();
        // the callee lies one slot below the frame's base
        self.sp = bp - 1;
        assert(self.frames@ =~= old(self)@.frames.drop_last());
        self.push_value(value, line)
    }

    /// Carries out `Closure`.
    fn make_closure(&mut self, index: usize, count: usize, line: usize) -> (res: Result<
        Signal,
        RTError,
    >)
        requires
            old(self).wf(),
        ensures
            does_closure(index, count, old(self)@, final(self)@, res, line),
            res is Ok ==> final(self).wf(),
    {
        if index >= self.constants.len() {
            return Err(RTError::new("constant not found", line));
        }
        let function = match &*self.constants[index] {
            Object::CompiledFunc(f) => share(f),
            _ => {
                return Err(RTError::new("not a function", line));
            },
        };
        if count > self.sp {
            return Err(RTError::new("Stack underflow!", line));
        }
        let free = self.top_values(count);
        self.drop_values(count);
        self.push_value(Rc::new(Object::Clos(Rc::new(Closure::new(function, free)))), line)
    }

    /// Carries out the instruction `op` with these operands. The frame that
    /// runs is already at the next instruction.
    fn execute(&mut self, op: Opcode, operands: &Vec<usize>, line: usize) -> (res: Result<
        Signal,
        RTError,
    >)
        requires
            old(self).wf(),
            is_defined(op),
            operands@.len() == operand_widths(op).len(),
        ensures
            executes(op, operands@, old(self)@, final(self)@, res, line),
            res is Ok ==> final(self).wf(),
    {
        match op {
            Opcode::Constant => {
                let index = operands[0];
                if index < self.constants.len() {
                    let value = share(&self.constants[index]);
                    self.push_value(value, line)
                } else {
                    Err(RTError::new("constant not found", line))
                }
            },
            Opcode::Pop => {
                if self.sp < 1 {
                    return Err(RTError::new("Stack underflow!", line));
                }
                self.drop_values(1);
                Ok(Signal::Continue)
            },
            Opcode::Add => self.binary_op(ArithOp::Add, line),
            Opcode::Sub => self.binary_op(ArithOp::Sub, line),
            Opcode::Mul => self.binary_op(ArithOp::Mul, line),
            Opcode::Div => self.binary_op(ArithOp::Div, line),
            Opcode::True => self.push_value(Rc::new(Object::Bool(true)), line),
            Opcode::False => self.push_value(Rc::new(Object::Bool(false)), line),
            Opcode::Nil => self.push_value(Rc::new(Object::Nil), line),
            Opcode::Equal => self.comparison(op, line),
            Opcode::NotEqual => self.comparison(op, line),
            Opcode::Greater => self.comparison(op, line),
            Opcode::Minus => self.unary_op(op, line),
            Opcode::Bang => self.unary_op(op, line),
            Opcode::Jump => self.jump(op, operands[0], line),
            Opcode::JumpIfFalse => self.jump(op, operands[0], line),
            Opcode::GetGlobal => self.binding(op, operands[0], line),
            Opcode::SetGlobal => self.binding(op, operands[0], line),
            Opcode::GetLocal => self.binding(op, operands[0], line),
            Opcode::SetLocal => self.binding(op, operands[0], line),
            Opcode::GetBuiltin => self.binding(op, operands[0], line),
            Opcode::GetFree => self.binding(op, operands[0], line),
            Opcode::CurrClosure => {
                let closure = share(&self.frames[self.frames.len() - 1].closure);
                self.push_value(Rc::new(Object::Clos(closure)), line)
            },
            Opcode::Array => self.collect(op, operands[0], line),
            Opcode::Hash => self.collect(op, operands[0], line),
            Opcode::Index => self.index(line),
            Opcode::Call => self.call(operands[0], line),
            Opcode::ReturnValue => self.return_from(op, line),
            Opcode::Return => self.return_from(op, line),
            Opcode::Closure => self.make_closure(operands[0], operands[1], line),
            Opcode::Invalid => Ok(Signal::Halt),
        }
    }

    /// Carries out one instruction of the frame that runs, or says that the
    /// frame is at its end.
    pub fn step(&mut self) -> (res: Result<Signal, RTError>)
        requires
            old(self).wf(),
        ensures
            step_relation(old(self)@, final(self)@, res),
            res is Ok ==> final(self).wf(),
    {
        let frame = &self.frames[self.frames.len() - 1];
        let ip = frame.ip;
        let instructions = frame.instructions();
        let len = instructions.code.len();
        if ip >= len {
            return Ok(Signal::Halt);
        }
        let byte = instructions.code[ip];
        let line = if ip < instructions.lines.len() {
            instructions.lines[ip]
        } else {
            0
        };
        let op = Opcode::from(byte);
        let def = match definition(op) {
            Some(def) => def,
            None => {
                let mut msg = "opcode ".to_owned();
                push_decimal(&mut msg, byte as usize);
                msg.append(" undefined");
                return Err(RTError::new(msg.as_str(), line));
            },
        };
        let size = instruction_length(op);
        proof {
            lemma_instruction_len_bounds(op);
        }
        if len - ip < size {
            return Err(RTError::new("instruction cut short", line));
        }
        let rest = vstd::slice::slice_subrange(instructions.code.as_slice(), ip + 1, len);
        let (operands, read) = read_operands(&def, rest);
        self.set_ip(ip + size);
        self.execute(op, &operands, line)
    }

    /// Runs the machine: step after step until one does not simply go
    /// through. The outcome of that step is the outcome of the run: the end
    /// of the program, a runtime error, or work for the program around the
    /// machine, after which the run can go on.
    pub fn run(&mut self) -> (res: Result<Signal, RTError>)
        requires
            old(self).wf(),
        ensures
            run_relation(old(self)@, final(self)@, res),
            res is Ok ==> final(self).wf(),
    {
        let mut steps: usize = 0;
        let ghost mut before = self@;
        let mut outcome = self.step();
        proof {
            assert(reaches(old(self)@, before, 0));
        }
        while steps < usize::MAX - 1 && is_continue(&outcome)
            invariant
                reaches(old(self)@, before, steps as nat),
                step_relation(before, self@, outcome),
                outcome is Ok ==> self.wf(),
            decreases usize::MAX - steps,
        {
            proof {
                assert(reaches(old(self)@, self@, (steps + 1) as nat));
                before = self@;
            }
            outcome = self.step();
            steps = steps + 1;
        }
        outcome
    }
}

/// Whether the outcome of a step is that the next can follow.
fn is_continue(outcome: &Result<Signal, RTError>) -> (b: bool)
    ensures
        b == went_through(*outcome),
{
    match outcome {
        Ok(Signal::Continue) => true,
        _ => false,
    }
}

/// Where a key among the first values cannot be a key, the keys of all the
/// values are not all valid.
pub proof fn lemma_keys_invalid(values: Seq<Rc<Object>>, n: int, upto: int)
    requires
        2 <= n <= upto,
        n % 2 == 0,
        upto % 2 == 0,
        !valid_key_at(values, n - 2),
    ensures
        !keys_valid(values, upto),
    decreases upto - n,
{
    if n < upto {
        lemma_keys_invalid(values, n, upto - 2);
    }
}

/// Whether the value at a place can be the key of a mapping.
pub open spec fn valid_key_at(values: Seq<Rc<Object>>, at: int) -> bool {
    crate::common::object::valid_key(*values[at])
}

} // verus!
