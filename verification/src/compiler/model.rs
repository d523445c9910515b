//! What the compiler does, said over plain values: the state of a
//! compilation as the contracts see it, and the state that each piece of
//! syntax leads to.

use std::rc::Rc;
use vstd::prelude::*;

use crate::code::opcode::Opcode;
use crate::common::object::Object;
use crate::code::definitions::{is_defined, operand_widths};
use crate::compiler::scope::{
    ends_with_return,
    is_jump_opcode,
    jumps_inside,
    lemma_carry_except,
    lemma_change_jumps,
    lemma_change_operand,
    lemma_emit,
    lemma_emit_jumps,
    lemma_part_extends,
    lemma_remove_jumps,
    lemma_remove_last,
    lemma_replace_jumps,
    lemma_replace_last_with_return,
    lemma_stream_sound,
    lemma_extends_bound,
    lemma_extends_keeps,
    lemma_extends_transitive,
    lemma_jumps_carry,
    lemma_starts_increase,
    ScopeModel,
};
use crate::compiler::symtab::{SymbolScope, SymbolView, TableView};
use crate::parser::ast::{Expression, Identifier, Statement};

verus! {

/// A constant of the pool as the contracts see it.
pub enum ConstantView {
    /// A number, by its bit pattern.
    Number(u64),
    Str(Seq<char>),
    /// A compiled function.
    Function { code: Seq<u8>, lines: Seq<usize>, num_locals: usize, num_params: usize },
    /// Any other value, as it is.
    Other(Rc<Object>),
}

/// How the contracts see a value of the pool.
pub open spec fn constant_view(o: Rc<Object>) -> ConstantView {
    match *o {
        Object::Number(bits) => ConstantView::Number(bits),
        Object::Str(s) => ConstantView::Str(s@),
        Object::CompiledFunc(f) => ConstantView::Function {
            code: f.instructions.code@,
            lines: f.instructions.lines@,
            num_locals: f.num_locals,
            num_params: f.num_params,
        },
        _ => ConstantView::Other(o),
    }
}

/// The views of the values of a pool.
pub open spec fn constant_views(pool: Seq<Rc<Object>>) -> Seq<ConstantView> {
    Seq::new(pool.len(), |i: int| constant_view(pool[i]))
}

/// A compile error as the contracts see it.
pub struct ErrorView {
    pub msg: Seq<char>,
    pub line: usize,
}

/// The state of a compilation: the pool of constants, the symbol table of
/// the scope being compiled, and the buffers of that scope and of the
/// scopes around it, the outermost first.
pub struct CompilerModel {
    pub constants: Seq<ConstantView>,
    pub symtab: TableView,
    pub scopes: Seq<ScopeModel>,
}

/// A pair that is twice as many values, as far as a `usize` can count.
pub open spec fn doubled(n: nat) -> usize {
    if 2 * n <= usize::MAX {
        (2 * n) as usize
    } else {
        usize::MAX
    }
}

/// The opcode of a binary operator. `<` shares the opcode of `>`: its
/// operands are compiled in the other order.
pub open spec fn infix_opcode(operator: Seq<char>) -> Option<Opcode> {
    if operator == "+"@ {
        Some(Opcode::Add)
    } else if operator == "-"@ {
        Some(Opcode::Sub)
    } else if operator == "*"@ {
        Some(Opcode::Mul)
    } else if operator == "/"@ {
        Some(Opcode::Div)
    } else if operator == "=="@ {
        Some(Opcode::Equal)
    } else if operator == "!="@ {
        Some(Opcode::NotEqual)
    } else if operator == ">"@ || operator == "<"@ {
        Some(Opcode::Greater)
    } else {
        None
    }
}

/// The opcode that fetches the value of a symbol of this scope.
pub open spec fn load_opcode(scope: SymbolScope) -> Opcode {
    match scope {
        SymbolScope::Global => Opcode::GetGlobal,
        SymbolScope::Local => Opcode::GetLocal,
        SymbolScope::Builtin => Opcode::GetBuiltin,
        SymbolScope::Free => Opcode::GetFree,
        SymbolScope::Function => Opcode::CurrClosure,
    }
}

/// The message for a name that is bound nowhere.
pub open spec fn undefined_variable(name: Seq<char>) -> Seq<char> {
    "undefined variable "@ + name
}

impl CompilerModel {
    /// The buffer of the scope being compiled.
    pub open spec fn current(self) -> ScopeModel {
        self.scopes.last()
    }

    /// The state with another buffer for the scope being compiled.
    pub open spec fn with_current(self, scope: ScopeModel) -> CompilerModel {
        CompilerModel { scopes: self.scopes.update(self.scopes.len() - 1, scope), ..self }
    }

    /// The state after an instruction is written to the current buffer.
    pub open spec fn emit(self, op: Opcode, operands: Seq<usize>, line: usize) -> CompilerModel {
        self.with_current(self.current().emit(op, operands, line))
    }

    /// The state after a constant joins the pool; its index is the number
    /// of constants before.
    pub open spec fn add_constant(self, constant: ConstantView) -> CompilerModel {
        CompilerModel { constants: self.constants.push(constant), ..self }
    }

    /// The state after a function body is entered: an empty buffer on top,
    /// and a new table inside the current one.
    pub open spec fn enter_scope(self) -> CompilerModel {
        CompilerModel {
            scopes: self.scopes.push(ScopeModel::empty()),
            symtab: TableView::enclosed(self.symtab),
            ..self
        }
    }

    /// The state after a function body is left: without its buffer, and
    /// with the table of the scope around it.
    pub open spec fn leave_scope(self) -> CompilerModel {
        CompilerModel {
            scopes: self.scopes.drop_last(),
            symtab: *self.symtab.outer.unwrap(),
            ..self
        }
    }

    /// The state with another symbol table.
    pub open spec fn with_symtab(self, symtab: TableView) -> CompilerModel {
        CompilerModel { symtab, ..self }
    }

    /// The state after the instruction that fetches a symbol's value.
    pub open spec fn load_symbol(self, symbol: SymbolView, line: usize) -> CompilerModel {
        self.emit(load_opcode(symbol.scope), seq![symbol.index], line)
    }

    /// The state after the first `n` of the symbols are fetched, in their
    /// order.
    pub open spec fn load_symbols(self, symbols: Seq<SymbolView>, n: nat, line: usize)
        -> CompilerModel
        decreases n,
    {
        if n == 0 || n > symbols.len() {
            self
        } else {
            self.load_symbols(symbols, (n - 1) as nat, line).load_symbol(symbols[n - 1], line)
        }
    }

    /// The state after the first `n` parameters are defined, in their
    /// order.
    pub open spec fn define_params(self, params: Seq<Identifier>, n: nat) -> CompilerModel
        decreases n,
    {
        if n == 0 || n > params.len() {
            self
        } else {
            let before = self.define_params(params, (n - 1) as nat);
            before.with_symtab(before.symtab.define(params[n - 1].value@))
        }
    }

    /// The state with the trailing `Pop` of the current buffer taken away,
    /// where there is one: the value that it would drop is the value of the
    /// block.
    pub open spec fn without_last_pop(self) -> CompilerModel {
        if self.current().last_is(Opcode::Pop) {
            self.with_current(self.current().remove_last())
        } else {
            self
        }
    }

    /// The state with the end of a function body put right: a trailing
    /// `Pop` becomes `ReturnValue`, so that the body's last value is what
    /// the function gives; a body that does not end in `ReturnValue` then
    /// gets a `Return`.
    pub open spec fn with_return(self, line: usize) -> CompilerModel {
        let replaced = if self.current().last_is(Opcode::Pop) {
            self.with_current(self.current().replace_last_with_return())
        } else {
            self
        };
        if replaced.current().last_is(Opcode::ReturnValue) {
            replaced
        } else {
            replaced.emit(Opcode::Return, seq![0usize], line)
        }
    }
}

/// What the compilation of a piece of syntax leads to: the state after it,
/// or the error that ended it.
pub type Outcome = Result<CompilerModel, ErrorView>;

/// The state after an expression is compiled.
///
/// A literal number or text joins the pool and is fetched by `Constant`; a
/// truth value has its own opcode. An operator follows its operands; for
/// `<` the operands change places and the opcode is that of `>`. A name is
/// looked up and fetched as its scope asks. An `if` is its condition, a
/// `JumpIfFalse` over the first block, the block without its trailing
/// `Pop`, a `Jump` over the rest, and the second block without its trailing
/// `Pop`, or `Nil` where there is none; both jumps get their targets once
/// these are known. A function literal is compiled in a scope of its own and
/// joins the pool; the values that it captures are fetched in the scope
/// around it, and `Closure` binds them to it.
pub open spec fn compile_expression(e: Expression, m: CompilerModel) -> Outcome
    decreases e, 0nat,
{
    match e {
        Expression::Number(x) => Ok(
            m.add_constant(ConstantView::Number(x.value)).emit(
                Opcode::Constant,
                seq![m.constants.len() as usize],
                x.token.line,
            ),
        ),
        Expression::Str(x) => Ok(
            m.add_constant(ConstantView::Str(x.value@)).emit(
                Opcode::Constant,
                seq![m.constants.len() as usize],
                x.token.line,
            ),
        ),
        Expression::Bool(x) => Ok(
            m.emit(
                if x.value {
                    Opcode::True
                } else {
                    Opcode::False
                },
                seq![0usize],
                x.token.line,
            ),
        ),
        Expression::Nil => Ok(m),
        Expression::Unary(x) => match compile_expression(*x.right, m) {
            Err(err) => Err(err),
            Ok(m1) => if x.operator@ == "!"@ {
                Ok(m1.emit(Opcode::Bang, seq![0usize], x.token.line))
            } else if x.operator@ == "-"@ {
                Ok(m1.emit(Opcode::Minus, seq![0usize], x.token.line))
            } else {
                Err(ErrorView { msg: "invalid binary operator"@, line: x.token.line })
            },
        },
        Expression::Binary(x) => {
            let swapped = x.operator@ == "<"@;
            match compile_expression(
                if swapped {
                    *x.right
                } else {
                    *x.left
                },
                m,
            ) {
                Err(err) => Err(err),
                Ok(m1) => match compile_expression(
                    if swapped {
                        *x.left
                    } else {
                        *x.right
                    },
                    m1,
                ) {
                    Err(err) => Err(err),
                    Ok(m2) => match infix_opcode(x.operator@) {
                        Some(op) => Ok(m2.emit(op, seq![0usize], x.token.line)),
                        None => Err(
                            ErrorView { msg: "invalid binary operator"@, line: x.token.line },
                        ),
                    },
                },
            }
        },
        Expression::If(x) => match compile_expression(*x.condition, m) {
            Err(err) => Err(err),
            Ok(m1) => {
                let jump_if_false_pos = m1.current().code.len() as int;
                let m2 = m1.emit(Opcode::JumpIfFalse, seq![0xFFFFusize], x.token.line);
                match compile_statements(
                    x.then_stmt.statements@,
                    m2,
                    x.then_stmt.statements@.len(),
                ) {
                    Err(err) => Err(err),
                    Ok(m3) => {
                        let m4 = m3.without_last_pop();
                        let jump_pos = m4.current().code.len() as int;
                        let m5 = m4.emit(Opcode::Jump, seq![0xFFFFusize], x.token.line);
                        let m6 = m5.with_current(
                            m5.current().change_operand(
                                jump_if_false_pos,
                                m5.current().code.len() as usize,
                            ),
                        );
                        let other = match x.else_stmt {
                            None => Ok(m6.emit(Opcode::Nil, seq![0usize], x.token.line)),
                            Some(block) => match compile_statements(
                                block.statements@,
                                m6,
                                block.statements@.len(),
                            ) {
                                Err(err) => Err(err),
                                Ok(m7) => Ok(m7.without_last_pop()),
                            },
                        };
                        match other {
                            Err(err) => Err(err),
                            Ok(m8) => Ok(
                                m8.with_current(
                                    m8.current().change_operand(
                                        jump_pos,
                                        m8.current().code.len() as usize,
                                    ),
                                ),
                            ),
                        }
                    },
                }
            },
        },
        Expression::Ident(x) => {
            let found = m.symtab.resolve(x.token.literal@);
            match found.0 {
                None => Err(
                    ErrorView { msg: undefined_variable(x.token.literal@), line: x.token.line },
                ),
                Some(symbol) => Ok(m.with_symtab(found.1).load_symbol(symbol, x.token.line)),
            }
        },
        Expression::Index(x) => match compile_expression(*x.left, m) {
            Err(err) => Err(err),
            Ok(m1) => match compile_expression(*x.index, m1) {
                Err(err) => Err(err),
                Ok(m2) => Ok(m2.emit(Opcode::Index, seq![0usize], x.token.line)),
            },
        },
        Expression::Array(x) => match compile_expressions(x.elements@, m, x.elements@.len()) {
            Err(err) => Err(err),
            Ok(m1) => Ok(
                m1.emit(Opcode::Array, seq![x.elements@.len() as usize], x.token.line),
            ),
        },
        Expression::Hash(x) => match compile_pairs(x.pairs@, m, x.pairs@.len()) {
            Err(err) => Err(err),
            Ok(m1) => Ok(m1.emit(Opcode::Hash, seq![doubled(x.pairs@.len())], x.token.line)),
        },
        Expression::Call(x) => match compile_expression(*x.func, m) {
            Err(err) => Err(err),
            Ok(m1) => match compile_expressions(x.args@, m1, x.args@.len()) {
                Err(err) => Err(err),
                Ok(m2) => Ok(m2.emit(Opcode::Call, seq![x.args@.len() as usize], x.token.line)),
            },
        },
        Expression::Function(x) => {
            let entered = m.enter_scope();
            let named = if x.name@.len() > 0 {
                entered.with_symtab(entered.symtab.define_function_name(x.name@))
            } else {
                entered
            };
            let with_params = named.define_params(x.params@, x.params@.len());
            match compile_statements(x.body.statements@, with_params, x.body.statements@.len()) {
                Err(err) => Err(err),
                Ok(body) => {
                    let done = body.with_return(x.token.line);
                    let function = ConstantView::Function {
                        code: done.current().code,
                        lines: done.current().lines,
                        num_locals: done.symtab.num_definitions as usize,
                        num_params: x.params@.len() as usize,
                    };
                    let free = done.symtab.free_symbols;
                    let left = done.leave_scope();
                    Ok(
                        left.add_constant(function).load_symbols(free, free.len(), x.token.line).emit(
                            Opcode::Closure,
                            seq![left.constants.len() as usize, free.len() as usize],
                            x.token.line,
                        ),
                    )
                },
            }
        },
    }
}

/// The state after the first `n` expressions of a list are compiled, in
/// their order.
pub open spec fn compile_expressions(list: Seq<Expression>, m: CompilerModel, n: nat) -> Outcome
    decreases list, n,
{
    if n == 0 || n > list.len() {
        Ok(m)
    } else {
        match compile_expressions(list, m, (n - 1) as nat) {
            Err(err) => Err(err),
            Ok(m1) => compile_expression(list[n - 1], m1),
        }
    }
}

/// The state after the first `n` pairs of a mapping literal are compiled:
/// each key, then its value.
pub open spec fn compile_pairs(list: Seq<(Expression, Expression)>, m: CompilerModel, n: nat)
    -> Outcome
    decreases list, n,
{
    if n == 0 || n > list.len() {
        Ok(m)
    } else {
        match compile_pairs(list, m, (n - 1) as nat) {
            Err(err) => Err(err),
            Ok(m1) => match compile_expression(list[n - 1].0, m1) {
                Err(err) => Err(err),
                Ok(m2) => compile_expression(list[n - 1].1, m2),
            },
        }
    }
}

/// The state after a statement is compiled. An expression statement is its
/// expression and a `Pop`. A `let` is its value, then the definition of its
/// name, then the instruction that stores the value where the name's scope
/// keeps it. A `return` is its value and `ReturnValue`.
pub open spec fn compile_statement(s: Statement, m: CompilerModel) -> Outcome
    decreases s, 0nat,
{
    match s {
        Statement::Expr(x) => match compile_expression(x.value, m) {
            Err(err) => Err(err),
            Ok(m1) => Ok(m1.emit(Opcode::Pop, seq![0usize], x.token.line)),
        },
        Statement::Let(x) => match compile_expression(x.value, m) {
            Err(err) => Err(err),
            Ok(m1) => {
                let symbol = m1.symtab.defined_symbol(x.name.value@);
                Ok(
                    m1.with_symtab(m1.symtab.define(x.name.value@)).emit(
                        if symbol.scope == SymbolScope::Global {
                            Opcode::SetGlobal
                        } else {
                            Opcode::SetLocal
                        },
                        seq![symbol.index],
                        x.token.line,
                    ),
                )
            },
        },
        Statement::Return(x) => match compile_expression(x.value, m) {
            Err(err) => Err(err),
            Ok(m1) => Ok(m1.emit(Opcode::ReturnValue, seq![0usize], x.token.line)),
        },
        Statement::Nil => Ok(m),
    }
}

/// The state after the first `n` statements of a list are compiled, in
/// their order.
pub open spec fn compile_statements(list: Seq<Statement>, m: CompilerModel, n: nat) -> Outcome
    decreases list, n,
{
    if n == 0 || n > list.len() {
        Ok(m)
    } else {
        match compile_statements(list, m, (n - 1) as nat) {
            Err(err) => Err(err),
            Ok(m1) => compile_statement(list[n - 1], m1),
        }
    }
}

/// Whether a constant of the pool is sound. A compiled function is sound
/// where its bytes are whole instructions, each byte has its line, every
/// jump goes to an offset inside the function, and the last instruction
/// gives control back to the caller.
pub open spec fn sound_constant(c: ConstantView) -> bool {
    match c {
        ConstantView::Function { code, lines, num_locals, num_params } => {
            &&& code.len() == lines.len()
            &&& jumps_inside(code)
            &&& ends_with_return(code)
        },
        _ => true,
    }
}

/// The pool `after` is the pool `before` with sound constants added at its
/// end.
pub open spec fn constants_grow(before: Seq<ConstantView>, after: Seq<ConstantView>) -> bool {
    &&& before.len() <= after.len()
    &&& after.take(before.len() as int) == before
    &&& forall|i: int| before.len() <= i < after.len() ==> sound_constant(#[trigger] after[i])
}

impl CompilerModel {
    /// The state is sound: there is a scope being compiled, every buffer is
    /// sound, and the symbol table has a table for each scope.
    pub open spec fn inv(self) -> bool {
        &&& self.scopes.len() >= 1
        &&& forall|i: int| 0 <= i < self.scopes.len() ==> (#[trigger] self.scopes[i]).inv()
        &&& self.symtab.depth() + 1 >= self.scopes.len()
    }
}

/// What the compilation of an expression keeps and brings about. The state
/// stays sound. The buffers of the scopes around the current one stay as
/// they were, and the current one goes on from what it held. Every jump
/// that was written goes to the end of the current buffer at the furthest.
/// The pool grows by sound constants, and the symbol table keeps its depth.
pub open spec fn expression_step(before: CompilerModel, after: CompilerModel) -> bool {
    &&& after.inv()
    &&& after.scopes.len() == before.scopes.len()
    &&& after.scopes.drop_last() == before.scopes.drop_last()
    &&& after.current().extends(before.current())
    &&& after.current().jumps_within(before.current().count(), after.current().code.len() as int)
    &&& constants_grow(before.constants, after.constants)
    &&& after.symtab.depth() == before.symtab.depth()
}

/// What the compilation of a statement keeps and brings about: what that of
/// an expression does, and the current buffer is as it was or has come to
/// rest.
pub open spec fn statement_step(before: CompilerModel, after: CompilerModel) -> bool {
    &&& expression_step(before, after)
    &&& after.current() == before.current() || after.current().settled_from(
        before.current().count(),
    )
}

/// Putting a sound buffer in the place of the current one keeps the state
/// sound and touches nothing else.
pub proof fn lemma_with_current(m: CompilerModel, scope: ScopeModel)
    requires
        m.inv(),
        scope.inv(),
    ensures
        m.with_current(scope).inv(),
        m.with_current(scope).scopes.len() == m.scopes.len(),
        m.with_current(scope).scopes.drop_last() == m.scopes.drop_last(),
        m.with_current(scope).current() == scope,
        m.with_current(scope).constants == m.constants,
        m.with_current(scope).symtab == m.symtab,
{
    let t = m.with_current(scope);
    assert(t.scopes.drop_last() =~= m.scopes.drop_last());
    assert forall|i: int| 0 <= i < t.scopes.len() implies (#[trigger] t.scopes[i]).inv() by {
        if i < m.scopes.len() - 1 {
            assert(m.scopes[i].inv());
        }
    }
}

/// A sound state is a step from itself.
pub proof fn lemma_step_none(m: CompilerModel)
    requires
        m.inv(),
    ensures
        statement_step(m, m),
{
    let s = m.current();
    assert(m.scopes[m.scopes.len() - 1].inv());
    assert(s.code.take(s.code.len() as int) =~= s.code);
    assert(s.lines.take(s.lines.len() as int) =~= s.lines);
    assert(s.starts.take(s.starts.len() as int) =~= s.starts);
    assert(m.constants.take(m.constants.len() as int) =~= m.constants);
}

/// The pool grows step by step.
pub proof fn lemma_constants_grow_chain(
    a: Seq<ConstantView>,
    b: Seq<ConstantView>,
    c: Seq<ConstantView>,
)
    requires
        constants_grow(a, b),
        constants_grow(b, c),
    ensures
        constants_grow(a, c),
{
    assert(c.take(a.len() as int) =~= a) by {
        assert forall|j: int| 0 <= j < a.len() implies c[j] == a[j] by {
            assert(b.take(a.len() as int)[j] == b[j]);
            assert(c.take(b.len() as int)[j] == c[j]);
        }
    }
    assert forall|i: int| a.len() <= i < c.len() implies sound_constant(#[trigger] c[i]) by {
        if i < b.len() {
            assert(c.take(b.len() as int)[i] == c[i]);
            assert(sound_constant(b[i]));
        }
    }
}

/// Two steps one after the other are a step.
pub proof fn lemma_step_chain(a: CompilerModel, b: CompilerModel, c: CompilerModel)
    requires
        a.inv(),
        expression_step(a, b),
        expression_step(b, c),
    ensures
        expression_step(a, c),
{
    assert(a.scopes[a.scopes.len() - 1].inv());
    assert(b.scopes[b.scopes.len() - 1].inv());
    lemma_extends_transitive(a.current(), b.current(), c.current());
    lemma_jumps_carry(
        b.current(),
        c.current(),
        a.current().count(),
        b.current().code.len() as int,
        c.current().code.len() as int,
    );
    lemma_constants_grow_chain(a.constants, b.constants, c.constants);
}

/// Two statements one after the other are a statement's step.
pub proof fn lemma_statement_chain(a: CompilerModel, b: CompilerModel, c: CompilerModel)
    requires
        a.inv(),
        statement_step(a, b),
        statement_step(b, c),
    ensures
        statement_step(a, c),
{
    lemma_step_chain(a, b, c);
    let sa = a.current();
    let sb = b.current();
    let sc = c.current();
    assert(a.scopes[a.scopes.len() - 1].inv());
    assert(b.scopes[b.scopes.len() - 1].inv());
    assert(c.scopes[c.scopes.len() - 1].inv());
    if sc != sb && sb != sa {
        // both wrote: what the first wrote ends where the second began
        let n = sc.starts.len() as int;
        lemma_extends_bound(sb, sc);
        lemma_starts_increase(sc, sb.starts.len() as int, n - 1);
        lemma_starts_increase(sb, sb.starts.len() - 1, sb.starts.len() - 1);
        assert forall|i: int| sa.count() <= i < sc.starts.len() && #[trigger] sc.is_jump(
            i,
        ) implies sc.jump_target(i) <= sc.starts.last() by {
            if i < sb.starts.len() {
                lemma_extends_keeps(sb, sc, i);
                assert(sb.is_jump(i));
            }
        }
    } else if sc != sb {
        assert(sb == sa);
    }
}

/// An instruction that is no jump, written after an expression, makes a
/// statement's step of the expression's step.
pub proof fn lemma_emit_after(
    a: CompilerModel,
    b: CompilerModel,
    op: Opcode,
    operands: Seq<usize>,
    line: usize,
)
    requires
        a.inv(),
        expression_step(a, b),
        is_defined(op),
        !is_jump_opcode(op),
        operands.len() >= operand_widths(op).len(),
        b.current().emit(op, operands, line).code.len() <= usize::MAX,
    ensures
        statement_step(a, b.emit(op, operands, line)),
        b.emit(op, operands, line).current() == b.current().emit(op, operands, line),
        b.emit(op, operands, line).constants == b.constants,
        b.emit(op, operands, line).symtab == b.symtab,
{
    let sa = a.current();
    let sb = b.current();
    let t = sb.emit(op, operands, line);
    let c = b.emit(op, operands, line);
    assert(a.scopes[a.scopes.len() - 1].inv());
    assert(b.scopes[b.scopes.len() - 1].inv());
    lemma_emit(sb, op, operands, line);
    lemma_emit_jumps(
        sb,
        op,
        operands,
        line,
        sa.count(),
        sb.code.len() as int,
        Set::<int>::empty(),
    );
    lemma_with_current(b, t);
    lemma_extends_transitive(sa, sb, t);
    assert(t.jumps_within(sa.count(), sb.code.len() as int));
    assert(t.starts.last() == sb.code.len());
    assert(c.constants.take(b.constants.len() as int) =~= b.constants);
}

/// A step on the way through an expression whose jumps do not all have
/// their targets yet: an expression's step, but for the jumps in `pending`.
pub open spec fn partial_step(before: CompilerModel, after: CompilerModel, pending: Set<int>)
    -> bool {
    &&& after.inv()
    &&& after.scopes.len() == before.scopes.len()
    &&& after.scopes.drop_last() == before.scopes.drop_last()
    &&& after.current().extends(before.current())
    &&& after.current().jumps_within_except(
        before.current().count(),
        after.current().code.len() as int,
        pending,
    )
    &&& constants_grow(before.constants, after.constants)
    &&& after.symtab.depth() == before.symtab.depth()
}

/// A step with no jump left waiting is an expression's step, and the other
/// way round.
pub proof fn lemma_partial_none(before: CompilerModel, after: CompilerModel)
    ensures
        partial_step(before, after, Set::<int>::empty()) <==> expression_step(before, after),
{
}

/// Writing an instruction on the way keeps the step. A jump that is written
/// waits for its target.
pub proof fn lemma_partial_emit(
    entry: CompilerModel,
    now: CompilerModel,
    op: Opcode,
    operands: Seq<usize>,
    line: usize,
    pending: Set<int>,
)
    requires
        entry.inv(),
        partial_step(entry, now, pending),
        is_defined(op),
        operands.len() >= operand_widths(op).len(),
        now.current().emit(op, operands, line).code.len() <= usize::MAX,
    ensures
        partial_step(
            entry,
            now.emit(op, operands, line),
            if is_jump_opcode(op) {
                pending.insert(now.current().count())
            } else {
                pending
            },
        ),
        now.emit(op, operands, line).current() == now.current().emit(op, operands, line),
        now.emit(op, operands, line).current().inv(),
        now.emit(op, operands, line).current().extends(now.current()),
        now.emit(op, operands, line).current().prev_is_true(),
        now.emit(op, operands, line).current().count() == now.current().count() + 1,
        now.emit(op, operands, line).current().starts[now.current().count()]
            == now.current().code.len(),
        now.emit(op, operands, line).current().opcode_at(now.current().count()) == op,
        now.emit(op, operands, line).current().last.opcode == op,
        now.emit(op, operands, line).current().code.len() > now.current().code.len(),
        now.emit(op, operands, line).constants == now.constants,
        now.emit(op, operands, line).symtab == now.symtab,
{
    let se = entry.current();
    let sn = now.current();
    let t = sn.emit(op, operands, line);
    assert(entry.scopes[entry.scopes.len() - 1].inv());
    assert(now.scopes[now.scopes.len() - 1].inv());
    lemma_emit(sn, op, operands, line);
    lemma_emit_jumps(sn, op, operands, line, se.count(), sn.code.len() as int, pending);
    lemma_with_current(now, t);
    lemma_extends_transitive(se, sn, t);
    crate::code::definitions::lemma_instruction_len_bounds(op);
    let after = if is_jump_opcode(op) {
        pending.insert(sn.count())
    } else {
        pending
    };
    assert(t.jumps_within_except(se.count(), t.code.len() as int, after)) by {
        assert forall|i: int|
            se.count() <= i < t.starts.len() && #[trigger] t.is_jump(i) && !after.contains(
                i,
            ) implies t.jump_target(i) <= t.code.len() by {
            assert(t.jump_target(i) <= sn.code.len());
        }
    }
}

/// A block compiled on the way keeps the step, also where its trailing
/// `Pop` is taken away afterwards.
pub proof fn lemma_partial_block(
    entry: CompilerModel,
    x: CompilerModel,
    y: CompilerModel,
    pending: Set<int>,
)
    requires
        entry.inv(),
        partial_step(entry, x, pending),
        statement_step(x, y),
        !x.current().last_is(Opcode::Pop),
    ensures
        partial_step(entry, y.without_last_pop(), pending),
        y.without_last_pop().current().extends(x.current()),
        y.without_last_pop().current().inv(),
        y.without_last_pop().constants == y.constants,
        y.without_last_pop().symtab == y.symtab,
        y.current().last_is(Opcode::Pop) ==> y.current().last.position <= y.current().code.len()
            && y.current().lines.len() == y.current().code.len(),
{
    let se = entry.current();
    let sx = x.current();
    let sy = y.current();
    let z = y.without_last_pop();
    assert(entry.scopes[entry.scopes.len() - 1].inv());
    assert(x.scopes[x.scopes.len() - 1].inv());
    assert(y.scopes[y.scopes.len() - 1].inv());
    lemma_constants_grow_chain(entry.constants, x.constants, y.constants);
    if sy.last_is(Opcode::Pop) {
        assert(sy != sx);
        let n = sy.starts.len() as int;
        let t = sy.remove_last();
        lemma_remove_last(sy);
        lemma_starts_increase(sy, n - 1, n - 1);
        lemma_extends_bound(sx, sy);
        lemma_starts_increase(sy, sx.starts.len() as int, n - 1);
        // every jump so far goes to the start of the trailing `Pop` at the furthest
        assert(sy.jumps_within_except(se.count(), sy.starts.last(), pending)) by {
            assert forall|i: int|
                se.count() <= i < sy.starts.len() && #[trigger] sy.is_jump(i)
                    && !pending.contains(i) implies sy.jump_target(i) <= sy.starts.last() by {
                if i < sx.starts.len() {
                    lemma_extends_keeps(sx, sy, i);
                    assert(sx.is_jump(i));
                }
            }
        }
        lemma_remove_jumps(sy, se.count(), pending);
        assert(t.code.take(sy.starts[n - 1]) =~= sy.code.take(sy.starts[n - 1]));
        assert(t.lines.take(sy.starts[n - 1]) =~= sy.lines.take(sy.starts[n - 1]));
        assert(t.starts.take(n - 1) =~= sy.starts.take(n - 1));
        lemma_part_extends(sy, t, sx, n - 1);
        lemma_extends_transitive(se, sx, t);
        lemma_with_current(y, t);
    } else {
        lemma_extends_transitive(se, sx, sy);
        lemma_carry_except(
            sx,
            sy,
            se.count(),
            sx.code.len() as int,
            sy.code.len() as int,
            pending,
        );
    }
}

/// A jump that waits gets the end of the buffer as its target: it no longer
/// waits, and the step is kept.
pub proof fn lemma_partial_patch(
    entry: CompilerModel,
    now: CompilerModel,
    k: int,
    pending: Set<int>,
)
    requires
        entry.inv(),
        partial_step(entry, now, pending),
        entry.current().count() <= k < now.current().count(),
        now.current().is_jump(k),
    ensures
        partial_step(
            entry,
            now.with_current(
                now.current().change_operand(
                    now.current().starts[k],
                    now.current().code.len() as usize,
                ),
            ),
            pending.remove(k),
        ),
        now.current().starts[k] + 3 <= now.current().code.len(),
        now.current().lines.len() == now.current().code.len(),
        crate::code::definitions::encode(
            crate::code::opcode::opcode_of_byte(now.current().code[now.current().starts[k]]),
            seq![now.current().code.len() as usize],
        ).len() == 3,
        now.current().change_operand(
            now.current().starts[k],
            now.current().code.len() as usize,
        ).last == now.current().last,
        now.current().change_operand(
            now.current().starts[k],
            now.current().code.len() as usize,
        ).starts == now.current().starts,
        now.current().change_operand(
            now.current().starts[k],
            now.current().code.len() as usize,
        ).code.len() == now.current().code.len(),
        now.current().change_operand(
            now.current().starts[k],
            now.current().code.len() as usize,
        ).inv(),
        forall|i: int|
            0 <= i < now.current().count() ==> #[trigger] now.current().change_operand(
                now.current().starts[k],
                now.current().code.len() as usize,
            ).opcode_at(i) == now.current().opcode_at(i),
{
    let se = entry.current();
    let sn = now.current();
    let operand = sn.code.len() as usize;
    let t = sn.change_operand(sn.starts[k], operand);
    assert(entry.scopes[entry.scopes.len() - 1].inv());
    assert(now.scopes[now.scopes.len() - 1].inv());
    lemma_change_operand(sn, k, operand);
    lemma_change_jumps(sn, k, operand, se.count(), sn.code.len() as int, pending);
    lemma_starts_increase(sn, k, k);
    assert(sn.ok_at(k));
    crate::code::definitions::lemma_instruction_lens();
    crate::code::definitions::lemma_encode_shape(sn.opcode_at(k), seq![operand]);
    assert(t.code.take(sn.starts[k]) =~= sn.code.take(sn.starts[k]));
    assert(t.lines.take(sn.starts[k]) =~= sn.lines.take(sn.starts[k]));
    assert(t.starts.take(k) =~= sn.starts.take(k));
    lemma_part_extends(sn, t, se, k);
    lemma_with_current(now, t);
}

/// The end of a function body put right is a sound function: its last
/// instruction gives control back, and its jumps stay inside it.
pub proof fn lemma_with_return(entry: CompilerModel, body: CompilerModel, line: usize)
    requires
        entry.inv(),
        entry.current() == ScopeModel::empty(),
        statement_step(entry, body),
        body.with_return(line).current().code.len() <= usize::MAX,
    ensures
        body.with_return(line).inv(),
        body.with_return(line).scopes.len() == body.scopes.len(),
        body.with_return(line).scopes.drop_last() == body.scopes.drop_last(),
        body.with_return(line).constants == body.constants,
        body.with_return(line).symtab == body.symtab,
        body.with_return(line).current().code.len() == body.with_return(
            line,
        ).current().lines.len(),
        jumps_inside(body.with_return(line).current().code),
        ends_with_return(body.with_return(line).current().code),
{
    let sb = body.current();
    assert(entry.scopes[entry.scopes.len() - 1].inv());
    assert(body.scopes[body.scopes.len() - 1].inv());
    crate::code::definitions::lemma_instruction_lens();
    // every jump of the body goes to the start of its last instruction at the furthest
    assert(sb.starts.len() > 0 ==> sb.jumps_within(0, sb.starts.last()) && sb.prev_is_true());
    let replaced = if sb.last_is(Opcode::Pop) {
        body.with_current(sb.replace_last_with_return())
    } else {
        body
    };
    if sb.last_is(Opcode::Pop) {
        lemma_replace_last_with_return(sb);
        lemma_replace_jumps(sb, 0, sb.starts.last());
        lemma_starts_increase(sb, sb.starts.len() - 1, sb.starts.len() - 1);
        lemma_with_current(body, sb.replace_last_with_return());
    }
    let sr = replaced.current();
    assert(replaced.scopes[replaced.scopes.len() - 1].inv());
    assert(sr.inv());
    assert(sr.starts.len() > 0 ==> sr.jumps_within(0, sr.starts.last()));
    if sr.last_is(Opcode::ReturnValue) {
        lemma_stream_sound(sr, 0);
    } else {
        let t = sr.emit(Opcode::Return, seq![0usize], line);
        assert(t.code.len() == sr.code.len() + crate::code::definitions::encode(
            Opcode::Return,
            seq![0usize],
        ).len());
        crate::code::definitions::lemma_encode_shape(Opcode::Return, seq![0usize]);
        lemma_emit(sr, Opcode::Return, seq![0usize], line);
        lemma_emit_jumps(
            sr,
            Opcode::Return,
            seq![0usize],
            line,
            0,
            sr.code.len() as int,
            Set::<int>::empty(),
        );
        if sr.starts.len() > 0 {
            lemma_starts_increase(sr, sr.starts.len() - 1, sr.starts.len() - 1);
            assert(sr.jumps_within_except(0, sr.code.len() as int, Set::<int>::empty()));
        }
        assert(t.jumps_within(0, t.starts.last()));
        lemma_with_current(replaced, t);
        lemma_stream_sound(t, 0);
    }
}

/// In a sound buffer that holds something, the last instruction on record
/// lies within the buffer.
pub proof fn lemma_last_in_buffer(m: CompilerModel)
    requires
        m.inv(),
    ensures
        m.current().inv(),
        m.current().code.len() > 0 ==> m.current().last.position < m.current().code.len(),
{
    let s = m.current();
    assert(m.scopes[m.scopes.len() - 1].inv());
    if s.code.len() > 0 {
        lemma_starts_increase(s, s.starts.len() - 1, s.starts.len() - 1);
    }
}

} // verus!
