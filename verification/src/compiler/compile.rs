//! The compilation rules: from each statement and expression to the
//! instructions that stand for it.

use std::rc::Rc;
use vstd::prelude::*;

use crate::code::balance::{balanced_code, effect};
use crate::code::definitions::{is_defined, operand_widths};
use crate::code::opcode::Opcode;
use crate::common::error::CompileError;
use crate::common::object::{CompiledFunction, Object};
use crate::compiler::balance::{
    effect_fits,
    emitted,
    keeps,
    lemma_emitted,
    lemma_keeps_chain,
    lemma_keeps_emitted,
    lemma_keeps_more,
    lemma_keeps_same,
    lemma_settled_balanced,
    lemma_settles_chain,
    lemma_settles_emitted,
    lemma_settles_same,
    lemma_waits_block,
    lemma_waits_emitted,
    lemma_waits_jump,
    lemma_waits_none,
    lemma_waits_patch,
    settles,
    waits,
};
use crate::compiler::limits::{
    lemma_modest_expressions,
    lemma_modest_pairs,
    lemma_modest_statements,
    lifts,
    modest_expression,
    modest_expressions,
    modest_pairs,
    modest_statement,
    modest_statements,
    rests,
};
use crate::compiler::model::{
    compile_expression,
    compile_expressions,
    compile_pairs,
    compile_statement,
    compile_statements,
    constant_view,
    expression_step,
    infix_opcode,
    lemma_constants_grow_chain,
    lemma_emit_after,
    lemma_last_in_buffer,
    lemma_partial_block,
    lemma_partial_emit,
    lemma_partial_none,
    lemma_partial_patch,
    lemma_statement_chain,
    lemma_step_chain,
    lemma_step_none,
    lemma_with_return,
    partial_step,
    sound_constant,
    statement_step,
    CompilerModel,
    ConstantView,
    ErrorView,
    Outcome,
};
use crate::compiler::scope::{
    is_jump_opcode,
    jumps_inside,
    ScopeModel,
};
use crate::compiler::symtab::{
    lemma_resolve_keeps_shape,
    share_all,
    symbol_views,
    Symbol,
    SymbolScope,
};
use crate::compiler::Compiler;
use crate::parser::ast::{
    ArrayLiteral,
    BinaryExpr,
    BlockStatement,
    CallExpr,
    Expression,
    FunctionLiteral,
    HashLiteral,
    Identifier,
    IfExpr,
    IndexExpr,
    LetStmt,
    Program,
    Statement,
    UnaryExpr,
};
use crate::scanner::str_equal;

verus! {

/// Whether what a compilation gave is what the rules say: on success the
/// state that they lead to, on failure their error.
pub open spec fn agrees(res: Result<(), CompileError>, outcome: Outcome, after: CompilerModel)
    -> bool {
    match res {
        Ok(_) => outcome == Ok::<CompilerModel, ErrorView>(after),
        Err(err) => outcome matches Err(v) && err.msg@ == v.msg && err.line == v.line,
    }
}

impl Compiler {
    /// The number of bytes in the current buffer.
    fn current_len(&self) -> (len: usize)
        requires
            self.wf(),
        ensures
            len == self@.current().code.len(),
    {
        self.scopes[self.scope_index].instructions.code.len()
    }

    /// Writes an instruction that is no jump, after an expression's step
    /// from `entry`.
    fn emit_step(
        &mut self,
        op: Opcode,
        operands: &[usize],
        line: usize,
        Ghost(entry): Ghost<CompilerModel>,
    )
        requires
            old(self).wf(),
            entry.inv(),
            expression_step(entry, old(self)@),
            is_defined(op),
            !is_jump_opcode(op),
            operands@.len() >= operand_widths(op).len(),
        ensures
            final(self).wf(),
            final(self)@ == old(self)@.emit(op, operands@, line),
            statement_step(entry, final(self)@),
            final(self).constants == old(self).constants,
            effect_fits(op, operands@) ==> emitted(
                old(self)@.current(),
                final(self)@.current(),
                effect(op, operands@),
            ),
    {
        self.emit(op, operands, line);
        let len = self.scopes[self.scope_index].instructions.code.len();
        proof {
            assert(self@.current().code.len() == len);
            lemma_emit_after(entry, old(self)@, op, operands@, line);
            if effect_fits(op, operands@) {
                assert(old(self)@.scopes[old(self)@.scopes.len() - 1].inv());
                lemma_emitted(old(self)@.current(), op, operands@, line);
            }
        }
    }

    /// Writes an instruction with one operand that is no jump, after an
    /// expression's step from `entry`.
    fn emit_one(&mut self, op: Opcode, operand: usize, line: usize, Ghost(entry): Ghost<
        CompilerModel,
    >)
        requires
            old(self).wf(),
            entry.inv(),
            expression_step(entry, old(self)@),
            is_defined(op),
            !is_jump_opcode(op),
            operand_widths(op).len() <= 1,
        ensures
            final(self).wf(),
            final(self)@ == old(self)@.emit(op, seq![operand], line),
            statement_step(entry, final(self)@),
            final(self).constants == old(self).constants,
            effect_fits(op, seq![operand]) ==> emitted(
                old(self)@.current(),
                final(self)@.current(),
                effect(op, seq![operand]),
            ),
    {
        let operands: [usize; 1] = [operand];
        assert(operands@ =~= seq![operand]);
        self.emit_step(op, operands.as_slice(), line, Ghost(entry));
    }

    /// Writes a jump whose target is not known yet, on the way through an
    /// expression from `entry`, and gives its offset.
    fn emit_jump(
        &mut self,
        op: Opcode,
        line: usize,
        Ghost(entry): Ghost<CompilerModel>,
        Ghost(pending): Ghost<Set<int>>,
    ) -> (pos: usize)
        requires
            old(self).wf(),
            entry.inv(),
            partial_step(entry, old(self)@, pending),
            is_jump_opcode(op),
        ensures
            final(self).wf(),
            final(self)@ == old(self)@.emit(op, seq![0xFFFFusize], line),
            partial_step(entry, final(self)@, pending.insert(old(self)@.current().count())),
            pos == old(self)@.current().code.len(),
            final(self)@.current().count() == old(self)@.current().count() + 1,
            final(self)@.current().starts[old(self)@.current().count()] == pos,
            final(self)@.current().is_jump(old(self)@.current().count()),
            final(self)@.current().extends(old(self)@.current()),
            !final(self)@.current().last_is(Opcode::Pop),
            final(self).constants == old(self).constants,
    {
        let operands: [usize; 1] = [0xFFFF];
        assert(operands@ =~= seq![0xFFFFusize]);
        let pos = self.emit(op, operands.as_slice(), line);
        let len = self.scopes[self.scope_index].instructions.code.len();
        proof {
            assert(self@.current().code.len() == len);
            lemma_partial_emit(entry, old(self)@, op, operands@, line, pending);
        }
        pos
    }

    /// Takes the trailing `Pop` of the current buffer away, where there is
    /// one, after a block that was compiled on the way through an expression
    /// from `entry`.
    fn remove_block_pop(
        &mut self,
        Ghost(entry): Ghost<CompilerModel>,
        Ghost(x): Ghost<CompilerModel>,
        Ghost(pending): Ghost<Set<int>>,
    )
        requires
            old(self).wf(),
            entry.inv(),
            partial_step(entry, x, pending),
            statement_step(x, old(self)@),
            !x.current().last_is(Opcode::Pop),
        ensures
            final(self).wf(),
            final(self)@ == old(self)@.without_last_pop(),
            partial_step(entry, final(self)@, pending),
            final(self)@.current().extends(x.current()),
            final(self).constants == old(self).constants,
    {
        proof {
            lemma_partial_block(entry, x, old(self)@, pending);
        }
        let mut scope = self.scopes.pop().unwrap();
        if scope.is_last_instruction(Opcode::Pop) {
            scope.remove_last_pop();
        }
        self.scopes.push(scope);
        proof {
            if old(self)@.current().last_is(Opcode::Pop) {
                assert(self@.scopes =~= old(self)@.without_last_pop().scopes);
            } else {
                assert(self.scopes@ =~= old(self).scopes@);
            }
        }
    }

    /// Gives the jump at `pos`, which is instruction number `k` of the
    /// current buffer and waits for its target, the end of the buffer as its
    /// target.
    fn patch_jump(
        &mut self,
        pos: usize,
        Ghost(k): Ghost<int>,
        Ghost(entry): Ghost<CompilerModel>,
        Ghost(pending): Ghost<Set<int>>,
    )
        requires
            old(self).wf(),
            entry.inv(),
            partial_step(entry, old(self)@, pending),
            entry.current().count() <= k < old(self)@.current().count(),
            old(self)@.current().is_jump(k),
            old(self)@.current().starts[k] == pos,
        ensures
            final(self).wf(),
            final(self)@ == old(self)@.with_current(
                old(self)@.current().change_operand(
                    pos as int,
                    old(self)@.current().code.len() as usize,
                ),
            ),
            partial_step(entry, final(self)@, pending.remove(k)),
            final(self)@.current().last == old(self)@.current().last,
            final(self)@.current().starts == old(self)@.current().starts,
            final(self)@.current().code.len() == old(self)@.current().code.len(),
            forall|i: int|
                0 <= i < old(self)@.current().count() ==> #[trigger] final(self)@.current().opcode_at(i) == old(self)@.current().opcode_at(i),
            final(self).constants == old(self).constants,
    {
        proof {
            lemma_partial_patch(entry, old(self)@, k, pending);
        }
        let mut scope = self.scopes.pop().unwrap();
        let target = scope.instructions.code.len();
        scope.change_operand(pos, target);
        self.scopes.push(scope);
        proof {
            assert(self@.scopes =~= old(self)@.with_current(
                old(self)@.current().change_operand(
                    pos as int,
                    old(self)@.current().code.len() as usize,
                ),
            ).scopes);
        }
    }

    /// Compiles a program: its statements in their order, into the current
    /// buffer.
    ///
    /// On success the compiler's state is the one that the rules lead to
    /// from the state before. The buffer goes on from what it held; every
    /// jump that was written goes to an offset inside it; every function that
    /// joined the pool of constants is made of whole instructions, ends with
    /// `ReturnValue` or `Return`, and has its jumps inside it. A program
    /// compiled into an empty buffer is balanced: each of its instructions
    /// finds the stack no higher than a height that belongs to it, and at
    /// the end the stack is empty. This holds where every count fits the
    /// operand that says it and the buffer is shorter than 65536 bytes, so
    /// that no operand was cut. On failure the error is the first that the
    /// rules meet, and nothing is said of the state.
    pub fn compile(&mut self, pgm: Program) -> (res: Result<(), CompileError>)
        requires
            old(self).wf(),
        ensures
            agrees(
                res,
                compile_statements(pgm.statements@, old(self)@, pgm.statements@.len()),
                final(self)@,
            ),
            res is Ok ==> final(self).wf() && statement_step(old(self)@, final(self)@),
            res is Ok && old(self)@.current() == ScopeModel::empty() ==> jumps_inside(
                final(self)@.current().code,
            ),
            res is Ok ==> rests(
                modest_statements(pgm.statements@, old(self)@, pgm.statements@.len()),
                old(self)@,
                final(self)@,
            ),
            res is Ok && old(self)@.current() == ScopeModel::empty() && modest_statements(
                pgm.statements@,
                old(self)@,
                pgm.statements@.len(),
            ) && final(self)@.current().code.len() < 65536 ==> balanced_code(
                final(self)@.current().code,
            ),
    {
        self.compile_program(pgm)
    }

    /// Compiles a program: its statements in their order, into the current
    /// buffer.
    pub fn compile_program(&mut self, program: Program) -> (res: Result<(), CompileError>)
        requires
            old(self).wf(),
        ensures
            agrees(
                res,
                compile_statements(program.statements@, old(self)@, program.statements@.len()),
                final(self)@,
            ),
            res is Ok ==> final(self).wf() && statement_step(old(self)@, final(self)@),
            res is Ok && old(self)@.current() == ScopeModel::empty() ==> jumps_inside(
                final(self)@.current().code,
            ),
            res is Ok ==> rests(
                modest_statements(program.statements@, old(self)@, program.statements@.len()),
                old(self)@,
                final(self)@,
            ),
            res is Ok && old(self)@.current() == ScopeModel::empty() && modest_statements(
                program.statements@,
                old(self)@,
                program.statements@.len(),
            ) && final(self)@.current().code.len() < 65536 ==> balanced_code(
                final(self)@.current().code,
            ),
    {
        let res = self.compile_statements(&program.statements);
        proof {
            if res is Ok && old(self)@.current() == ScopeModel::empty() {
                let s = self@.current();
                assert(self@.scopes[self@.scopes.len() - 1].inv());
                assert(s.starts.len() > 0 ==> s.jumps_within(0, s.starts.last()));
                crate::compiler::scope::lemma_stream_sound(s, 0);
                if modest_statements(
                    program.statements@,
                    old(self)@,
                    program.statements@.len(),
                ) && s.code.len() < 65536 {
                    lemma_settled_balanced(s);
                }
            }
        }
        res
    }

    fn compile_block_statement(&mut self, stmt: &BlockStatement) -> (res: Result<
        (),
        CompileError,
    >)
        requires
            old(self).wf(),
        ensures
            agrees(
                res,
                compile_statements(stmt.statements@, old(self)@, stmt.statements@.len()),
                final(self)@,
            ),
            res is Ok ==> final(self).wf() && statement_step(old(self)@, final(self)@),
            res is Ok ==> rests(
                modest_statements(stmt.statements@, old(self)@, stmt.statements@.len()),
                old(self)@,
                final(self)@,
            ),
        decreases stmt, 0nat,
    {
        self.compile_statements(&stmt.statements)
    }

    fn compile_statements(&mut self, statements: &Vec<Statement>) -> (res: Result<
        (),
        CompileError,
    >)
        requires
            old(self).wf(),
        ensures
            agrees(
                res,
                compile_statements(statements@, old(self)@, statements@.len()),
                final(self)@,
            ),
            res is Ok ==> final(self).wf() && statement_step(old(self)@, final(self)@),
            res is Ok ==> rests(
                modest_statements(statements@, old(self)@, statements@.len()),
                old(self)@,
                final(self)@,
            ),
        decreases statements, 1nat,
    {
        proof {
            lemma_step_none(self@);
            lemma_settles_same(self@.current());
        }
        let mut i: usize = 0;
        while i < statements.len()
            invariant
                i <= statements@.len(),
                old(self).wf(),
                self.wf(),
                compile_statements(statements@, old(self)@, i as nat) == Ok::<
                    CompilerModel,
                    ErrorView,
                >(self@),
                statement_step(old(self)@, self@),
                rests(
                    modest_statements(statements@, old(self)@, statements@.len()),
                    old(self)@,
                    self@,
                ),
            decreases statements@.len() - i,
        {
            assert(decreases_to!(statements => statements[i as int]));
            let ghost before = self@;
            match self.compile_statement(&statements[i]) {
                Ok(_) => {},
                Err(err) => {
                    proof {
                        lemma_failed_statements(
                            statements@,
                            old(self)@,
                            i as nat + 1,
                            statements@.len(),
                        );
                    }
                    return Err(err);
                },
            }
            proof {
                lemma_statement_chain(old(self)@, before, self@);
                if modest_statements(statements@, old(self)@, statements@.len())
                    && self@.current().code.len() < 65536 {
                    lemma_modest_statements(
                        statements@,
                        old(self)@,
                        statements@.len(),
                        i as nat + 1,
                    );
                    lemma_last_beyond(old(self)@, before);
                    assert(old(self)@.scopes[old(self)@.scopes.len() - 1].inv());
                    lemma_settles_chain(
                        old(self)@.current(),
                        before.current(),
                        self@.current(),
                    );
                }
            }
            i = i + 1;
        }
        Ok(())
    }

    fn compile_statement(&mut self, stmt: &Statement) -> (res: Result<(), CompileError>)
        requires
            old(self).wf(),
        ensures
            agrees(res, compile_statement(*stmt, old(self)@), final(self)@),
            res is Ok ==> final(self).wf() && statement_step(old(self)@, final(self)@),
            res is Ok ==> rests(modest_statement(*stmt, old(self)@), old(self)@, final(self)@),
        decreases stmt, 1nat,
    {
        match stmt {
            Statement::Expr(x) => self.compile_then_emit(&x.value, Opcode::Pop, x.token.line),
            Statement::Let(x) => self.compile_let_stmt(x),
            Statement::Return(x) => self.compile_then_emit(
                &x.value,
                Opcode::ReturnValue,
                x.token.line,
            ),
            Statement::Nil => {
                proof {
                    lemma_step_none(self@);
                    lemma_settles_same(self@.current());
                }
                Ok(())
            },
        }
    }

    /// Compiles an expression and writes an instruction without operands
    /// behind it.
    fn compile_then_emit(&mut self, value: &Expression, op: Opcode, line: usize) -> (res: Result<
        (),
        CompileError,
    >)
        requires
            old(self).wf(),
            op == Opcode::Pop || op == Opcode::ReturnValue,
        ensures
            match res {
                Ok(_) => compile_expression(*value, old(self)@) matches Ok(m) && final(self)@
                    == m.emit(op, seq![0usize], line),
                Err(err) => compile_expression(*value, old(self)@) matches Err(v) && err.msg@
                    == v.msg && err.line == v.line,
            },
            res is Ok ==> final(self).wf() && statement_step(old(self)@, final(self)@),
            res is Ok ==> rests(modest_expression(*value, old(self)@), old(self)@, final(self)@),
        decreases value, 1nat,
    {
        match self.compile_expression(value) {
            Ok(_) => {},
            Err(err) => {
                return Err(err);
            },
        }
        let ghost valued = self@;
        self.emit_one(op, 0, line, Ghost(old(self)@));
        proof {
            if modest_expression(*value, old(self)@) && self@.current().code.len() < 65536 {
                crate::code::definitions::lemma_encode_shape(op, seq![0usize]);
                lemma_statement_written(old(self)@, valued, self@);
            }
        }
        Ok(())
    }

    /// Compiles a `let`: the value, then the definition of the name, then
    /// the instruction that stores the value where the name's scope keeps
    /// it.
    fn compile_let_stmt(&mut self, x: &LetStmt) -> (res: Result<(), CompileError>)
        requires
            old(self).wf(),
        ensures
            agrees(res, compile_statement(Statement::Let(*x), old(self)@), final(self)@),
            res is Ok ==> final(self).wf() && statement_step(old(self)@, final(self)@),
            res is Ok ==> rests(modest_expression(x.value, old(self)@), old(self)@, final(self)@),
        decreases x, 0nat,
    {
        match self.compile_expression(&x.value) {
            Ok(_) => {},
            Err(err) => {
                return Err(err);
            },
        }
        let ghost valued = self@;
        let symbol = self.symtab.define(x.name.value.as_str());
        proof {
            lemma_set_symtab(old(self)@, valued, self@);
        }
        let ghost defined = self@;
        if symbol.scope == SymbolScope::Global {
            self.emit_one(Opcode::SetGlobal, symbol.index, x.token.line, Ghost(old(self)@));
        } else {
            self.emit_one(Opcode::SetLocal, symbol.index, x.token.line, Ghost(old(self)@));
        }
        proof {
            if modest_expression(x.value, old(self)@) && self@.current().code.len() < 65536 {
                assert(defined.current() == valued.current());
                crate::code::definitions::lemma_encode_shape(
                    Opcode::SetGlobal,
                    seq![symbol.index],
                );
                crate::code::definitions::lemma_encode_shape(Opcode::SetLocal, seq![symbol.index]);
                lemma_statement_written(old(self)@, valued, self@);
            }
        }
        Ok(())
    }

    fn compile_expression(&mut self, expr: &Expression) -> (res: Result<(), CompileError>)
        requires
            old(self).wf(),
        ensures
            agrees(res, compile_expression(*expr, old(self)@), final(self)@),
            res is Ok ==> final(self).wf() && expression_step(old(self)@, final(self)@),
            res is Ok ==> lifts(modest_expression(*expr, old(self)@), old(self)@, final(self)@, 1),
        decreases expr, 0nat,
    {
        proof {
            lemma_step_none(self@);
        }
        match expr {
            Expression::Number(num) => {
                let idx = self.add_constant(Object::Number(num.value));
                proof {
                    lemma_new_constant(old(self)@, old(self)@, ConstantView::Number(num.value));
                }
                self.emit_one(Opcode::Constant, idx, num.token.line, Ghost(old(self)@));
                proof {
                    lemma_value_written(old(self)@, self@);
                }
                Ok(())
            },
            Expression::Str(s) => {
                let idx = self.add_constant(Object::Str(s.value.clone()));
                proof {
                    lemma_new_constant(old(self)@, old(self)@, ConstantView::Str(s.value@));
                }
                self.emit_one(Opcode::Constant, idx, s.token.line, Ghost(old(self)@));
                proof {
                    lemma_value_written(old(self)@, self@);
                }
                Ok(())
            },
            Expression::Bool(b) => {
                if b.value {
                    self.emit_one(Opcode::True, 0, b.token.line, Ghost(old(self)@));
                } else {
                    self.emit_one(Opcode::False, 0, b.token.line, Ghost(old(self)@));
                }
                proof {
                    lemma_value_written(old(self)@, self@);
                }
                Ok(())
            },
            Expression::Nil => {
                proof {
                    lemma_keeps_same(self@.current());
                    lemma_keeps_more(self@.current(), self@.current(), 0, 1);
                }
                Ok(())
            },
            Expression::Unary(u) => self.compile_unary(u),
            Expression::Binary(binary) => self.compile_binary(binary),
            Expression::If(x) => self.compile_if(x),
            Expression::Ident(x) => self.compile_identifier(x),
            Expression::Index(x) => self.compile_index(x),
            Expression::Array(x) => self.compile_array(x),
            Expression::Hash(x) => self.compile_hash(x),
            Expression::Call(x) => self.compile_call(x),
            Expression::Function(x) => self.compile_function(x),
        }
    }

    fn compile_unary(&mut self, u: &UnaryExpr) -> (res: Result<(), CompileError>)
        requires
            old(self).wf(),
        ensures
            agrees(res, compile_expression(Expression::Unary(*u), old(self)@), final(self)@),
            res is Ok ==> final(self).wf() && expression_step(old(self)@, final(self)@),
            res is Ok ==> lifts(
                modest_expression(Expression::Unary(*u), old(self)@),
                old(self)@,
                final(self)@,
                1,
            ),
        decreases u, 0nat,
    {
        match self.compile_expression(&u.right) {
            Ok(_) => {},
            Err(err) => {
                return Err(err);
            },
        }
        let ghost valued = self@;
        if str_equal(u.operator.as_str(), "!") {
            self.emit_one(Opcode::Bang, 0, u.token.line, Ghost(old(self)@));
            proof {
                if modest_expression(Expression::Unary(*u), old(self)@)
                    && self@.current().code.len() < 65535 {
                    lemma_written_behind(old(self)@, valued, self@, 1, 0);
                }
            }
            Ok(())
        } else if str_equal(u.operator.as_str(), "-") {
            self.emit_one(Opcode::Minus, 0, u.token.line, Ghost(old(self)@));
            proof {
                if modest_expression(Expression::Unary(*u), old(self)@)
                    && self@.current().code.len() < 65535 {
                    lemma_written_behind(old(self)@, valued, self@, 1, 0);
                }
            }
            Ok(())
        } else {
            Err(CompileError::new("invalid binary operator", u.token.line))
        }
    }

    fn compile_binary(&mut self, binary: &BinaryExpr) -> (res: Result<(), CompileError>)
        requires
            old(self).wf(),
        ensures
            agrees(
                res,
                compile_expression(Expression::Binary(*binary), old(self)@),
                final(self)@,
            ),
            res is Ok ==> final(self).wf() && expression_step(old(self)@, final(self)@),
            res is Ok ==> lifts(
                modest_expression(Expression::Binary(*binary), old(self)@),
                old(self)@,
                final(self)@,
                1,
            ),
        decreases binary, 0nat,
    {
        // For `<` the operands change places, so that the opcode of `>` serves.
        let swapped = str_equal(binary.operator.as_str(), "<");
        let first = if swapped {
            &binary.right
        } else {
            &binary.left
        };
        let second = if swapped {
            &binary.left
        } else {
            &binary.right
        };
        match self.compile_expression(first) {
            Ok(_) => {},
            Err(err) => {
                return Err(err);
            },
        }
        let ghost halfway = self@;
        match self.compile_expression(second) {
            Ok(_) => {},
            Err(err) => {
                return Err(err);
            },
        }
        proof {
            lemma_step_chain(old(self)@, halfway, self@);
        }
        let ghost valued = self@;
        let res = self.compile_infix_expr(
            binary.operator.as_str(),
            binary.token.line,
            Ghost(old(self)@),
        );
        proof {
            if res is Ok && modest_expression(Expression::Binary(*binary), old(self)@)
                && self@.current().code.len() < 65535 {
                lemma_two_values(old(self)@, halfway, valued);
                lemma_written_behind(old(self)@, valued, self@, 2, -1);
            }
        }
        res
    }

    /// Writes the opcode of a binary operator.
    fn compile_infix_expr(&mut self, operator: &str, line: usize, Ghost(entry): Ghost<
        CompilerModel,
    >) -> (res: Result<(), CompileError>)
        requires
            old(self).wf(),
            entry.inv(),
            expression_step(entry, old(self)@),
        ensures
            infix_opcode(operator@) matches Some(op) ==> (res is Ok && final(self)@ == old(
                self,
            )@.emit(op, seq![0usize], line) && final(self).wf() && expression_step(
                entry,
                final(self)@,
            )),
            infix_opcode(operator@) is None ==> (res matches Err(err) && err.msg@
                == "invalid binary operator"@ && err.line == line),
            res is Ok ==> emitted(old(self)@.current(), final(self)@.current(), -1),
    {
        if str_equal(operator, "+") {
            self.emit_one(Opcode::Add, 0, line, Ghost(entry));
        } else if str_equal(operator, "-") {
            self.emit_one(Opcode::Sub, 0, line, Ghost(entry));
        } else if str_equal(operator, "*") {
            self.emit_one(Opcode::Mul, 0, line, Ghost(entry));
        } else if str_equal(operator, "/") {
            self.emit_one(Opcode::Div, 0, line, Ghost(entry));
        } else if str_equal(operator, "==") {
            self.emit_one(Opcode::Equal, 0, line, Ghost(entry));
        } else if str_equal(operator, "!=") {
            self.emit_one(Opcode::NotEqual, 0, line, Ghost(entry));
        } else if str_equal(operator, ">") || str_equal(operator, "<") {
            self.emit_one(Opcode::Greater, 0, line, Ghost(entry));
        } else {
            return Err(CompileError::new("invalid binary operator", line));
        }
        Ok(())
    }

    #[verifier::rlimit(60)]
    fn compile_if(&mut self, expr: &IfExpr) -> (res: Result<(), CompileError>)
        requires
            old(self).wf(),
        ensures
            agrees(res, compile_expression(Expression::If(*expr), old(self)@), final(self)@),
            res is Ok ==> final(self).wf() && expression_step(old(self)@, final(self)@),
            res is Ok ==> lifts(
                modest_expression(Expression::If(*expr), old(self)@),
                old(self)@,
                final(self)@,
                1,
            ),
        decreases expr, 0nat,
    {
        let ghost entry = old(self)@;
        let ghost none = Set::<int>::empty();
        let line = expr.token.line;
        match self.compile_expression(&expr.condition) {
            Ok(_) => {},
            Err(err) => {
                return Err(err);
            },
        }
        let ghost m1 = self@;
        let ghost k1 = m1.current().count();
        proof {
            lemma_partial_none(entry, m1);
            assert(entry.current().count() <= k1);
        }
        // The jump over the first block; its target is not known yet.
        let jump_if_false_pos = self.emit_jump(
            Opcode::JumpIfFalse,
            line,
            Ghost(entry),
            Ghost(none),
        );
        let ghost m2 = self@;
        let ghost waiting1 = none.insert(k1);
        match self.compile_block_statement(&expr.then_stmt) {
            Ok(_) => {},
            Err(err) => {
                return Err(err);
            },
        }
        let ghost m3 = self@;
        proof {
            lemma_last_beyond(m2, m3);
        }
        // The block's last value is the value of the `if`: it must stay.
        self.remove_block_pop(Ghost(entry), Ghost(m2), Ghost(waiting1));
        let ghost m4 = self@;
        let ghost k2 = m4.current().count();
        proof {
            crate::compiler::scope::lemma_extends_keeps(m2.current(), m4.current(), k1);
            assert(m2.scopes[m2.scopes.len() - 1].inv());
        }
        // The jump over the second block; its target is not known yet.
        let jump_pos = self.emit_jump(Opcode::Jump, line, Ghost(entry), Ghost(waiting1));
        let ghost m5 = self@;
        let ghost waiting2 = waiting1.insert(k2);
        proof {
            assert(m4.scopes[m4.scopes.len() - 1].inv());
            crate::compiler::scope::lemma_extends_keeps(m4.current(), m5.current(), k1);
        }
        self.patch_jump(jump_if_false_pos, Ghost(k1), Ghost(entry), Ghost(waiting2));
        let ghost m6 = self@;
        let ghost waiting3 = waiting2.remove(k1);
        let ghost fit = modest_expression(Expression::If(*expr), entry);
        let ghost p1 = jump_if_false_pos as int;
        let ghost p2 = jump_pos as int;
        proof {
            assert(m6.current().opcode_at(k2) == m5.current().opcode_at(k2));
            assert(m6.current().is_jump(k2));
            if fit && m5.current().code.len() < 65535 {
                lemma_if_begins(entry, m1, m2, m3, m4, m5, k1, line);
            }
        }
        match &expr.else_stmt {
            None => {
                let len = self.current_len();
                proof {
                    crate::code::definitions::lemma_encode_shape(Opcode::Nil, seq![0usize]);
                    crate::code::definitions::lemma_instruction_len_bounds(Opcode::Nil);
                }
                let operands: [usize; 1] = [0];
                assert(operands@ =~= seq![0usize]);
                self.emit(Opcode::Nil, operands.as_slice(), line);
                let after = self.current_len_unchecked();
                proof {
                    assert(self@.current().code.len() == after);
                    lemma_partial_emit(entry, m6, Opcode::Nil, seq![0usize], line, waiting3);
                    assert(m6.scopes[m6.scopes.len() - 1].inv());
                    crate::compiler::scope::lemma_extends_keeps(
                        m6.current(),
                        self@.current(),
                        k2,
                    );
                    if fit && self@.current().code.len() < 65535 {
                        assert(entry.scopes[entry.scopes.len() - 1].inv());
                        lemma_emitted(m6.current(), Opcode::Nil, seq![0usize], line);
                        lemma_waits_emitted(
                            entry.current(),
                            m6.current(),
                            self@.current(),
                            0,
                            1,
                            set![p2],
                        );
                    }
                }
            },
            Some(else_stmt) => {
                match self.compile_block_statement(else_stmt) {
                    Ok(_) => {},
                    Err(err) => {
                        return Err(err);
                    },
                }
                let ghost m7 = self@;
                proof {
                    lemma_last_beyond(m6, m7);
                }
                self.remove_block_pop(Ghost(entry), Ghost(m6), Ghost(waiting3));
                proof {
                    assert(m6.scopes[m6.scopes.len() - 1].inv());
                    crate::compiler::scope::lemma_extends_keeps(
                        m6.current(),
                        self@.current(),
                        k2,
                    );
                    if fit && self@.current().code.len() < 65535 {
                        assert(entry.scopes[entry.scopes.len() - 1].inv());
                        assert(m7.scopes[m7.scopes.len() - 1].inv());
                        assert(self@.current().code.len() + 1 >= m7.current().code.len()) by {
                            crate::code::definitions::lemma_instruction_lens();
                            if m7.current().last_is(Opcode::Pop) {
                                assert(m7.current().ok_at(m7.current().starts.len() - 1));
                            }
                        }
                        lemma_waits_block(
                            entry.current(),
                            m6.current(),
                            m7.current(),
                            set![p2],
                        );
                    }
                }
            },
        }
        let ghost m8 = self@;
        self.patch_jump(jump_pos, Ghost(k2), Ghost(entry), Ghost(waiting3));
        proof {
            assert(waiting3.remove(k2) =~= Set::<int>::empty());
            lemma_partial_none(entry, self@);
            if fit && self@.current().code.len() < 65535 {
                assert(entry.scopes[entry.scopes.len() - 1].inv());
                assert(m8.scopes[m8.scopes.len() - 1].inv());
                assert(m8.current().opcode_at(k2) == Opcode::Jump);
                lemma_waits_patch(entry.current(), m8.current(), k2, 1, set![p2]);
                assert(set![p2].remove(p2) =~= Set::<int>::empty());
                lemma_waits_none(entry.current(), self@.current(), 1);
            }
        }
        Ok(())
    }

    /// The number of bytes in the current buffer, for a compiler whose
    /// current scope is the last of the list.
    fn current_len_unchecked(&self) -> (len: usize)
        requires
            self.scope_index + 1 == self.scopes@.len(),
        ensures
            len == self@.current().code.len(),
    {
        self.scopes[self.scope_index].instructions.code.len()
    }

    fn compile_identifier(&mut self, expr: &Identifier) -> (res: Result<(), CompileError>)
        requires
            old(self).wf(),
        ensures
            agrees(res, compile_expression(Expression::Ident(*expr), old(self)@), final(self)@),
            res is Ok ==> final(self).wf() && expression_step(old(self)@, final(self)@),
            res is Ok ==> lifts(true, old(self)@, final(self)@, 1),
    {
        proof {
            lemma_step_none(self@);
            lemma_resolve_keeps_shape(self.symtab@, expr.token.literal@);
        }
        match self.symtab.resolve(expr.token.literal.as_str()) {
            Some(symbol) => {
                proof {
                    lemma_set_symtab(old(self)@, old(self)@, self@);
                }
                let ghost found = self@;
                self.load_symbol(&symbol, expr.token.line, Ghost(old(self)@));
                proof {
                    assert(found.current() == old(self)@.current());
                    lemma_value_written(old(self)@, self@);
                }
                Ok(())
            },
            None => {
                let mut msg = "undefined variable ".to_owned();
                msg.append(expr.token.literal.as_str());
                Err(CompileError::new(msg.as_str(), expr.token.line))
            },
        }
    }

    /// Writes the instruction that fetches a symbol's value.
    fn load_symbol(&mut self, symbol: &Symbol, line: usize, Ghost(entry): Ghost<CompilerModel>)
        requires
            old(self).wf(),
            entry.inv(),
            expression_step(entry, old(self)@),
        ensures
            final(self).wf(),
            final(self)@ == old(self)@.load_symbol(symbol@, line),
            expression_step(entry, final(self)@),
            final(self).constants == old(self).constants,
            emitted(old(self)@.current(), final(self)@.current(), 1),
    {
        match symbol.scope {
            SymbolScope::Global => {
                self.emit_one(Opcode::GetGlobal, symbol.index, line, Ghost(entry));
            },
            SymbolScope::Local => {
                self.emit_one(Opcode::GetLocal, symbol.index, line, Ghost(entry));
            },
            SymbolScope::Builtin => {
                self.emit_one(Opcode::GetBuiltin, symbol.index, line, Ghost(entry));
            },
            SymbolScope::Free => {
                self.emit_one(Opcode::GetFree, symbol.index, line, Ghost(entry));
            },
            SymbolScope::Function => {
                self.emit_one(Opcode::CurrClosure, symbol.index, line, Ghost(entry));
            },
        }
    }

    fn compile_index(&mut self, expr: &IndexExpr) -> (res: Result<(), CompileError>)
        requires
            old(self).wf(),
        ensures
            agrees(res, compile_expression(Expression::Index(*expr), old(self)@), final(self)@),
            res is Ok ==> final(self).wf() && expression_step(old(self)@, final(self)@),
            res is Ok ==> lifts(
                modest_expression(Expression::Index(*expr), old(self)@),
                old(self)@,
                final(self)@,
                1,
            ),
        decreases expr, 0nat,
    {
        match self.compile_expression(&expr.left) {
            Ok(_) => {},
            Err(err) => {
                return Err(err);
            },
        }
        let ghost halfway = self@;
        match self.compile_expression(&expr.index) {
            Ok(_) => {},
            Err(err) => {
                return Err(err);
            },
        }
        proof {
            lemma_step_chain(old(self)@, halfway, self@);
        }
        let ghost valued = self@;
        self.emit_one(Opcode::Index, 0, expr.token.line, Ghost(old(self)@));
        proof {
            if modest_expression(Expression::Index(*expr), old(self)@)
                && self@.current().code.len() < 65535 {
                lemma_two_values(old(self)@, halfway, valued);
                lemma_written_behind(old(self)@, valued, self@, 2, -1);
            }
        }
        Ok(())
    }

    /// Compiles the expressions of a list in their order.
    fn compile_expression_list(&mut self, list: &Vec<Expression>, Ghost(entry): Ghost<
        CompilerModel,
    >) -> (res: Result<(), CompileError>)
        requires
            old(self).wf(),
            entry.inv(),
            expression_step(entry, old(self)@),
        ensures
            agrees(res, compile_expressions(list@, old(self)@, list@.len()), final(self)@),
            res is Ok ==> final(self).wf() && expression_step(entry, final(self)@),
            res is Ok ==> expression_step(old(self)@, final(self)@),
            res is Ok ==> lifts(
                modest_expressions(list@, old(self)@, list@.len()),
                old(self)@,
                final(self)@,
                list@.len() as int,
            ),
        decreases list, 1nat,
    {
        proof {
            lemma_step_none(self@);
            lemma_keeps_same(self@.current());
        }
        let mut i: usize = 0;
        while i < list.len()
            invariant
                i <= list@.len(),
                entry.inv(),
                old(self).wf(),
                self.wf(),
                compile_expressions(list@, old(self)@, i as nat) == Ok::<
                    CompilerModel,
                    ErrorView,
                >(self@),
                expression_step(entry, self@),
                expression_step(old(self)@, self@),
                lifts(
                    modest_expressions(list@, old(self)@, list@.len()),
                    old(self)@,
                    self@,
                    i as int,
                ),
            decreases list@.len() - i,
        {
            assert(decreases_to!(list => list[i as int]));
            let ghost before = self@;
            match self.compile_expression(&list[i]) {
                Ok(_) => {},
                Err(err) => {
                    proof {
                        lemma_failed_expressions(list@, old(self)@, i as nat + 1, list@.len());
                    }
                    return Err(err);
                },
            }
            proof {
                lemma_step_chain(entry, before, self@);
                lemma_step_chain(old(self)@, before, self@);
                if modest_expressions(list@, old(self)@, list@.len())
                    && self@.current().code.len() < 65535 {
                    lemma_modest_expressions(list@, old(self)@, list@.len(), i as nat + 1);
                    lemma_keeps_chain(
                        old(self)@.current(),
                        before.current(),
                        self@.current(),
                        i as int,
                        1,
                    );
                }
            }
            i = i + 1;
        }
        Ok(())
    }

    fn compile_array(&mut self, arr: &ArrayLiteral) -> (res: Result<(), CompileError>)
        requires
            old(self).wf(),
        ensures
            agrees(res, compile_expression(Expression::Array(*arr), old(self)@), final(self)@),
            res is Ok ==> final(self).wf() && expression_step(old(self)@, final(self)@),
            res is Ok ==> lifts(
                modest_expression(Expression::Array(*arr), old(self)@),
                old(self)@,
                final(self)@,
                1,
            ),
        decreases arr, 0nat,
    {
        proof {
            lemma_step_none(self@);
        }
        match self.compile_expression_list(&arr.elements, Ghost(old(self)@)) {
            Ok(_) => {},
            Err(err) => {
                return Err(err);
            },
        }
        let ghost listed = self@;
        self.emit_one(Opcode::Array, arr.elements.len(), arr.token.line, Ghost(old(self)@));
        proof {
            if modest_expression(Expression::Array(*arr), old(self)@)
                && self@.current().code.len() < 65535 {
                let n = arr.elements@.len() as int;
                lemma_written_behind(old(self)@, listed, self@, n, 1 - n);
            }
        }
        Ok(())
    }

    fn compile_hash(&mut self, map: &HashLiteral) -> (res: Result<(), CompileError>)
        requires
            old(self).wf(),
        ensures
            agrees(res, compile_expression(Expression::Hash(*map), old(self)@), final(self)@),
            res is Ok ==> final(self).wf() && expression_step(old(self)@, final(self)@),
            res is Ok ==> lifts(
                modest_expression(Expression::Hash(*map), old(self)@),
                old(self)@,
                final(self)@,
                1,
            ),
        decreases map, 0nat,
    {
        proof {
            lemma_step_none(self@);
            lemma_keeps_same(self@.current());
        }
        let ghost entry = old(self)@;
        let list = &map.pairs;
        let mut i: usize = 0;
        while i < list.len()
            invariant
                i <= list@.len(),
                entry.inv(),
                entry == old(self)@,
                list == &map.pairs,
                self.wf(),
                compile_pairs(list@, entry, i as nat) == Ok::<CompilerModel, ErrorView>(self@),
                expression_step(entry, self@),
                lifts(modest_pairs(list@, entry, list@.len()), entry, self@, 2 * i),
            decreases list@.len() - i,
        {
            assert(decreases_to!(map => map.pairs));
            assert(decreases_to!(list => list[i as int]));
            assert(decreases_to!(list => list[i as int].0));
            assert(decreases_to!(list => list[i as int].1));
            let ghost before = self@;
            match self.compile_expression(&list[i].0) {
                Ok(_) => {},
                Err(err) => {
                    proof {
                        lemma_failed_pairs(list@, entry, i as nat + 1, list@.len());
                    }
                    return Err(err);
                },
            }
            let ghost halfway = self@;
            match self.compile_expression(&list[i].1) {
                Ok(_) => {},
                Err(err) => {
                    proof {
                        lemma_failed_pairs(list@, entry, i as nat + 1, list@.len());
                    }
                    return Err(err);
                },
            }
            proof {
                lemma_step_chain(before, halfway, self@);
                lemma_step_chain(entry, before, self@);
                let fit = modest_pairs(list@, entry, list@.len());
                if fit {
                    lemma_modest_pair(list@, entry, before, halfway, i as nat);
                }
                lemma_pair_written(fit, entry, before, halfway, self@, i as int);
            }
            i = i + 1;
        }
        let count = if list.len() > usize::MAX / 2 {
            usize::MAX
        } else {
            list.len() * 2
        };
        let ghost listed = self@;
        self.emit_one(Opcode::Hash, count, map.token.line, Ghost(entry));
        proof {
            if modest_expression(Expression::Hash(*map), entry) && self@.current().code.len()
                < 65535 {
                let n = 2 * (list@.len() as int);
                lemma_written_behind(entry, listed, self@, n, 1 - n);
            }
        }
        Ok(())
    }

    fn compile_call(&mut self, call: &CallExpr) -> (res: Result<(), CompileError>)
        requires
            old(self).wf(),
        ensures
            agrees(res, compile_expression(Expression::Call(*call), old(self)@), final(self)@),
            res is Ok ==> final(self).wf() && expression_step(old(self)@, final(self)@),
            res is Ok ==> lifts(
                modest_expression(Expression::Call(*call), old(self)@),
                old(self)@,
                final(self)@,
                1,
            ),
        decreases call, 0nat,
    {
        match self.compile_expression(&call.func) {
            Ok(_) => {},
            Err(err) => {
                return Err(err);
            },
        }
        let ghost callee = self@;
        match self.compile_expression_list(&call.args, Ghost(old(self)@)) {
            Ok(_) => {},
            Err(err) => {
                return Err(err);
            },
        }
        let ghost listed = self@;
        self.emit_one(Opcode::Call, call.args.len(), call.token.line, Ghost(old(self)@));
        proof {
            if modest_expression(Expression::Call(*call), old(self)@)
                && self@.current().code.len() < 65535 {
                let n = call.args@.len() as int;
                lemma_keeps_chain(
                    old(self)@.current(),
                    callee.current(),
                    listed.current(),
                    1,
                    n,
                );
                lemma_written_behind(old(self)@, listed, self@, 1 + n, -n);
            }
        }
        Ok(())
    }

    /// Defines the parameters of a function in their order.
    fn define_params(&mut self, params: &Vec<Identifier>)
        requires
            old(self).wf(),
        ensures
            final(self).wf(),
            final(self)@ == old(self)@.define_params(params@, params@.len()),
            final(self)@.scopes == old(self)@.scopes,
            final(self)@.constants == old(self)@.constants,
            final(self)@.symtab.depth() == old(self)@.symtab.depth(),
            final(self).constants == old(self).constants,
            final(self).scope_index == old(self).scope_index,
    {
        let mut i: usize = 0;
        while i < params.len()
            invariant
                i <= params@.len(),
                self.wf(),
                self@ == old(self)@.define_params(params@, i as nat),
                self@.scopes == old(self)@.scopes,
                self@.constants == old(self)@.constants,
                self@.symtab.depth() == old(self)@.symtab.depth(),
                self.constants == old(self).constants,
                self.scope_index == old(self).scope_index,
            decreases params@.len() - i,
        {
            self.symtab.define(params[i].value.as_str());
            i = i + 1;
        }
    }

    /// Compiles a function literal: its body in a scope of its own, which
    /// joins the pool of constants as a compiled function; then, in the scope
    /// around it, the values that the function captures and the instruction
    /// that binds them to it.
    ///
    /// The function's count of local bindings is the number of definitions
    /// that were made in its scope when the scope is left: its parameters and
    /// the names that its body binds.
    fn compile_function(&mut self, func: &FunctionLiteral) -> (res: Result<(), CompileError>)
        requires
            old(self).wf(),
        ensures
            agrees(res, compile_expression(Expression::Function(*func), old(self)@), final(self)@),
            res is Ok ==> final(self).wf() && expression_step(old(self)@, final(self)@),
            res is Ok ==> lifts(
                modest_expression(Expression::Function(*func), old(self)@),
                old(self)@,
                final(self)@,
                1,
            ),
        decreases func, 0nat,
    {
        let ghost entry = old(self)@;
        let line = func.token.line;
        self.enter_scope();
        let ghost entered = self@;
        if func.name.as_str().unicode_len() > 0 {
            self.symtab.define_function_name(func.name.as_str());
        }
        let ghost named = self@;
        self.define_params(&func.params);
        let ghost with_params = self@;
        proof {
            assert(with_params.scopes == entered.scopes);
            assert(with_params.current() == ScopeModel::empty());
        }
        assert(decreases_to!(func => func.body));
        match self.compile_block_statement(&func.body) {
            Ok(_) => {},
            Err(err) => {
                return Err(err);
            },
        }
        let ghost body = self@;
        // The last value of the body is what the function gives.
        proof {
            lemma_last_in_buffer(body);
        }
        let mut scope = self.scopes.pop().unwrap();
        if scope.is_last_instruction(Opcode::Pop) {
            scope.replace_last_pop_with_return();
        }
        if !scope.is_last_instruction(Opcode::ReturnValue) {
            let operands: [usize; 1] = [0];
            assert(operands@ =~= seq![0usize]);
            scope.emit(Opcode::Return, operands.as_slice(), line);
        }
        let len = scope.instructions.code.len();
        self.scopes.push(scope);
        let ghost done = self@;
        proof {
            assert(done.scopes =~= body.with_return(line).scopes);
            assert(done == body.with_return(line));
            lemma_with_return(with_params, body, line);
        }
        let num_locals = self.symtab.get_num_definitions();
        let free_symbols = share_all(&self.symtab.free_symbols);
        let instructions = self.leave_scope();
        let ghost left = self@;
        proof {
            assert(left.scopes =~= entry.scopes);
            lemma_resolve_keeps_shape(entry.symtab, Seq::<char>::empty());
        }
        let compiled_fn = Object::CompiledFunc(
            Rc::new(CompiledFunction::new(instructions, num_locals, func.params.len())),
        );
        let idx = self.add_constant(compiled_fn);
        let ghost function = ConstantView::Function {
            code: done.current().code,
            lines: done.current().lines,
            num_locals: done.symtab.num_definitions as usize,
            num_params: func.params@.len() as usize,
        };
        proof {
            assert(constant_view(self.constants@.last()) == function);
            assert(sound_constant(function));
            assert(self@.constants.take(body.constants.len() as int) =~= body.constants);
            lemma_constants_grow_chain(entry.constants, body.constants, self@.constants);
            lemma_step_none(entry);
            assert(expression_step(entry, self@));
            assert(self@.current() == entry.current());
            lemma_keeps_same(entry.current());
        }
        let ghost pooled = self@;
        // The captured values are fetched where the function is made.
        let mut i: usize = 0;
        while i < free_symbols.len()
            invariant
                i <= free_symbols@.len(),
                entry.inv(),
                self.wf(),
                symbol_views(free_symbols@) == done.symtab.free_symbols,
                self@ == pooled.load_symbols(done.symtab.free_symbols, i as nat, line),
                expression_step(entry, self@),
                keeps(entry.current(), self@.current(), i as int),
            decreases free_symbols@.len() - i,
        {
            let ghost before = self@;
            self.load_symbol(&free_symbols[i], line, Ghost(entry));
            proof {
                assert(entry.scopes[entry.scopes.len() - 1].inv());
                assert(before.scopes[before.scopes.len() - 1].inv());
                lemma_keeps_emitted(
                    entry.current(),
                    before.current(),
                    self@.current(),
                    i as int,
                    1,
                );
            }
            i = i + 1;
        }
        let operands: [usize; 2] = [idx, free_symbols.len()];
        assert(operands@ =~= seq![idx, free_symbols@.len() as usize]);
        let ghost loaded = self@;
        self.emit_step(Opcode::Closure, operands.as_slice(), line, Ghost(entry));
        proof {
            if modest_expression(Expression::Function(*func), entry) {
                let n = free_symbols@.len() as int;
                assert(symbol_views(free_symbols@).len() == free_symbols@.len());
                assert(entry.scopes[entry.scopes.len() - 1].inv());
                assert(loaded.scopes[loaded.scopes.len() - 1].inv());
                lemma_keeps_emitted(entry.current(), loaded.current(), self@.current(), n, 1 - n);
            }
        }
        Ok(())
    }
}

/// Where the first statements of a list fail to compile, the whole list
/// does, with the same error.
pub proof fn lemma_failed_statements(list: Seq<Statement>, m: CompilerModel, n: nat, upto: nat)
    requires
        1 <= n <= upto <= list.len(),
        compile_statements(list, m, n) is Err,
    ensures
        compile_statements(list, m, upto) == compile_statements(list, m, n),
    decreases upto - n,
{
    if n < upto {
        lemma_failed_statements(list, m, n, (upto - 1) as nat);
    }
}

/// Where the first expressions of a list fail to compile, the whole list
/// does, with the same error.
pub proof fn lemma_failed_expressions(list: Seq<Expression>, m: CompilerModel, n: nat, upto: nat)
    requires
        1 <= n <= upto <= list.len(),
        compile_expressions(list, m, n) is Err,
    ensures
        compile_expressions(list, m, upto) == compile_expressions(list, m, n),
    decreases upto - n,
{
    if n < upto {
        lemma_failed_expressions(list, m, n, (upto - 1) as nat);
    }
}

/// Where the first pairs of a list fail to compile, the whole list does,
/// with the same error.
pub proof fn lemma_failed_pairs(
    list: Seq<(Expression, Expression)>,
    m: CompilerModel,
    n: nat,
    upto: nat,
)
    requires
        1 <= n <= upto <= list.len(),
        compile_pairs(list, m, n) is Err,
    ensures
        compile_pairs(list, m, upto) == compile_pairs(list, m, n),
    decreases upto - n,
{
    if n < upto {
        lemma_failed_pairs(list, m, n, (upto - 1) as nat);
    }
}

/// A constant that joins the pool after a step keeps the step, where the
/// constant is sound.
pub proof fn lemma_new_constant(entry: CompilerModel, now: CompilerModel, constant: ConstantView)
    requires
        entry.inv(),
        expression_step(entry, now),
        sound_constant(constant),
    ensures
        expression_step(entry, now.add_constant(constant)),
{
    let after = now.add_constant(constant);
    assert(after.constants.take(entry.constants.len() as int) =~= entry.constants) by {
        assert forall|j: int| 0 <= j < entry.constants.len() implies after.constants[j]
            == entry.constants[j] by {
            assert(now.constants.take(entry.constants.len() as int)[j] == now.constants[j]);
        }
    }
    assert forall|i: int| entry.constants.len() <= i < after.constants.len() implies sound_constant(
        #[trigger] after.constants[i],
    ) by {
        if i < now.constants.len() {
            assert(sound_constant(now.constants[i]));
        }
    }
}

/// Where a statement's step wrote something, the last instruction starts
/// behind what the buffer held, and the record of the instruction before
/// it is true.
pub proof fn lemma_last_beyond(a: CompilerModel, b: CompilerModel)
    requires
        a.inv(),
        statement_step(a, b),
    ensures
        b.current() == a.current() || (b.current().starts.len() >= 1
            && b.current().prev_is_true() && b.current().last.position
            >= a.current().code.len()),
{
    let sa = a.current();
    let sb = b.current();
    assert(a.scopes[a.scopes.len() - 1].inv());
    assert(b.scopes[b.scopes.len() - 1].inv());
    if sb != sa {
        crate::compiler::scope::lemma_extends_bound(sa, sb);
        crate::compiler::scope::lemma_starts_increase(
            sb,
            sa.starts.len() as int,
            sb.starts.len() - 1,
        );
    }
}

/// An expression that kept the heights and an instruction behind it that
/// takes its value make a statement that keeps them.
pub proof fn lemma_statement_written(a: CompilerModel, m: CompilerModel, b: CompilerModel)
    requires
        a.inv(),
        m.inv(),
        expression_step(a, m),
        lifts(true, a, m, 1),
        m.current().code.len() < b.current().code.len() < 65536,
        emitted(m.current(), b.current(), -1),
        b.current().last.position == m.current().code.len(),
    ensures
        settles(a.current(), b.current()),
{
    assert(a.scopes[a.scopes.len() - 1].inv());
    assert(m.scopes[m.scopes.len() - 1].inv());
    lemma_settles_emitted(a.current(), m.current(), b.current());
}

/// An instruction that puts a value on the stack, written at the end of
/// a buffer, leaves one value more.
pub proof fn lemma_value_written(a: CompilerModel, b: CompilerModel)
    requires
        a.inv(),
        emitted(a.current(), b.current(), 1),
    ensures
        keeps(a.current(), b.current(), 1),
{
    assert(a.scopes[a.scopes.len() - 1].inv());
    lemma_keeps_same(a.current());
    lemma_keeps_emitted(a.current(), a.current(), b.current(), 0, 1);
}

/// An instruction written behind what left `x` values more adds its
/// effect.
pub proof fn lemma_written_behind(
    a: CompilerModel,
    m: CompilerModel,
    b: CompilerModel,
    x: int,
    y: int,
)
    requires
        a.inv(),
        m.inv(),
        lifts(true, a, m, x),
        m.current().code.len() <= b.current().code.len() < 65535,
        emitted(m.current(), b.current(), y),
        x + y >= 0,
    ensures
        keeps(a.current(), b.current(), x + y),
{
    assert(a.scopes[a.scopes.len() - 1].inv());
    assert(m.scopes[m.scopes.len() - 1].inv());
    lemma_keeps_emitted(a.current(), m.current(), b.current(), x, y);
}

/// Where the counts of the pairs of a list fit, those of each key and
/// of each value fit.
pub proof fn lemma_modest_pair(
    list: Seq<(Expression, Expression)>,
    entry: CompilerModel,
    before: CompilerModel,
    halfway: CompilerModel,
    i: nat,
)
    requires
        i < list.len(),
        modest_pairs(list, entry, list.len()),
        compile_pairs(list, entry, i) == Ok::<CompilerModel, ErrorView>(before),
        compile_expression(list[i as int].0, before) == Ok::<CompilerModel, ErrorView>(halfway),
    ensures
        modest_expression(list[i as int].0, before),
        modest_expression(list[i as int].1, halfway),
{
    let n = (i + 1) as nat;
    lemma_modest_pairs(list, entry, list.len(), n);
    assert((n - 1) as nat == i);
}

/// A key and its value behind the pairs before them leave two values
/// more.
pub proof fn lemma_pair_written(
    fit: bool,
    entry: CompilerModel,
    before: CompilerModel,
    halfway: CompilerModel,
    after: CompilerModel,
    i: int,
)
    requires
        lifts(fit, entry, before, 2 * i),
        lifts(fit, before, halfway, 1),
        lifts(fit, halfway, after, 1),
        before.current().code.len() <= halfway.current().code.len() <= after.current().code.len(),
    ensures
        lifts(fit, entry, after, 2 * (i + 1)),
{
    if fit && after.current().code.len() < 65535 {
        lemma_keeps_chain(before.current(), halfway.current(), after.current(), 1, 1);
        lemma_keeps_chain(entry.current(), before.current(), after.current(), 2 * i, 2);
    }
}

/// Two expressions one after the other leave two values more.
pub proof fn lemma_two_values(a: CompilerModel, m: CompilerModel, b: CompilerModel)
    requires
        lifts(true, a, m, 1),
        lifts(true, m, b, 1),
        m.current().code.len() <= b.current().code.len(),
    ensures
        lifts(true, a, b, 2),
{
    if b.current().code.len() < 65535 {
        lemma_keeps_chain(a.current(), m.current(), b.current(), 1, 1);
    }
}

/// The first part of an `if`: the condition, the jump over the first
/// block, the block without its last `Pop`, the jump over the second block,
/// and the first jump's target. The buffer then ends with the height from
/// before the condition, and the second jump waits for its target.
pub proof fn lemma_if_begins(
    entry: CompilerModel,
    m1: CompilerModel,
    m2: CompilerModel,
    m3: CompilerModel,
    m4: CompilerModel,
    m5: CompilerModel,
    k1: int,
    line: usize,
)
    requires
        entry.inv(),
        m1.inv(),
        m2.inv(),
        m3.inv(),
        m4.inv(),
        m5.inv(),
        expression_step(entry, m1),
        lifts(true, entry, m1, 1),
        m2.current() == m1.current().emit(Opcode::JumpIfFalse, seq![0xFFFFusize], line),
        statement_step(m2, m3),
        rests(true, m2, m3),
        m4.current() == m3.without_last_pop().current(),
        m5.current() == m4.current().emit(Opcode::Jump, seq![0xFFFFusize], line),
        m5.current().code.len() < 65535,
        k1 == m1.current().count(),
    ensures
        waits(
            entry.current(),
            m5.current().change_operand(
                m1.current().code.len() as int,
                m5.current().code.len() as usize,
            ),
            0,
            set![m4.current().code.len() as int],
        ),
{
    let s0 = entry.current();
    let s1 = m1.current();
    let s2 = m2.current();
    let s3 = m3.current();
    let s4 = m4.current();
    let s5 = m5.current();
    let p1 = s1.code.len() as int;
    let p2 = s4.code.len() as int;
    let none = Set::<int>::empty();
    assert(entry.scopes[entry.scopes.len() - 1].inv());
    assert(m1.scopes[m1.scopes.len() - 1].inv());
    assert(m2.scopes[m2.scopes.len() - 1].inv());
    assert(m3.scopes[m3.scopes.len() - 1].inv());
    assert(m4.scopes[m4.scopes.len() - 1].inv());
    assert(m5.scopes[m5.scopes.len() - 1].inv());
    crate::code::definitions::lemma_instruction_lens();
    crate::compiler::scope::lemma_emit(s1, Opcode::JumpIfFalse, seq![0xFFFFusize], line);
    crate::compiler::scope::lemma_emit(s4, Opcode::Jump, seq![0xFFFFusize], line);
    lemma_last_beyond(m2, m3);
    if s3.last_is(Opcode::Pop) {
        assert(s3.ok_at(s3.starts.len() - 1));
        crate::compiler::scope::lemma_remove_last(s3);
        crate::compiler::model::lemma_with_current(m3, s3.remove_last());
    }
    // the lengths grow, but for the one byte of a `Pop`
    assert(s3.code.len() <= s4.code.len() + 1);
    assert(s2.code.len() <= s3.code.len());
    assert(s1.code.len() < 65535);
    lemma_waits_none(s0, s1, 1);
    lemma_waits_jump(s0, s1, Opcode::JumpIfFalse, line, none);
    assert(none.insert(p1) =~= set![p1]);
    lemma_waits_block(s0, s2, s3, set![p1]);
    lemma_waits_jump(s0, s4, Opcode::Jump, line, set![p1]);
    assert(set![p1].insert(p2) =~= set![p1, p2]);
    // the first jump is instruction number `k1` of what is there now
    crate::compiler::scope::lemma_extends_keeps(s2, s3, k1);
    if s3.last_is(Opcode::Pop) {
        crate::compiler::scope::lemma_extends_keeps(s4, s3, k1);
    }
    crate::compiler::scope::lemma_extends_keeps(s4, s5, k1);
    assert(s5.starts[k1] == p1);
    assert(s5.opcode_at(k1) == Opcode::JumpIfFalse);
    lemma_waits_patch(s0, s5, k1, 0, set![p1, p2]);
    assert(set![p1, p2].remove(p1) =~= set![p2]);
}

/// Another symbol table of the same depth keeps a step.
pub proof fn lemma_set_symtab(entry: CompilerModel, now: CompilerModel, after: CompilerModel)
    requires
        expression_step(entry, now),
        after.scopes == now.scopes,
        after.constants == now.constants,
        after.symtab.depth() == now.symtab.depth(),
    ensures
        expression_step(entry, after),
        statement_step(entry, now) ==> statement_step(entry, after),
{
}

} // verus!
