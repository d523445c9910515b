//! The programs whose counts fit the operands that say them: no list, no
//! call and no closure is longer than its instruction can tell the machine.
//! For these the compiler keeps the heights of the stack.

use vstd::prelude::*;

use crate::code::opcode::Opcode;
use crate::compiler::balance::{keeps, settles};
use crate::compiler::model::{
    compile_expression,
    compile_expressions,
    compile_pairs,
    compile_statements,
    CompilerModel,
};
use crate::parser::ast::{Expression, Statement};

verus! {

/// Whether every count that the compilation of an expression writes as the
/// operand of `Array`, `Hash`, `Call` or `Closure` fits the operand's bytes:
/// an array has fewer than 65536 elements, a mapping fewer than 32768
/// pairs, a call fewer than 256 arguments, and a function captures fewer
/// than 256 values. What stands inside a function's body does not count:
/// it is compiled into a buffer of its own.
pub open spec fn modest_expression(e: Expression, m: CompilerModel) -> bool
    decreases e, 0nat,
{
    match e {
        Expression::Unary(x) => modest_expression(*x.right, m),
        Expression::Binary(x) => {
            let swapped = x.operator@ == "<"@;
            let first = if swapped {
                *x.right
            } else {
                *x.left
            };
            let second = if swapped {
                *x.left
            } else {
                *x.right
            };
            &&& modest_expression(first, m)
            &&& compile_expression(first, m) matches Ok(m1) ==> modest_expression(second, m1)
        },
        Expression::If(x) => {
            &&& modest_expression(*x.condition, m)
            &&& compile_expression(*x.condition, m) matches Ok(m1) ==> {
                let m2 = m1.emit(Opcode::JumpIfFalse, seq![0xFFFFusize], x.token.line);
                &&& modest_statements(x.then_stmt.statements@, m2, x.then_stmt.statements@.len())
                &&& compile_statements(
                    x.then_stmt.statements@,
                    m2,
                    x.then_stmt.statements@.len(),
                ) matches Ok(m3) ==> {
                    let m4 = m3.without_last_pop();
                    let m5 = m4.emit(Opcode::Jump, seq![0xFFFFusize], x.token.line);
                    let m6 = m5.with_current(
                        m5.current().change_operand(
                            m1.current().code.len() as int,
                            m5.current().code.len() as usize,
                        ),
                    );
                    match x.else_stmt {
                        None => true,
                        Some(block) => modest_statements(
                            block.statements@,
                            m6,
                            block.statements@.len(),
                        ),
                    }
                }
            }
        },
        Expression::Index(x) => {
            &&& modest_expression(*x.left, m)
            &&& compile_expression(*x.left, m) matches Ok(m1) ==> modest_expression(*x.index, m1)
        },
        Expression::Array(x) => {
            &&& x.elements@.len() < 65536
            &&& modest_expressions(x.elements@, m, x.elements@.len())
        },
        Expression::Hash(x) => {
            &&& x.pairs@.len() < 32768
            &&& modest_pairs(x.pairs@, m, x.pairs@.len())
        },
        Expression::Call(x) => {
            &&& x.args@.len() < 256
            &&& modest_expression(*x.func, m)
            &&& compile_expression(*x.func, m) matches Ok(m1) ==> modest_expressions(
                x.args@,
                m1,
                x.args@.len(),
            )
        },
        Expression::Function(x) => {
            let entered = m.enter_scope();
            let named = if x.name@.len() > 0 {
                entered.with_symtab(entered.symtab.define_function_name(x.name@))
            } else {
                entered
            };
            let with_params = named.define_params(x.params@, x.params@.len());
            compile_statements(
                x.body.statements@,
                with_params,
                x.body.statements@.len(),
            ) matches Ok(body) ==> body.symtab.free_symbols.len() < 256
        },
        _ => true,
    }
}

/// Whether the counts of the first `n` expressions of a list fit.
pub open spec fn modest_expressions(list: Seq<Expression>, m: CompilerModel, n: nat) -> bool
    decreases list, n,
{
    if n == 0 || n > list.len() {
        true
    } else {
        &&& modest_expressions(list, m, (n - 1) as nat)
        &&& compile_expressions(list, m, (n - 1) as nat) matches Ok(m1) ==> modest_expression(
            list[n - 1],
            m1,
        )
    }
}

/// Whether the counts of the first `n` pairs of a list fit.
pub open spec fn modest_pairs(list: Seq<(Expression, Expression)>, m: CompilerModel, n: nat)
    -> bool
    decreases list, n,
{
    if n == 0 || n > list.len() {
        true
    } else {
        &&& modest_pairs(list, m, (n - 1) as nat)
        &&& compile_pairs(list, m, (n - 1) as nat) matches Ok(m1) ==> {
            &&& modest_expression(list[n - 1].0, m1)
            &&& compile_expression(list[n - 1].0, m1) matches Ok(m2) ==> modest_expression(
                list[n - 1].1,
                m2,
            )
        }
    }
}

/// Whether the counts of a statement fit.
pub open spec fn modest_statement(s: Statement, m: CompilerModel) -> bool
    decreases s, 0nat,
{
    match s {
        Statement::Let(x) => modest_expression(x.value, m),
        Statement::Return(x) => modest_expression(x.value, m),
        Statement::Expr(x) => modest_expression(x.value, m),
        Statement::Nil => true,
    }
}

/// Whether the counts of the first `n` statements of a list fit.
pub open spec fn modest_statements(list: Seq<Statement>, m: CompilerModel, n: nat) -> bool
    decreases list, n,
{
    if n == 0 || n > list.len() {
        true
    } else {
        &&& modest_statements(list, m, (n - 1) as nat)
        &&& compile_statements(list, m, (n - 1) as nat) matches Ok(m1) ==> modest_statement(
            list[n - 1],
            m1,
        )
    }
}

/// Where the counts of the first statements of a list fit, those of
/// fewer of them fit.
pub proof fn lemma_modest_statements(list: Seq<Statement>, m: CompilerModel, n: nat, i: nat)
    requires
        i <= n <= list.len(),
        modest_statements(list, m, n),
    ensures
        modest_statements(list, m, i),
    decreases n - i,
{
    if i < n {
        lemma_modest_statements(list, m, (n - 1) as nat, i);
    }
}

/// Where the counts of the first expressions of a list fit, those of
/// fewer of them fit.
pub proof fn lemma_modest_expressions(list: Seq<Expression>, m: CompilerModel, n: nat, i: nat)
    requires
        i <= n <= list.len(),
        modest_expressions(list, m, n),
    ensures
        modest_expressions(list, m, i),
    decreases n - i,
{
    if i < n {
        lemma_modest_expressions(list, m, (n - 1) as nat, i);
    }
}

/// Where the counts of the first pairs of a list fit, those of fewer of
/// them fit.
pub proof fn lemma_modest_pairs(
    list: Seq<(Expression, Expression)>,
    m: CompilerModel,
    n: nat,
    i: nat,
)
    requires
        i <= n <= list.len(),
        modest_pairs(list, m, n),
    ensures
        modest_pairs(list, m, i),
    decreases n - i,
{
    if i < n {
        lemma_modest_pairs(list, m, (n - 1) as nat, i);
    }
}

/// The compilation kept the heights: where the counts fit and the buffer
/// is short enough for a jump to reach the end of what may still follow,
/// the buffer ends with `by` more than it did.
pub open spec fn lifts(fit: bool, before: CompilerModel, after: CompilerModel, by: int) -> bool {
    fit && after.current().code.len() < 65535 ==> keeps(before.current(), after.current(), by)
}

/// The compilation of statements kept the heights: where the counts fit
/// and the buffer is short enough for a jump to reach its end, the buffer
/// ends as it did.
pub open spec fn rests(fit: bool, before: CompilerModel, after: CompilerModel) -> bool {
    fit && after.current().code.len() < 65536 ==> settles(before.current(), after.current())
}

} // verus!
