//! How many local bindings a compiled function has: as many as the
//! definitions made in its scope, which are its parameters and the names
//! that its body binds.

use vstd::prelude::*;

use crate::compiler::model::{
    compile_expression,
    compile_expressions,
    compile_pairs,
    compile_statement,
    compile_statements,
    CompilerModel,
    ConstantView,
};
use crate::compiler::symtab::TableView;
use crate::parser::ast::{Expression, FunctionLiteral, Identifier, Statement};

verus! {

/// The number of names that an expression binds in the scope it stands in.
/// Only the blocks of an `if` bind names there; a function literal binds
/// its names in a scope of its own.
pub open spec fn definitions_in_expression(e: Expression) -> nat
    decreases e, 0nat,
{
    match e {
        Expression::Unary(x) => definitions_in_expression(*x.right),
        Expression::Binary(x) => definitions_in_expression(*x.left) + definitions_in_expression(
            *x.right,
        ),
        Expression::If(x) => definitions_in_expression(*x.condition) + definitions_in_statements(
            x.then_stmt.statements@,
            x.then_stmt.statements@.len(),
        ) + match x.else_stmt {
            None => 0,
            Some(block) => definitions_in_statements(block.statements@, block.statements@.len()),
        },
        Expression::Index(x) => definitions_in_expression(*x.left) + definitions_in_expression(
            *x.index,
        ),
        Expression::Array(x) => definitions_in_expressions(x.elements@, x.elements@.len()),
        Expression::Hash(x) => definitions_in_pairs(x.pairs@, x.pairs@.len()),
        Expression::Call(x) => definitions_in_expression(*x.func) + definitions_in_expressions(
            x.args@,
            x.args@.len(),
        ),
        _ => 0,
    }
}

/// The number of names that the first `n` expressions of a list bind.
pub open spec fn definitions_in_expressions(list: Seq<Expression>, n: nat) -> nat
    decreases list, n,
{
    if n == 0 || n > list.len() {
        0
    } else {
        definitions_in_expressions(list, (n - 1) as nat) + definitions_in_expression(list[n - 1])
    }
}

/// The number of names that the first `n` pairs of a list bind.
pub open spec fn definitions_in_pairs(list: Seq<(Expression, Expression)>, n: nat) -> nat
    decreases list, n,
{
    if n == 0 || n > list.len() {
        0
    } else {
        definitions_in_pairs(list, (n - 1) as nat) + definitions_in_expression(list[n - 1].0)
            + definitions_in_expression(list[n - 1].1)
    }
}

/// The number of names that a statement binds in the scope it stands in:
/// a `let` binds one, and its value may bind more.
pub open spec fn definitions_in_statement(s: Statement) -> nat
    decreases s, 0nat,
{
    match s {
        Statement::Let(x) => definitions_in_expression(x.value) + 1,
        Statement::Return(x) => definitions_in_expression(x.value),
        Statement::Expr(x) => definitions_in_expression(x.value),
        Statement::Nil => 0,
    }
}

/// The number of names that the first `n` statements of a list bind.
pub open spec fn definitions_in_statements(list: Seq<Statement>, n: nat) -> nat
    decreases list, n,
{
    if n == 0 || n > list.len() {
        0
    } else {
        definitions_in_statements(list, (n - 1) as nat) + definitions_in_statement(list[n - 1])
    }
}

/// The table `after` has `more` definitions more than `before` in its own
/// scope, and as many as `before` in every scope around it.
pub open spec fn counts(before: TableView, after: TableView, more: nat) -> bool {
    &&& after.depth() == before.depth()
    &&& after.num_definitions == before.num_definitions + more
    &&& forall|k: nat|
        1 <= k <= before.depth() ==> (#[trigger] after.ancestor(k)).num_definitions
            == before.ancestor(k).num_definitions
}

/// A lookup makes no definition in any scope.
pub proof fn lemma_resolve_counts(table: TableView, name: Seq<char>)
    ensures
        counts(table, table.resolve(name).1, 0),
    decreases table,
{
    let after = table.resolve(name).1;
    if !table.store.contains_key(name) {
        match table.outer {
            None => {},
            Some(outer) => {
                lemma_resolve_counts(*outer, name);
                let found = outer.resolve(name);
                assert(after.outer == Some(Box::new(found.1)));
                assert forall|k: nat| 1 <= k <= table.depth() implies (#[trigger] after.ancestor(
                    k,
                )).num_definitions == table.ancestor(k).num_definitions by {
                    assert(after.ancestor(k) == found.1.ancestor((k - 1) as nat));
                    assert(table.ancestor(k) == outer.ancestor((k - 1) as nat));
                    if k > 1 {
                        assert(((k - 1) as nat) >= 1);
                    } else {
                        assert(found.1.ancestor(0) == found.1);
                        assert(outer.ancestor(0) == *outer);
                    }
                }
            },
        }
    }
}

/// Counting goes on from table to table.
pub proof fn lemma_counts_chain(a: TableView, b: TableView, c: TableView, x: nat, y: nat)
    requires
        counts(a, b, x),
        counts(b, c, y),
    ensures
        counts(a, c, x + y),
{
    assert forall|k: nat| 1 <= k <= a.depth() implies (#[trigger] c.ancestor(k)).num_definitions
        == a.ancestor(k).num_definitions by {
        assert(b.ancestor(k).num_definitions == a.ancestor(k).num_definitions);
    }
}

/// A table counts nothing more than itself.
pub proof fn lemma_counts_same(a: TableView, b: TableView)
    requires
        a.outer == b.outer,
        a.num_definitions == b.num_definitions,
    ensures
        counts(a, b, 0),
{
    assert(a.depth() == b.depth());
    assert forall|k: nat| 1 <= k <= a.depth() implies (#[trigger] b.ancestor(k)).num_definitions
        == a.ancestor(k).num_definitions by {
        assert(b.ancestor(k) == a.ancestor(k));
    }
}

/// A definition counts one in the table's own scope.
pub proof fn lemma_counts_define(a: TableView, name: Seq<char>)
    ensures
        counts(a, a.define(name), 1),
{
    let b = a.define(name);
    assert(a.depth() == b.depth());
    assert forall|k: nat| 1 <= k <= a.depth() implies (#[trigger] b.ancestor(k)).num_definitions
        == a.ancestor(k).num_definitions by {
        assert(b.ancestor(k) == a.ancestor(k));
    }
}

/// The parameters of a function count one each.
pub proof fn lemma_counts_params(m: CompilerModel, params: Seq<Identifier>, n: nat)
    requires
        n <= params.len(),
    ensures
        counts(m.symtab, m.define_params(params, n).symtab, n),
    decreases n,
{
    if n == 0 {
        lemma_counts_same(m.symtab, m.symtab);
    } else {
        lemma_counts_params(m, params, (n - 1) as nat);
        let before = m.define_params(params, (n - 1) as nat);
        lemma_counts_define(before.symtab, params[n - 1].value@);
        lemma_counts_chain(
            m.symtab,
            before.symtab,
            m.define_params(params, n).symtab,
            (n - 1) as nat,
            1,
        );
    }
}

/// Fetching symbols makes no definition.
pub proof fn lemma_load_symbols_symtab(
    m: CompilerModel,
    symbols: Seq<crate::compiler::symtab::SymbolView>,
    n: nat,
    line: usize,
)
    ensures
        m.load_symbols(symbols, n, line).symtab == m.symtab,
        m.load_symbols(symbols, n, line).constants == m.constants,
    decreases n,
{
    if n > 0 && n <= symbols.len() {
        lemma_load_symbols_symtab(m, symbols, (n - 1) as nat, line);
    }
}

/// The compilation of an expression makes as many definitions in the
/// current scope as the expression binds names there, and none in the
/// scopes around it.
#[verifier::rlimit(60)]
pub proof fn lemma_expression_counts(e: Expression, m: CompilerModel)
    requires
        compile_expression(e, m) is Ok,
    ensures
        counts(m.symtab, compile_expression(e, m)->Ok_0.symtab, definitions_in_expression(e)),
    decreases e, 0nat,
{
    let done = compile_expression(e, m)->Ok_0;
    match e {
        Expression::Number(x) => {
            lemma_counts_same(m.symtab, done.symtab);
        },
        Expression::Str(x) => {
            lemma_counts_same(m.symtab, done.symtab);
        },
        Expression::Bool(x) => {
            lemma_counts_same(m.symtab, done.symtab);
        },
        Expression::Nil => {
            lemma_counts_same(m.symtab, done.symtab);
        },
        Expression::Unary(x) => {
            lemma_expression_counts(*x.right, m);
        },
        Expression::Binary(x) => {
            let swapped = x.operator@ == "<"@;
            let first = if swapped {
                *x.right
            } else {
                *x.left
            };
            let second = if swapped {
                *x.left
            } else {
                *x.right
            };
            let m1 = compile_expression(first, m)->Ok_0;
            let m2 = compile_expression(second, m1)->Ok_0;
            lemma_expression_counts(first, m);
            lemma_expression_counts(second, m1);
            lemma_counts_chain(
                m.symtab,
                m1.symtab,
                m2.symtab,
                definitions_in_expression(first),
                definitions_in_expression(second),
            );
        },
        Expression::If(x) => {
            let m1 = compile_expression(*x.condition, m)->Ok_0;
            let m2 = m1.emit(
                crate::code::opcode::Opcode::JumpIfFalse,
                seq![0xFFFFusize],
                x.token.line,
            );
            let then_stmt = x.then_stmt.statements@;
            let m3 = compile_statements(then_stmt, m2, then_stmt.len())->Ok_0;
            let m4 = m3.without_last_pop();
            let m5 = m4.emit(crate::code::opcode::Opcode::Jump, seq![0xFFFFusize], x.token.line);
            let m6 = m5.with_current(
                m5.current().change_operand(
                    m1.current().code.len() as int,
                    m5.current().code.len() as usize,
                ),
            );
            lemma_expression_counts(*x.condition, m);
            lemma_statements_count(then_stmt, m2, then_stmt.len());
            lemma_counts_chain(
                m.symtab,
                m1.symtab,
                m3.symtab,
                definitions_in_expression(*x.condition),
                definitions_in_statements(then_stmt, then_stmt.len()),
            );
            match x.else_stmt {
                None => {},
                Some(block) => {
                    let else_stmt = block.statements@;
                    let m7 = compile_statements(else_stmt, m6, else_stmt.len())->Ok_0;
                    lemma_statements_count(else_stmt, m6, else_stmt.len());
                    lemma_counts_chain(
                        m.symtab,
                        m6.symtab,
                        m7.symtab,
                        definitions_in_expression(*x.condition) + definitions_in_statements(
                            then_stmt,
                            then_stmt.len(),
                        ),
                        definitions_in_statements(else_stmt, else_stmt.len()),
                    );
                },
            }
        },
        Expression::Ident(x) => {
            lemma_resolve_counts(m.symtab, x.token.literal@);
        },
        Expression::Index(x) => {
            let m1 = compile_expression(*x.left, m)->Ok_0;
            let m2 = compile_expression(*x.index, m1)->Ok_0;
            lemma_expression_counts(*x.left, m);
            lemma_expression_counts(*x.index, m1);
            lemma_counts_chain(
                m.symtab,
                m1.symtab,
                m2.symtab,
                definitions_in_expression(*x.left),
                definitions_in_expression(*x.index),
            );
        },
        Expression::Array(x) => {
            lemma_expressions_count(x.elements@, m, x.elements@.len());
        },
        Expression::Hash(x) => {
            lemma_pairs_count(x.pairs@, m, x.pairs@.len());
        },
        Expression::Call(x) => {
            let m1 = compile_expression(*x.func, m)->Ok_0;
            let m2 = compile_expressions(x.args@, m1, x.args@.len())->Ok_0;
            lemma_expression_counts(*x.func, m);
            lemma_expressions_count(x.args@, m1, x.args@.len());
            lemma_counts_chain(
                m.symtab,
                m1.symtab,
                m2.symtab,
                definitions_in_expression(*x.func),
                definitions_in_expressions(x.args@, x.args@.len()),
            );
        },
        Expression::Function(x) => {
            lemma_function_counts(x, m);
        },
    }
}

/// What the compilation of a function literal leaves: a compiled function
/// at the end of the pool whose count of local bindings is the number of
/// its parameters and of the names that its body binds, and whose count of
/// parameters is the number of its parameters; and no definition in the
/// scope that the literal stands in, nor in any scope around it.
pub proof fn lemma_function_counts(f: FunctionLiteral, m: CompilerModel)
    requires
        compile_expression(Expression::Function(f), m) is Ok,
    ensures
        counts(m.symtab, compile_expression(Expression::Function(f), m)->Ok_0.symtab, 0),
        compile_expression(Expression::Function(f), m)->Ok_0.constants.len() > 0,
        compile_expression(Expression::Function(f), m)->Ok_0.constants.last() matches ConstantView::Function {
            num_locals,
            num_params,
            ..
        } && num_locals == (f.params@.len() + definitions_in_statements(
            f.body.statements@,
            f.body.statements@.len(),
        )) as usize && num_params == f.params@.len() as usize,
    decreases f, 0nat,
{
    let done = compile_expression(Expression::Function(f), m)->Ok_0;
    let entered = m.enter_scope();
    let named_fn = if f.name@.len() > 0 {
        entered.with_symtab(entered.symtab.define_function_name(f.name@))
    } else {
        entered
    };
    let with_params = named_fn.define_params(f.params@, f.params@.len());
    let body_list = f.body.statements@;
    let body = compile_statements(body_list, with_params, body_list.len())->Ok_0;
    let finished = body.with_return(f.token.line);
    let left = finished.leave_scope();
    let function = ConstantView::Function {
        code: finished.current().code,
        lines: finished.current().lines,
        num_locals: finished.symtab.num_definitions as usize,
        num_params: f.params@.len() as usize,
    };
    let free = finished.symtab.free_symbols;
    let pooled = left.add_constant(function);
    let loaded = pooled.load_symbols(free, free.len(), f.token.line);
    lemma_counts_params(named_fn, f.params@, f.params@.len());
    lemma_statements_count(body_list, with_params, body_list.len());
    lemma_load_symbols_symtab(pooled, free, free.len(), f.token.line);
    assert(finished.symtab == body.symtab);
    assert(named_fn.symtab.num_definitions == 0);
    assert(named_fn.symtab.outer == Some(Box::new(m.symtab)));
    // the table around the function's scope is what it was, but for captures
    assert(named_fn.symtab.depth() == m.symtab.depth() + 1);
    assert(named_fn.symtab.ancestor(1) == m.symtab.ancestor(0));
    assert(m.symtab.ancestor(0) == m.symtab);
    assert(body.symtab.ancestor(1) == *body.symtab.outer.unwrap()) by {
        assert(body.symtab.depth() >= 1);
        assert((*body.symtab.outer.unwrap()).ancestor(0) == *body.symtab.outer.unwrap());
    }
    assert(done.symtab == left.symtab);
    assert(done.constants == pooled.constants);
    assert(done.constants.last() == function);
    assert forall|k: nat| 1 <= k <= m.symtab.depth() implies (#[trigger] left.symtab.ancestor(
        k,
    )).num_definitions == m.symtab.ancestor(k).num_definitions by {
        assert(body.symtab.ancestor(k + 1) == left.symtab.ancestor(k));
        assert(named_fn.symtab.ancestor(k + 1) == m.symtab.ancestor(k));
        assert(with_params.symtab.ancestor(k + 1).num_definitions == named_fn.symtab.ancestor(
            k + 1,
        ).num_definitions);
    }
}

/// The compilation of the first `n` expressions of a list makes as many
/// definitions as they bind names.
pub proof fn lemma_expressions_count(list: Seq<Expression>, m: CompilerModel, n: nat)
    requires
        n <= list.len(),
        compile_expressions(list, m, n) is Ok,
    ensures
        counts(
            m.symtab,
            compile_expressions(list, m, n)->Ok_0.symtab,
            definitions_in_expressions(list, n),
        ),
    decreases list, n,
{
    if n == 0 {
        lemma_counts_same(m.symtab, m.symtab);
    } else {
        let m1 = compile_expressions(list, m, (n - 1) as nat)->Ok_0;
        lemma_expressions_count(list, m, (n - 1) as nat);
        lemma_expression_counts(list[n - 1], m1);
        lemma_counts_chain(
            m.symtab,
            m1.symtab,
            compile_expressions(list, m, n)->Ok_0.symtab,
            definitions_in_expressions(list, (n - 1) as nat),
            definitions_in_expression(list[n - 1]),
        );
    }
}

/// The compilation of the first `n` pairs of a list makes as many
/// definitions as they bind names.
pub proof fn lemma_pairs_count(list: Seq<(Expression, Expression)>, m: CompilerModel, n: nat)
    requires
        n <= list.len(),
        compile_pairs(list, m, n) is Ok,
    ensures
        counts(m.symtab, compile_pairs(list, m, n)->Ok_0.symtab, definitions_in_pairs(list, n)),
    decreases list, n,
{
    if n == 0 {
        lemma_counts_same(m.symtab, m.symtab);
    } else {
        let m1 = compile_pairs(list, m, (n - 1) as nat)->Ok_0;
        let m2 = compile_expression(list[n - 1].0, m1)->Ok_0;
        let m3 = compile_expression(list[n - 1].1, m2)->Ok_0;
        lemma_pairs_count(list, m, (n - 1) as nat);
        lemma_expression_counts(list[n - 1].0, m1);
        lemma_expression_counts(list[n - 1].1, m2);
        lemma_counts_chain(
            m.symtab,
            m1.symtab,
            m2.symtab,
            definitions_in_pairs(list, (n - 1) as nat),
            definitions_in_expression(list[n - 1].0),
        );
        lemma_counts_chain(
            m.symtab,
            m2.symtab,
            m3.symtab,
            definitions_in_pairs(list, (n - 1) as nat) + definitions_in_expression(list[n - 1].0),
            definitions_in_expression(list[n - 1].1),
        );
    }
}

/// The compilation of a statement makes as many definitions as the
/// statement binds names.
#[verifier::rlimit(60)]
pub proof fn lemma_statement_counts(s: Statement, m: CompilerModel)
    requires
        compile_statement(s, m) is Ok,
    ensures
        counts(m.symtab, compile_statement(s, m)->Ok_0.symtab, definitions_in_statement(s)),
    decreases s, 0nat,
{
    match s {
        Statement::Expr(x) => {
            lemma_expression_counts(x.value, m);
        },
        Statement::Let(x) => {
            let m1 = compile_expression(x.value, m)->Ok_0;
            lemma_expression_counts(x.value, m);
            lemma_counts_define(m1.symtab, x.name.value@);
            lemma_counts_chain(
                m.symtab,
                m1.symtab,
                m1.symtab.define(x.name.value@),
                definitions_in_expression(x.value),
                1,
            );
        },
        Statement::Return(x) => {
            lemma_expression_counts(x.value, m);
        },
        Statement::Nil => {
            lemma_counts_same(m.symtab, m.symtab);
        },
    }
}

/// The compilation of the first `n` statements of a list makes as many
/// definitions as they bind names.
pub proof fn lemma_statements_count(list: Seq<Statement>, m: CompilerModel, n: nat)
    requires
        n <= list.len(),
        compile_statements(list, m, n) is Ok,
    ensures
        counts(
            m.symtab,
            compile_statements(list, m, n)->Ok_0.symtab,
            definitions_in_statements(list, n),
        ),
    decreases list, n,
{
    if n == 0 {
        lemma_counts_same(m.symtab, m.symtab);
    } else {
        let m1 = compile_statements(list, m, (n - 1) as nat)->Ok_0;
        lemma_statements_count(list, m, (n - 1) as nat);
        lemma_statement_counts(list[n - 1], m1);
        lemma_counts_chain(
            m.symtab,
            m1.symtab,
            compile_statements(list, m, n)->Ok_0.symtab,
            definitions_in_statements(list, (n - 1) as nat),
            definitions_in_statement(list[n - 1]),
        );
    }
}

} // verus!
