//! The syntax tree: statements and expressions, each with the token it
//! started from, and their printed form.

use vstd::prelude::*;

use crate::scanner::token::Token;
use crate::text::chars_of;

verus! {

#[derive(Debug)]
pub enum Expression {
    Ident(Identifier),
    Number(NumberLiteral),
    Str(StringLiteral),
    Unary(UnaryExpr),
    Binary(BinaryExpr),
    Bool(BooleanExpr),
    If(IfExpr),
    Function(FunctionLiteral),
    Call(CallExpr),
    Array(ArrayLiteral),
    Hash(HashLiteral),
    Index(IndexExpr),
    Nil,
}

#[derive(Debug)]
pub struct Identifier {
    pub token: Token,
    pub value: String,
}

#[derive(Debug)]
pub struct StringLiteral {
    pub token: Token,
    pub value: String,
}

/// A number as written in the source. Its value is the bit pattern of the
/// IEEE-754 double nearest to what the digits say.
#[derive(Debug)]
pub struct NumberLiteral {
    pub token: Token,
    pub value: u64,
}

#[derive(Debug)]
pub struct UnaryExpr {
    pub token: Token,
    pub operator: String,
    pub right: Box<Expression>,
}

#[derive(Debug)]
pub struct BinaryExpr {
    pub token: Token,
    pub operator: String,
    pub left: Box<Expression>,
    pub right: Box<Expression>,
}

#[derive(Debug)]
pub struct BooleanExpr {
    pub token: Token,
    pub value: bool,
}

#[derive(Debug)]
pub struct IfExpr {
    pub token: Token,
    pub condition: Box<Expression>,
    pub then_stmt: BlockStatement,
    pub else_stmt: Option<BlockStatement>,
}

/// A function literal. Where a `let` binds it to a name, `name` holds that
/// name, so that the body can refer to the function itself; else `name` is
/// empty.
#[derive(Debug)]
pub struct FunctionLiteral {
    pub token: Token,
    pub params: Vec<Identifier>,
    pub body: BlockStatement,
    pub name: String,
}

#[derive(Debug)]
pub struct CallExpr {
    pub token: Token,
    pub func: Box<Expression>,
    pub args: Vec<Expression>,
}

#[derive(Debug)]
pub struct ArrayLiteral {
    pub token: Token,
    pub elements: Vec<Expression>,
}

/// A mapping literal: its keys and values in the order of the source.
#[derive(Debug)]
pub struct HashLiteral {
    pub token: Token,
    pub pairs: Vec<(Expression, Expression)>,
}

#[derive(Debug)]
pub struct IndexExpr {
    pub token: Token,
    pub left: Box<Expression>,
    pub index: Box<Expression>,
}

#[derive(Debug)]
pub enum Statement {
    Let(LetStmt),
    Return(ReturnStmt),
    Expr(ExpressionStmt),
    Nil,
}

#[derive(Debug)]
pub struct LetStmt {
    pub token: Token,
    pub name: Identifier,
    pub value: Expression,
}

#[derive(Debug)]
pub struct ReturnStmt {
    pub token: Token,
    pub value: Expression,
}

#[derive(Debug)]
pub struct ExpressionStmt {
    pub token: Token,
    pub value: Expression,
}

#[derive(Debug)]
pub struct BlockStatement {
    pub statements: Vec<Statement>,
}

#[derive(Debug)]
pub struct Program {
    pub statements: Vec<Statement>,
}

/// Text without the blanks and commas at its end.
pub open spec fn trimmed(text: Seq<char>) -> Seq<char>
    decreases text.len(),
{
    if text.len() > 0 && (text.last() == ' ' || text.last() == ',') {
        trimmed(text.drop_last())
    } else {
        text
    }
}

/// The printed form of an expression. Operators are printed with their
/// operands in parentheses, so that the form shows how the expression was
/// read.
pub open spec fn expression_text(e: Expression) -> Seq<char>
    decreases e, 0nat,
{
    match e {
        Expression::Ident(x) => x.token.literal@,
        Expression::Number(x) => x.token.literal@,
        Expression::Str(x) => x.token.literal@,
        Expression::Bool(x) => x.token.literal@,
        Expression::Nil => "nil"@,
        Expression::Unary(x) => (seq!['('] + x.token.literal@ + expression_text(*x.right)).push(
            ')',
        ),
        Expression::Binary(x) => (((seq!['('] + expression_text(*x.left)).push(' ')
            + x.token.literal@).push(' ') + expression_text(*x.right)).push(')'),
        Expression::If(x) => {
            let head = ("if ("@ + expression_text(*x.condition) + ") { "@ + statements_text(
                x.then_stmt.statements@,
                x.then_stmt.statements@.len(),
            ) + " }"@);
            match x.else_stmt {
                None => head,
                Some(other) => head + " else { "@ + statements_text(
                    other.statements@,
                    other.statements@.len(),
                ) + " }"@,
            }
        },
        Expression::Function(x) => (x.token.literal@ + " ("@ + trimmed(
            identifiers_text(x.params@, x.params@.len()),
        ) + ") "@ + statements_text(x.body.statements@, x.body.statements@.len())),
        Expression::Call(x) => (expression_text(*x.func).push('(') + trimmed(
            expressions_text(x.args@, x.args@.len()),
        )).push(')'),
        Expression::Array(x) => (seq!['['] + trimmed(
            expressions_text(x.elements@, x.elements@.len()),
        )).push(']'),
        Expression::Hash(x) => (seq!['{'] + trimmed(pairs_text(x.pairs@, x.pairs@.len()))).push(
            '}',
        ),
        Expression::Index(x) => (((seq!['('] + expression_text(*x.left)).push('[')
            + expression_text(*x.index)).push(']')).push(')'),
    }
}

/// The first `n` expressions printed one after the other, each followed by
/// a comma and a blank.
pub open spec fn expressions_text(list: Seq<Expression>, n: nat) -> Seq<char>
    decreases list, n,
{
    if n == 0 || n > list.len() {
        Seq::<char>::empty()
    } else {
        expressions_text(list, (n - 1) as nat) + expression_text(list[n - 1]) + ", "@
    }
}

/// The first `n` pairs printed one after the other as key, colon and value,
/// each followed by a comma and a blank.
pub open spec fn pairs_text(list: Seq<(Expression, Expression)>, n: nat) -> Seq<char>
    decreases list, n,
{
    if n == 0 || n > list.len() {
        Seq::<char>::empty()
    } else {
        (pairs_text(list, (n - 1) as nat) + expression_text(list[n - 1].0)).push(':')
            + expression_text(list[n - 1].1) + ", "@
    }
}

/// The first `n` identifiers printed one after the other, each followed by
/// a comma and a blank.
pub open spec fn identifiers_text(list: Seq<Identifier>, n: nat) -> Seq<char>
    decreases n,
{
    if n == 0 || n > list.len() {
        Seq::<char>::empty()
    } else {
        identifiers_text(list, (n - 1) as nat) + list[n - 1].token.literal@ + ", "@
    }
}

/// The printed form of a statement.
pub open spec fn statement_text(s: Statement) -> Seq<char>
    decreases s, 0nat,
{
    match s {
        Statement::Let(x) => ("let "@ + x.name.token.literal@ + " = "@ + expression_text(
            x.value,
        )).push(';'),
        Statement::Return(x) => ("return "@ + expression_text(x.value)).push(';'),
        Statement::Expr(x) => expression_text(x.value),
        Statement::Nil => "nil"@,
    }
}

/// The first `n` statements printed one after the other.
pub open spec fn statements_text(list: Seq<Statement>, n: nat) -> Seq<char>
    decreases list, n,
{
    if n == 0 || n > list.len() {
        Seq::<char>::empty()
    } else {
        statements_text(list, (n - 1) as nat) + statement_text(list[n - 1])
    }
}

/// The text of the token that a statement started from.
pub open spec fn statement_token_literal(s: Statement) -> Seq<char> {
    match s {
        Statement::Let(x) => x.token.literal@,
        Statement::Return(x) => x.token.literal@,
        Statement::Expr(x) => x.token.literal@,
        Statement::Nil => "nil"@,
    }
}

/// The text of the token that an expression started from.
pub open spec fn expression_token_literal(e: Expression) -> Seq<char> {
    match e {
        Expression::Ident(x) => x.token.literal@,
        Expression::Number(x) => x.token.literal@,
        Expression::Str(x) => x.token.literal@,
        Expression::Unary(x) => x.token.literal@,
        Expression::Binary(x) => x.token.literal@,
        Expression::Bool(x) => x.token.literal@,
        Expression::If(x) => x.token.literal@,
        Expression::Function(x) => x.token.literal@,
        Expression::Call(x) => x.token.literal@,
        Expression::Array(x) => x.token.literal@,
        Expression::Hash(x) => x.token.literal@,
        Expression::Index(x) => x.token.literal@,
        Expression::Nil => "nil"@,
    }
}

/// Appends text without the blanks and commas at its end.
fn push_trimmed(out: &mut String, text: &String)
    ensures
        final(out)@ == old(out)@ + trimmed(text@),
{
    let chars = chars_of(text.as_str());
    let mut end = chars.len();
    assert(chars@.take(end as int) =~= chars@);
    while end > 0 && (chars[end - 1] == ' ' || chars[end - 1] == ',')
        invariant
            end <= chars@.len(),
            trimmed(chars@.take(end as int)) == trimmed(chars@),
        decreases end,
    {
        assert(chars@.take(end as int).drop_last() =~= chars@.take(end - 1));
        end = end - 1;
    }
    proof {
        assert(chars@.take(chars@.len() as int) =~= chars@);
        assert(trimmed(chars@.take(end as int)) == chars@.take(end as int));
    }
    let mut i: usize = 0;
    while i < end
        invariant
            i <= end <= chars@.len(),
            out@ == old(out)@ + chars@.take(i as int),
        decreases end - i,
    {
        out.push(chars[i]);
        i = i + 1;
        assert(out@ =~= old(out)@ + chars@.take(i as int));
    }
}

/// Appends the printed form of a list of statements.
fn write_statements(list: &Vec<Statement>, out: &mut String)
    ensures
        final(out)@ == old(out)@ + statements_text(list@, list@.len()),
    decreases list, 1nat,
{
    let mut i: usize = 0;
    while i < list.len()
        invariant
            i <= list@.len(),
            out@ == old(out)@ + statements_text(list@, i as nat),
        decreases list@.len() - i,
    {
        assert(decreases_to!(list => list[i as int]));
        write_statement(&list[i], out);
        i = i + 1;
        assert(out@ =~= old(out)@ + statements_text(list@, i as nat));
    }
}

/// Appends the printed form of a list of expressions, each followed by a
/// comma and a blank.
fn write_expressions(list: &Vec<Expression>, out: &mut String)
    ensures
        final(out)@ == old(out)@ + expressions_text(list@, list@.len()),
    decreases list, 1nat,
{
    let mut i: usize = 0;
    while i < list.len()
        invariant
            i <= list@.len(),
            out@ == old(out)@ + expressions_text(list@, i as nat),
        decreases list@.len() - i,
    {
        assert(decreases_to!(list => list[i as int]));
        write_expression(&list[i], out);
        out.append(", ");
        i = i + 1;
        assert(out@ =~= old(out)@ + expressions_text(list@, i as nat));
    }
}

/// Appends the printed form of a list of pairs, each followed by a comma
/// and a blank.
fn write_pairs(list: &Vec<(Expression, Expression)>, out: &mut String)
    ensures
        final(out)@ == old(out)@ + pairs_text(list@, list@.len()),
    decreases list, 1nat,
{
    let mut i: usize = 0;
    while i < list.len()
        invariant
            i <= list@.len(),
            out@ == old(out)@ + pairs_text(list@, i as nat),
        decreases list@.len() - i,
    {
        assert(decreases_to!(list => list[i as int]));
        assert(decreases_to!(list => list[i as int].0));
        assert(decreases_to!(list => list[i as int].1));
        write_expression(&list[i].0, out);
        out.push(':');
        write_expression(&list[i].1, out);
        out.append(", ");
        i = i + 1;
        assert(out@ =~= old(out)@ + pairs_text(list@, i as nat));
    }
}

/// Appends the printed form of a list of identifiers, each followed by a
/// comma and a blank.
fn write_identifiers(list: &Vec<Identifier>, out: &mut String)
    ensures
        final(out)@ == old(out)@ + identifiers_text(list@, list@.len()),
{
    let mut i: usize = 0;
    while i < list.len()
        invariant
            i <= list@.len(),
            out@ == old(out)@ + identifiers_text(list@, i as nat),
        decreases list@.len() - i,
    {
        out.append(list[i].token.literal.as_str());
        out.append(", ");
        i = i + 1;
        assert(out@ =~= old(out)@ + identifiers_text(list@, i as nat));
    }
}

/// Appends the printed form of a statement.
fn write_statement(s: &Statement, out: &mut String)
    ensures
        final(out)@ == old(out)@ + statement_text(*s),
    decreases s, 0nat,
{
    match s {
        Statement::Let(x) => {
            out.append("let ");
            out.append(x.name.token.literal.as_str());
            out.append(" = ");
            write_expression(&x.value, out);
            out.push(';');
            assert(out@ =~= old(out)@ + statement_text(*s));
        },
        Statement::Return(x) => {
            out.append("return ");
            write_expression(&x.value, out);
            out.push(';');
            assert(out@ =~= old(out)@ + statement_text(*s));
        },
        Statement::Expr(x) => {
            write_expression(&x.value, out);
        },
        Statement::Nil => {
            out.append("nil");
        },
    }
}

/// Appends the printed form of an expression.
fn write_expression(e: &Expression, out: &mut String)
    ensures
        final(out)@ == old(out)@ + expression_text(*e),
    decreases e, 0nat,
{
    match e {
        Expression::Ident(x) => {
            out.append(x.token.literal.as_str());
        },
        Expression::Number(x) => {
            out.append(x.token.literal.as_str());
        },
        Expression::Str(x) => {
            out.append(x.token.literal.as_str());
        },
        Expression::Bool(x) => {
            out.append(x.token.literal.as_str());
        },
        Expression::Nil => {
            out.append("nil");
        },
        Expression::Unary(x) => {
            out.push('(');
            out.append(x.token.literal.as_str());
            write_expression(&x.right, out);
            out.push(')');
            assert(out@ =~= old(out)@ + expression_text(*e));
        },
        Expression::Binary(x) => {
            out.push('(');
            write_expression(&x.left, out);
            out.push(' ');
            out.append(x.token.literal.as_str());
            out.push(' ');
            write_expression(&x.right, out);
            out.push(')');
            assert(out@ =~= old(out)@ + expression_text(*e));
        },
        Expression::If(x) => {
            out.append("if (");
            write_expression(&x.condition, out);
            out.append(") { ");
            write_statements(&x.then_stmt.statements, out);
            out.append(" }");
            match &x.else_stmt {
                None => {},
                Some(other) => {
                    out.append(" else { ");
                    write_statements(&other.statements, out);
                    out.append(" }");
                },
            }
            assert(out@ =~= old(out)@ + expression_text(*e));
        },
        Expression::Function(x) => {
            out.append(x.token.literal.as_str());
            out.append(" (");
            let mut list = String::new();
            write_identifiers(&x.params, &mut list);
            assert(list@ =~= identifiers_text(x.params@, x.params@.len()));
            push_trimmed(out, &list);
            out.append(") ");
            write_statements(&x.body.statements, out);
            assert(out@ =~= old(out)@ + expression_text(*e));
        },
        Expression::Call(x) => {
            write_expression(&x.func, out);
            out.push('(');
            let mut list = String::new();
            write_expressions(&x.args, &mut list);
            assert(list@ =~= expressions_text(x.args@, x.args@.len()));
            push_trimmed(out, &list);
            out.push(')');
            assert(out@ =~= old(out)@ + expression_text(*e));
        },
        Expression::Array(x) => {
            out.push('[');
            let mut list = String::new();
            write_expressions(&x.elements, &mut list);
            assert(list@ =~= expressions_text(x.elements@, x.elements@.len()));
            push_trimmed(out, &list);
            out.push(']');
            assert(out@ =~= old(out)@ + expression_text(*e));
        },
        Expression::Hash(x) => {
            out.push('{');
            let mut list = String::new();
            write_pairs(&x.pairs, &mut list);
            assert(list@ =~= pairs_text(x.pairs@, x.pairs@.len()));
            push_trimmed(out, &list);
            out.push('}');
            assert(out@ =~= old(out)@ + expression_text(*e));
        },
        Expression::Index(x) => {
            out.push('(');
            write_expression(&x.left, out);
            out.push('[');
            write_expression(&x.index, out);
            out.push(']');
            out.push(')');
            assert(out@ =~= old(out)@ + expression_text(*e));
        },
    }
}

impl Expression {
    /// The text of the token that the expression started from.
    pub fn token_literal(&self) -> (text: String)
        ensures
            text@ == expression_token_literal(*self),
    {
        match self {
            Expression::Ident(x) => x.token.literal.clone(),
            Expression::Number(x) => x.token.literal.clone(),
            Expression::Str(x) => x.token.literal.clone(),
            Expression::Unary(x) => x.token.literal.clone(),
            Expression::Binary(x) => x.token.literal.clone(),
            Expression::Bool(x) => x.token.literal.clone(),
            Expression::If(x) => x.token.literal.clone(),
            Expression::Function(x) => x.token.literal.clone(),
            Expression::Call(x) => x.token.literal.clone(),
            Expression::Array(x) => x.token.literal.clone(),
            Expression::Hash(x) => x.token.literal.clone(),
            Expression::Index(x) => x.token.literal.clone(),
            Expression::Nil => "nil".to_owned(),
        }
    }

    /// The printed form of the expression.
    pub fn to_string(&self) -> (text: String)
        ensures
            text@ == expression_text(*self),
    {
        let mut text = String::new();
        write_expression(self, &mut text);
        assert(text@ =~= expression_text(*self));
        text
    }

    /// The source line of the token that the expression started from; zero
    /// for an expression that stands for a failed parse.
    pub fn line(&self) -> (line: usize)
        ensures
            line == expression_line(*self),
    {
        match self {
            Expression::Ident(x) => x.token.line,
            Expression::Number(x) => x.token.line,
            Expression::Str(x) => x.token.line,
            Expression::Unary(x) => x.token.line,
            Expression::Binary(x) => x.token.line,
            Expression::Bool(x) => x.token.line,
            Expression::If(x) => x.token.line,
            Expression::Function(x) => x.token.line,
            Expression::Call(x) => x.token.line,
            Expression::Array(x) => x.token.line,
            Expression::Hash(x) => x.token.line,
            Expression::Index(x) => x.token.line,
            Expression::Nil => 0,
        }
    }
}

/// The source line of the token that an expression started from.
pub open spec fn expression_line(e: Expression) -> usize {
    match e {
        Expression::Ident(x) => x.token.line,
        Expression::Number(x) => x.token.line,
        Expression::Str(x) => x.token.line,
        Expression::Unary(x) => x.token.line,
        Expression::Binary(x) => x.token.line,
        Expression::Bool(x) => x.token.line,
        Expression::If(x) => x.token.line,
        Expression::Function(x) => x.token.line,
        Expression::Call(x) => x.token.line,
        Expression::Array(x) => x.token.line,
        Expression::Hash(x) => x.token.line,
        Expression::Index(x) => x.token.line,
        Expression::Nil => 0,
    }
}

impl Statement {
    /// The text of the token that the statement started from.
    pub fn token_literal(&self) -> (text: String)
        ensures
            text@ == statement_token_literal(*self),
    {
        match self {
            Statement::Let(x) => x.token.literal.clone(),
            Statement::Return(x) => x.token.literal.clone(),
            Statement::Expr(x) => x.token.literal.clone(),
            Statement::Nil => "nil".to_owned(),
        }
    }

    /// The printed form of the statement.
    pub fn to_string(&self) -> (text: String)
        ensures
            text@ == statement_text(*self),
    {
        let mut text = String::new();
        write_statement(self, &mut text);
        assert(text@ =~= statement_text(*self));
        text
    }
}

impl BlockStatement {
    /// The printed form of the block: its statements one after the other.
    pub fn to_string(&self) -> (text: String)
        ensures
            text@ == statements_text(self.statements@, self.statements@.len()),
    {
        let mut text = String::new();
        write_statements(&self.statements, &mut text);
        assert(text@ =~= statements_text(self.statements@, self.statements@.len()));
        text
    }
}

impl Identifier {
    /// The printed form of an identifier is its token's text.
    pub fn to_string(&self) -> (text: String)
        ensures
            text@ == self.token.literal@,
    {
        self.token.literal.clone()
    }
}

impl Default for Program {
    fn default() -> (program: Program)
        ensures
            program.statements@.len() == 0,
    {
        Program { statements: Vec::new() }
    }
}

impl Program {
    /// The text of the token that the first statement started from, or
    /// nothing for a program without statements.
    pub fn token_literal(&self) -> (text: String)
        ensures
            text@ == if self.statements@.len() == 0 {
                Seq::<char>::empty()
            } else {
                statement_token_literal(self.statements@[0])
            },
    {
        if self.statements.len() == 0 {
            String::new()
        } else {
            self.statements[0].token_literal()
        }
    }

    /// The printed form of the program: its statements one after the other.
    pub fn to_string(&self) -> (text: String)
        ensures
            text@ == statements_text(self.statements@, self.statements@.len()),
    {
        let mut text = String::new();
        write_statements(&self.statements, &mut text);
        assert(text@ =~= statements_text(self.statements@, self.statements@.len()));
        text
    }
}

/// What the contracts say of a token: its kind, the characters of its text
/// and its line.
pub type TokenView = (crate::scanner::token::TokenType, Seq<char>, usize);

/// An expression as the contracts see it: the same tree, with the
/// characters of its texts in the place of the texts.
pub enum Node {
    Ident { token: TokenView, value: Seq<char> },
    Number { token: TokenView, value: u64 },
    Str { token: TokenView, value: Seq<char> },
    Unary { token: TokenView, operator: Seq<char>, right: Box<Node> },
    Binary { token: TokenView, operator: Seq<char>, left: Box<Node>, right: Box<Node> },
    Bool { token: TokenView, value: bool },
    If {
        token: TokenView,
        condition: Box<Node>,
        then_stmt: Seq<StatementNode>,
        else_stmt: Option<Seq<StatementNode>>,
    },
    Function {
        token: TokenView,
        params: Seq<(TokenView, Seq<char>)>,
        body: Seq<StatementNode>,
        name: Seq<char>,
    },
    Call { token: TokenView, func: Box<Node>, args: Seq<Node> },
    Array { token: TokenView, elements: Seq<Node> },
    Hash { token: TokenView, pairs: Seq<(Node, Node)> },
    Index { token: TokenView, left: Box<Node>, index: Box<Node> },
    Nil,
}

/// A statement as the contracts see it.
pub enum StatementNode {
    Let { token: TokenView, name: (TokenView, Seq<char>), value: Node },
    Return { token: TokenView, value: Node },
    Expr { token: TokenView, value: Node },
    Nil,
}

/// How the contracts see an identifier: its token, and its name.
pub open spec fn identifier_view(x: Identifier) -> (TokenView, Seq<char>) {
    (x.token@, x.value@)
}

/// How the contracts see the first `n` identifiers of a list.
pub open spec fn identifiers_view(list: Seq<Identifier>, n: nat) -> Seq<(TokenView, Seq<char>)>
    decreases n,
{
    if n == 0 || n > list.len() {
        Seq::empty()
    } else {
        identifiers_view(list, (n - 1) as nat).push(identifier_view(list[n - 1]))
    }
}

/// How the contracts see an expression.
pub open spec fn expression_view(e: Expression) -> Node
    decreases e, 0nat,
{
    match e {
        Expression::Ident(x) => Node::Ident { token: x.token@, value: x.value@ },
        Expression::Number(x) => Node::Number { token: x.token@, value: x.value },
        Expression::Str(x) => Node::Str { token: x.token@, value: x.value@ },
        Expression::Bool(x) => Node::Bool { token: x.token@, value: x.value },
        Expression::Nil => Node::Nil,
        Expression::Unary(x) => Node::Unary {
            token: x.token@,
            operator: x.operator@,
            right: Box::new(expression_view(*x.right)),
        },
        Expression::Binary(x) => Node::Binary {
            token: x.token@,
            operator: x.operator@,
            left: Box::new(expression_view(*x.left)),
            right: Box::new(expression_view(*x.right)),
        },
        Expression::If(x) => Node::If {
            token: x.token@,
            condition: Box::new(expression_view(*x.condition)),
            then_stmt: statements_view(x.then_stmt.statements@, x.then_stmt.statements@.len()),
            else_stmt: match x.else_stmt {
                None => None,
                Some(block) => Some(statements_view(block.statements@, block.statements@.len())),
            },
        },
        Expression::Function(x) => Node::Function {
            token: x.token@,
            params: identifiers_view(x.params@, x.params@.len()),
            body: statements_view(x.body.statements@, x.body.statements@.len()),
            name: x.name@,
        },
        Expression::Call(x) => Node::Call {
            token: x.token@,
            func: Box::new(expression_view(*x.func)),
            args: expressions_view(x.args@, x.args@.len()),
        },
        Expression::Array(x) => Node::Array {
            token: x.token@,
            elements: expressions_view(x.elements@, x.elements@.len()),
        },
        Expression::Hash(x) => Node::Hash {
            token: x.token@,
            pairs: pairs_view(x.pairs@, x.pairs@.len()),
        },
        Expression::Index(x) => Node::Index {
            token: x.token@,
            left: Box::new(expression_view(*x.left)),
            index: Box::new(expression_view(*x.index)),
        },
    }
}

/// How the contracts see the first `n` expressions of a list.
pub open spec fn expressions_view(list: Seq<Expression>, n: nat) -> Seq<Node>
    decreases list, n,
{
    if n == 0 || n > list.len() {
        Seq::empty()
    } else {
        expressions_view(list, (n - 1) as nat).push(expression_view(list[n - 1]))
    }
}

/// How the contracts see the first `n` pairs of a list.
pub open spec fn pairs_view(list: Seq<(Expression, Expression)>, n: nat) -> Seq<(Node, Node)>
    decreases list, n,
{
    if n == 0 || n > list.len() {
        Seq::empty()
    } else {
        pairs_view(list, (n - 1) as nat).push(
            (expression_view(list[n - 1].0), expression_view(list[n - 1].1)),
        )
    }
}

/// How the contracts see a statement.
pub open spec fn statement_view(s: Statement) -> StatementNode
    decreases s, 0nat,
{
    match s {
        Statement::Let(x) => StatementNode::Let {
            token: x.token@,
            name: identifier_view(x.name),
            value: expression_view(x.value),
        },
        Statement::Return(x) => StatementNode::Return {
            token: x.token@,
            value: expression_view(x.value),
        },
        Statement::Expr(x) => StatementNode::Expr {
            token: x.token@,
            value: expression_view(x.value),
        },
        Statement::Nil => StatementNode::Nil,
    }
}

/// How the contracts see the first `n` statements of a list.
pub open spec fn statements_view(list: Seq<Statement>, n: nat) -> Seq<StatementNode>
    decreases list, n,
{
    if n == 0 || n > list.len() {
        Seq::empty()
    } else {
        statements_view(list, (n - 1) as nat).push(statement_view(list[n - 1]))
    }
}

/// The view of the first elements of a list stays as it is where the list
/// gets one more element.
pub proof fn lemma_statements_view_prefix(list: Seq<Statement>, s: Statement, n: nat)
    requires
        n <= list.len(),
    ensures
        statements_view(list.push(s), n) == statements_view(list, n),
    decreases n,
{
    if n > 0 {
        lemma_statements_view_prefix(list, s, (n - 1) as nat);
        assert(list.push(s)[n - 1] == list[n - 1]);
    }
}

/// The view of a list that got one more element is the view of the list
/// with the view of the element at its end.
pub proof fn lemma_statements_view_push(list: Seq<Statement>, s: Statement)
    ensures
        statements_view(list.push(s), list.len() + 1) == statements_view(list, list.len()).push(
            statement_view(s),
        ),
{
    lemma_statements_view_prefix(list, s, list.len());
    assert(list.push(s)[list.len() as int] == s);
}

/// The view of the first elements of a list stays as it is where the list
/// gets one more element.
pub proof fn lemma_expressions_view_prefix(list: Seq<Expression>, e: Expression, n: nat)
    requires
        n <= list.len(),
    ensures
        expressions_view(list.push(e), n) == expressions_view(list, n),
    decreases n,
{
    if n > 0 {
        lemma_expressions_view_prefix(list, e, (n - 1) as nat);
        assert(list.push(e)[n - 1] == list[n - 1]);
    }
}

/// The view of a list that got one more element is the view of the list
/// with the view of the element at its end.
pub proof fn lemma_expressions_view_push(list: Seq<Expression>, e: Expression)
    ensures
        expressions_view(list.push(e), list.len() + 1) == expressions_view(list, list.len()).push(
            expression_view(e),
        ),
{
    lemma_expressions_view_prefix(list, e, list.len());
    assert(list.push(e)[list.len() as int] == e);
}

/// The view of the first elements of a list stays as it is where the list
/// gets one more element.
pub proof fn lemma_pairs_view_prefix(list: Seq<(Expression, Expression)>, pair: (Expression, Expression), n: nat)
    requires
        n <= list.len(),
    ensures
        pairs_view(list.push(pair), n) == pairs_view(list, n),
    decreases n,
{
    if n > 0 {
        lemma_pairs_view_prefix(list, pair, (n - 1) as nat);
        assert(list.push(pair)[n - 1] == list[n - 1]);
    }
}

/// The view of a list that got one more element is the view of the list
/// with the view of the element at its end.
pub proof fn lemma_pairs_view_push(list: Seq<(Expression, Expression)>, pair: (Expression, Expression))
    ensures
        pairs_view(list.push(pair), list.len() + 1) == pairs_view(list, list.len()).push(
            (expression_view(pair.0), expression_view(pair.1)),
        ),
{
    lemma_pairs_view_prefix(list, pair, list.len());
    assert(list.push(pair)[list.len() as int] == pair);
}

/// The view of the first elements of a list stays as it is where the list
/// gets one more element.
pub proof fn lemma_identifiers_view_prefix(list: Seq<Identifier>, x: Identifier, n: nat)
    requires
        n <= list.len(),
    ensures
        identifiers_view(list.push(x), n) == identifiers_view(list, n),
    decreases n,
{
    if n > 0 {
        lemma_identifiers_view_prefix(list, x, (n - 1) as nat);
        assert(list.push(x)[n - 1] == list[n - 1]);
    }
}

/// The view of a list that got one more element is the view of the list
/// with the view of the element at its end.
pub proof fn lemma_identifiers_view_push(list: Seq<Identifier>, x: Identifier)
    ensures
        identifiers_view(list.push(x), list.len() + 1) == identifiers_view(list, list.len()).push(
            identifier_view(x),
        ),
{
    lemma_identifiers_view_prefix(list, x, list.len());
    assert(list.push(x)[list.len() as int] == x);
}

} // verus!
