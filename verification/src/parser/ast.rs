//! The syntax tree: statements, expressions and identifiers.

use crate::lexer::token::{Token, TokenView};
use vstd::prelude::*;
use vstd::utf8::*;

verus! {

/// A program: its statements in source order.
pub type Program = Vec<Statement>;

/// A statement. A let statement holds its identifier and its expression;
/// return and expression statements hold nothing.
#[derive(Debug)]
pub enum Statement {
    LetStatement(Identifier, Expression),
    ReturnStatement,
    ExpressionStatement,
}

/// A node of the syntax tree. It holds nothing.
#[derive(Debug)]
pub struct Node {}

/// An expression. The one kind there is names an identifier.
#[derive(Debug)]
pub enum Expression {
    Identifier(Identifier),
}

/// A name in the source: the token it came from and its text.
#[derive(Debug)]
pub struct Identifier {
    pub token: Token,
    pub value: String,
}

/// What an `Identifier` stands for in contracts.
pub struct IdentifierView {
    pub token: TokenView,
    pub value: Seq<char>,
}

/// What an `Expression` stands for in contracts.
pub enum ExpressionView {
    Identifier(IdentifierView),
}

/// What a `Statement` stands for in contracts.
pub enum StatementView {
    Let(IdentifierView, ExpressionView),
    Return,
    Expression,
}

impl View for Identifier {
    type V = IdentifierView;

    open spec fn view(&self) -> IdentifierView {
        IdentifierView { token: self.token@, value: self.value@ }
    }
}

impl View for Expression {
    type V = ExpressionView;

    open spec fn view(&self) -> ExpressionView {
        match *self {
            Expression::Identifier(identifier) => ExpressionView::Identifier(identifier@),
        }
    }
}

impl View for Statement {
    type V = StatementView;

    open spec fn view(&self) -> StatementView {
        match *self {
            Statement::LetStatement(identifier, expression) => StatementView::Let(
                identifier@,
                expression@,
            ),
            Statement::ReturnStatement => StatementView::Return,
            Statement::ExpressionStatement => StatementView::Expression,
        }
    }
}

/// What a sequence of statements stands for in contracts: the view of each.
pub open spec fn statements_view(statements: Seq<Statement>) -> Seq<StatementView> {
    Seq::new(statements.len(), |i: int| statements[i]@)
}

impl Clone for Identifier {
    fn clone(&self) -> (res: Identifier)
        ensures
            res@ == self@,
    {
        Identifier { token: self.token.clone(), value: self.value.clone() }
    }
}

impl Identifier {
    /// The identifier that `token` names: its text is the token's literal.
    /// The literal must be valid UTF-8.
    pub fn new(token: Token) -> (res: Identifier)
        requires
            valid_utf8(token.literal@),
        ensures
            res.token == token,
            res.value@ == decode_utf8(token.literal@),
    {
        let value = token.literal.to_string();

        Identifier { token, value }
    }
}

} // verus!
