//! What the parser makes of a stream of tokens.

use crate::lexer::stream::is_stream;
use crate::lexer::token::{NameView, TokenView};
use crate::parser::ast::{ExpressionView, IdentifierView, StatementView};
use vstd::prelude::*;
use vstd::utf8::*;

verus! {

/// What a `ParseError` stands for in contracts.
pub enum ParseErrorView {
    ExpectedIdent(NameView),
    ExpectedAssign(NameView),
}

/// The kind of the token at index `i`; past the end of the stream, the end
/// of input.
pub open spec fn kind_at(tokens: Seq<TokenView>, i: int) -> NameView {
    if 0 <= i < tokens.len() {
        tokens[i].name
    } else {
        NameView::Eof
    }
}

/// The stream after the parser has moved one token on: the end of input is
/// never left behind.
pub open spec fn advance(tokens: Seq<TokenView>) -> Seq<TokenView> {
    if tokens.len() > 1 {
        tokens.skip(1)
    } else {
        tokens
    }
}

/// The identifier that a token names.
pub open spec fn identifier_of(token: TokenView) -> IdentifierView {
    IdentifierView { token, value: decode_utf8(token.literal) }
}

/// The index of the first semicolon or end of input from index `i` on; the
/// length of the stream if there is none.
pub open spec fn statement_end(tokens: Seq<TokenView>, i: int) -> int
    decreases tokens.len() - i,
{
    if 0 <= i < tokens.len() && !(tokens[i].name is Semicolon) && !(tokens[i].name is Eof) {
        statement_end(tokens, i + 1)
    } else {
        i
    }
}

/// The let statement at the head of the stream. The token after the first
/// must be an identifier and the one after that the assignment sign, else
/// the statement is an error that names what was found in their place. What
/// follows the sign is not read: the statement's expression is its own
/// identifier.
pub open spec fn let_statement(tokens: Seq<TokenView>) -> Result<StatementView, ParseErrorView> {
    if !(kind_at(tokens, 1) is Ident) {
        Err(ParseErrorView::ExpectedIdent(kind_at(tokens, 1)))
    } else if !(kind_at(tokens, 2) is Assign) {
        Err(ParseErrorView::ExpectedAssign(kind_at(tokens, 2)))
    } else {
        Ok(
            StatementView::Let(
                identifier_of(tokens[1]),
                ExpressionView::Identifier(identifier_of(tokens[1])),
            ),
        )
    }
}

/// The index of the token on which the parser stands after the let
/// statement at the head of the stream: the semicolon that ends it, or the
/// end of input if none does; after an error, the last token that was as
/// expected.
pub open spec fn let_statement_stop(tokens: Seq<TokenView>) -> int {
    if !(kind_at(tokens, 1) is Ident) {
        0
    } else if !(kind_at(tokens, 2) is Assign) {
        1
    } else {
        statement_end(tokens, 2)
    }
}

/// The statement at the head of the stream: a let statement after `let`, a
/// return statement after `return`, else an expression statement.
pub open spec fn statement(tokens: Seq<TokenView>) -> Result<StatementView, ParseErrorView> {
    match kind_at(tokens, 0) {
        NameView::Let => let_statement(tokens),
        NameView::Return => Ok(StatementView::Return),
        _ => Ok(StatementView::Expression),
    }
}

/// The index of the token on which the parser stands after the statement at
/// the head of the stream. Return and expression statements take up the one
/// token they start at.
pub open spec fn statement_stop(tokens: Seq<TokenView>) -> int {
    match kind_at(tokens, 0) {
        NameView::Let => let_statement_stop(tokens),
        _ => 0,
    }
}

/// The stream after the statement at its head and one token more.
pub open spec fn after_statement(tokens: Seq<TokenView>) -> Seq<TokenView> {
    advance(tokens.skip(statement_stop(tokens)))
}

/// `statements` in front of what the rest of the stream gives.
pub open spec fn prepend(
    statements: Seq<StatementView>,
    rest: Result<Seq<StatementView>, ParseErrorView>,
) -> Result<Seq<StatementView>, ParseErrorView> {
    match rest {
        Ok(more) => Ok(statements + more),
        Err(error) => Err(error),
    }
}

/// The statements of the stream up to the end of input, in order, or the
/// first error among them. After each statement the parser moves one token
/// on.
pub open spec fn program(tokens: Seq<TokenView>) -> Result<Seq<StatementView>, ParseErrorView>
    decreases tokens.len(),
    when is_stream(tokens)
    via program_terminates
{
    if tokens[0].name is Eof {
        Ok(Seq::empty())
    } else {
        match statement(tokens) {
            Ok(first) => prepend(seq![first], program(after_statement(tokens))),
            Err(error) => Err(error),
        }
    }
}

#[via_fn]
proof fn program_terminates(tokens: Seq<TokenView>) {
    if !(tokens[0].name is Eof) {
        lemma_after_statement(tokens);
    }
}

/// The stream on which the parser stands after the program: the end of
/// input alone, or what the first error left.
pub open spec fn after_program(tokens: Seq<TokenView>) -> Seq<TokenView>
    decreases tokens.len(),
    when is_stream(tokens)
    via after_program_terminates
{
    if tokens[0].name is Eof {
        tokens
    } else if statement(tokens) is Err {
        tokens.skip(statement_stop(tokens))
    } else {
        after_program(after_statement(tokens))
    }
}

#[via_fn]
proof fn after_program_terminates(tokens: Seq<TokenView>) {
    if !(tokens[0].name is Eof) {
        lemma_after_statement(tokens);
    }
}

/// A program without an error leaves the parser on the end of input, with
/// nothing after it; after an error too, what is left is a stream.
pub proof fn lemma_after_program(tokens: Seq<TokenView>)
    requires
        is_stream(tokens),
    ensures
        is_stream(after_program(tokens)),
        program(tokens) is Ok ==> after_program(tokens) == seq![tokens.last()],
    decreases tokens.len(),
{
    if tokens[0].name is Eof {
        assert(tokens =~= seq![tokens.last()]);
    } else {
        lemma_after_statement(tokens);
        if statement(tokens) is Ok {
            lemma_after_program(after_statement(tokens));
        }
    }
}

/// The end of a statement lies at or after where the search began; nothing
/// before it is a semicolon or the end of input; and in a stream it is the
/// index of a token that is one of the two.
pub proof fn lemma_statement_end(tokens: Seq<TokenView>, i: int)
    requires
        0 <= i,
    ensures
        i <= statement_end(tokens, i),
        forall|j: int|
            i <= j < statement_end(tokens, i) ==> !(kind_at(tokens, j) is Semicolon) && !(kind_at(
                tokens,
                j,
            ) is Eof),
        is_stream(tokens) && i < tokens.len() ==> statement_end(tokens, i) < tokens.len() && (
        kind_at(tokens, statement_end(tokens, i)) is Semicolon || kind_at(
            tokens,
            statement_end(tokens, i),
        ) is Eof),
    decreases tokens.len() - i,
{
    if i < tokens.len() && !(tokens[i].name is Semicolon) && !(tokens[i].name is Eof) {
        lemma_statement_end(tokens, i + 1);
    }
}

/// What is left of a stream from one of its tokens on is a stream.
pub proof fn lemma_skip_is_stream(tokens: Seq<TokenView>, i: int)
    requires
        is_stream(tokens),
        0 <= i < tokens.len(),
    ensures
        is_stream(tokens.skip(i)),
{
    let rest = tokens.skip(i);
    assert forall|j: int| 0 <= j < rest.len() implies (#[trigger] rest[j].name is Eof <==> j
        == rest.len() - 1) && rest[j].well_formed() by {
        assert(rest[j] == tokens[i + j]);
    }
}

/// In a stream that does not begin with the end of input, the statement at
/// the head stops on a token of the stream, and what follows it is a
/// shorter stream.
pub proof fn lemma_after_statement(tokens: Seq<TokenView>)
    requires
        is_stream(tokens),
        !(tokens[0].name is Eof),
    ensures
        0 <= statement_stop(tokens) < tokens.len(),
        is_stream(tokens.skip(statement_stop(tokens))),
        is_stream(after_statement(tokens)),
        after_statement(tokens).len() < tokens.len(),
{
    let stop = statement_stop(tokens);
    if tokens.len() > 2 {
        lemma_statement_end(tokens, 2);
    }
    lemma_skip_is_stream(tokens, stop);
    if tokens.skip(stop).len() > 1 {
        lemma_skip_is_stream(tokens.skip(stop), 1);
    }
}

} // verus!
