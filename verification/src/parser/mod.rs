//! The parser: draws tokens from a lexer, one token ahead, and builds the
//! statements of a program.

pub mod ast;
pub mod grammar;

use crate::lexer::scan;
use crate::lexer::scan::{is_word_byte, lemma_ascii_text};
use crate::lexer::stream::{
    is_stream, lemma_end_of_input_stays, lemma_next_end, lemma_next_token_well_formed,
    lemma_stream_ends_at_end_of_input, tokens_from,
};
use crate::lexer::token::{Name, Token, TokenView};
use crate::lexer::Lexer;
use crate::parser::ast::{
    statements_view, Expression, Identifier, Program, Statement, StatementView,
};
use crate::parser::grammar::{
    advance, after_program, kind_at, lemma_after_program, lemma_after_statement, let_statement,
    let_statement_stop, prepend, program, statement, statement_end, statement_stop,
    ParseErrorView,
};
use vstd::prelude::*;

verus! {

/// Why a let statement could not be parsed: what was expected after `let`
/// or after its identifier, with the kind of the token found instead.
#[derive(Debug, PartialEq)]
pub enum ParseError {
    ExpectedIdent(Name),
    ExpectedAssign(Name),
}

impl View for ParseError {
    type V = ParseErrorView;

    open spec fn view(&self) -> ParseErrorView {
        match *self {
            ParseError::ExpectedIdent(found) => ParseErrorView::ExpectedIdent(found@),
            ParseError::ExpectedAssign(found) => ParseErrorView::ExpectedAssign(found@),
        }
    }
}

/// A lexer with the token under way and the one after it.
pub struct Parser {
    lexer: Lexer,
    token: Token,
    peek_token: Token,
}

impl Parser {
    /// The tokens that the parser has yet to pass: the current one first,
    /// the end of input last.
    pub closed spec fn stream(&self) -> Seq<TokenView> {
        if self.token@.name is Eof {
            seq![self.token@]
        } else if self.peek_token@.name is Eof {
            seq![self.token@, self.peek_token@]
        } else {
            seq![self.token@, self.peek_token@] + tokens_from(
                self.lexer.bytes(),
                self.lexer.cursor(),
            )
        }
    }

    /// The lexer is well formed, both tokens came from it, and nothing
    /// follows the end of input.
    pub closed spec fn wf(&self) -> bool {
        &&& self.lexer.wf()
        &&& self.token@.well_formed()
        &&& self.peek_token@.well_formed()
        &&& self.token@.name is Eof ==> self.peek_token@.name is Eof
        &&& self.peek_token@.name is Eof ==> scan::next_token(
            self.lexer.bytes(),
            self.lexer.cursor(),
        ).name is Eof
    }

    /// The tokens that a well-formed parser has yet to pass are a stream.
    pub proof fn lemma_stream_is_stream(&self)
        requires
            self.wf(),
        ensures
            is_stream(self.stream()),
    {
        self.lemma_stream();
    }

    /// The stream begins with the current token and goes on with the token
    /// ahead.
    proof fn lemma_stream(&self)
        requires
            self.wf(),
        ensures
            is_stream(self.stream()),
            self.stream()[0] == self.token@,
            self.stream().len() == 1 <==> self.token@.name is Eof,
            self.stream().len() > 1 ==> self.stream()[1] == self.peek_token@,
            kind_at(self.stream(), 1) == self.peek_token@.name,
    {
        self.lexer.lemma_cursor_in_bounds();
        lemma_stream_ends_at_end_of_input(self.lexer.bytes(), self.lexer.cursor());
    }

    /// A parser on the tokens that `lexer` has yet to hand out.
    pub fn new(lexer: Lexer) -> (parser: Parser)
        requires
            lexer.wf(),
        ensures
            parser.wf(),
            parser.stream() == tokens_from(lexer.bytes(), lexer.cursor()),
    {
        let mut lexer = lexer;
        let ghost input = lexer.bytes();
        let ghost start = lexer.cursor();
        proof {
            lexer.lemma_cursor_in_bounds();
            scan_bounds(input, start);
        }
        let token = lexer.next_token();
        let ghost middle = lexer.cursor();
        proof {
            scan_bounds(input, middle);
        }
        let peek_token = lexer.next_token();
        proof {
            scan_bounds(input, lexer.cursor());
            if token@.name is Eof {
                lemma_end_of_input_stays(input, start);
            }
            if peek_token@.name is Eof {
                lemma_end_of_input_stays(input, middle);
            }
        }

        let parser = Parser { lexer, token, peek_token };
        assert(parser.stream() =~= tokens_from(input, start));
        parser
    }

    /// Moves one token on: the token ahead becomes the current one, and the
    /// lexer hands out the next.
    pub fn next_token(&mut self)
        requires
            old(self).wf(),
        ensures
            final(self).wf(),
            final(self).stream() == advance(old(self).stream()),
    {
        let ghost input = self.lexer.bytes();
        let ghost start = self.lexer.cursor();
        proof {
            self.lexer.lemma_cursor_in_bounds();
            scan_bounds(input, start);
        }
        self.token = self.peek_token.clone();
        self.peek_token = self.lexer.next_token();
        proof {
            scan_bounds(input, self.lexer.cursor());
            if self.peek_token@.name is Eof {
                lemma_end_of_input_stays(input, start);
            }
            assert(self.stream() =~= advance(old(self).stream()));
        }
    }

    /// Parses statements until the current token is the end of input, and
    /// returns them in order. After each statement the parser moves one
    /// token on. The first error ends the run.
    pub fn parse_program(&mut self) -> (res: Result<Program, ParseError>)
        requires
            old(self).wf(),
        ensures
            final(self).wf(),
            final(self).stream() == after_program(old(self).stream()),
            match program(old(self).stream()) {
                Ok(statements) => res matches Ok(parsed) && statements_view(parsed@) == statements,
                Err(error) => res matches Err(found) && found@ == error,
            },
            res is Ok ==> final(self).stream() == seq![old(self).stream().last()],
    {
        let mut parsed: Program = vec![];
        let ghost tokens = self.stream();
        proof {
            self.lemma_stream();
            assert(statements_view(parsed@) =~= Seq::empty());
            assert(program(tokens) == prepend(Seq::empty(), program(tokens)));
        }

        while !self.token.is_eof()
            invariant
                self.wf(),
                tokens == old(self).stream(),
                is_stream(tokens),
                is_stream(self.stream()),
                program(tokens) == prepend(statements_view(parsed@), program(self.stream())),
                after_program(tokens) == after_program(self.stream()),
            decreases self.stream().len(),
        {
            let ghost before = self.stream();
            let ghost done = statements_view(parsed@);
            proof {
                self.lemma_stream();
                lemma_after_statement(before);
            }
            let statement = match self.parse_statement() {
                Ok(statement) => statement,
                Err(error) => {
                    return Err(error);
                },
            };

            parsed.push(statement);

            self.next_token();
            proof {
                self.lemma_stream();
                assert(statements_view(parsed@) =~= done + seq![statement@]);
                match program(self.stream()) {
                    Ok(more) => {
                        assert(done + (seq![statement@] + more) =~= (done + seq![statement@])
                            + more);
                    },
                    Err(_) => {},
                }
            }
        }

        proof {
            lemma_after_program(tokens);
        }
        Ok(parsed)
    }

    /// Parses the statement that the current token begins: a let statement
    /// after `let`, a return statement after `return`, else an expression
    /// statement.
    pub fn parse_statement(&mut self) -> (res: Result<Statement, ParseError>)
        requires
            old(self).wf(),
        ensures
            final(self).wf(),
            final(self).stream() == old(self).stream().skip(statement_stop(old(self).stream())),
            match statement(old(self).stream()) {
                Ok(parsed) => res matches Ok(found) && found@ == parsed,
                Err(error) => res matches Err(found) && found@ == error,
            },
    {
        proof {
            assert(self.stream().skip(0) =~= self.stream());
        }
        match self.token.name {
            Name::LET => self.parse_let_statement(),
            Name::RETURN => Ok(self.parse_return_statement()),
            _ => Ok(self.parse_expression_statement()),
        }
    }

    /// Parses a let statement, with the parser on its first token. The
    /// token ahead must be an identifier and the one after it the
    /// assignment sign. What follows is passed over up to the next
    /// semicolon, or to the end of input if there is none, and the
    /// statement's expression is its own identifier.
    pub fn parse_let_statement(&mut self) -> (res: Result<Statement, ParseError>)
        requires
            old(self).wf(),
        ensures
            final(self).wf(),
            final(self).stream() == old(self).stream().skip(
                let_statement_stop(old(self).stream()),
            ),
            match let_statement(old(self).stream()) {
                Ok(parsed) => res matches Ok(found) && found@ == parsed,
                Err(error) => res matches Err(found) && found@ == error,
            },
    {
        let ghost tokens = self.stream();
        proof {
            self.lemma_stream();
            assert(tokens.skip(0) =~= tokens);
        }
        match self.peek_token.name {
            Name::IDENT(_) => (),
            _ => {
                return Err(ParseError::ExpectedIdent(self.peek_token.name.clone()));
            },
        }

        self.next_token();

        proof {
            self.lemma_stream();
            assert(self.token@ == tokens[1]);
            assert(self.token@.well_formed());
            assert forall|i: int| 0 <= i < self.token@.literal.len() implies
                #[trigger] self.token@.literal[i] < 128 by {
                assert(is_word_byte(self.token@.literal[i]));
            }
            lemma_ascii_text(self.token@.literal);
        }
        let identifier = Identifier::new(self.token.clone());

        match self.peek_token.name {
            Name::ASSIGN => (),
            _ => {
                return Err(ParseError::ExpectedAssign(self.peek_token.name.clone()));
            },
        }

        self.next_token();

        let ghost mut at: int = 2;
        proof {
            assert(tokens.skip(1).skip(1) =~= tokens.skip(2));
            self.lemma_stream();
        }
        while !self.token.is_semicolon() && !self.token.is_eof()
            invariant
                self.wf(),
                is_stream(tokens),
                2 <= at < tokens.len(),
                self.stream() == tokens.skip(at),
                statement_end(tokens, at) == statement_end(tokens, 2),
            decreases tokens.len() - at,
        {
            proof {
                self.lemma_stream();
                assert(self.token@ == tokens[at]);
            }
            self.next_token();
            proof {
                assert(tokens.skip(at).skip(1) =~= tokens.skip(at + 1));
                at = at + 1;
            }
        }

        proof {
            self.lemma_stream();
            assert(self.token@ == tokens[at]);
        }
        let expression = Expression::Identifier(identifier.clone());

        Ok(Statement::LetStatement(identifier, expression))
    }

    /// A return statement. What is returned is not read.
    pub fn parse_return_statement(&mut self) -> (res: Statement)
        ensures
            *final(self) == *old(self),
            res@ == StatementView::Return,
    {
        Statement::ReturnStatement
    }

    /// An expression statement. The expression is not read.
    pub fn parse_expression_statement(&mut self) -> (res: Statement)
        ensures
            *final(self) == *old(self),
            res@ == StatementView::Expression,
    {
        Statement::ExpressionStatement
    }
}

/// What the parser needs to know of the stream from `pos`, in one place.
proof fn scan_bounds(input: Seq<u8>, pos: int)
    requires
        0 <= pos <= input.len(),
    ensures
        is_stream(tokens_from(input, pos)),
        tokens_from(input, pos)[0] == scan::next_token(input, pos),
        0 <= scan::next_end(input, pos) <= input.len(),
        scan::next_token(input, pos).well_formed(),
        !(scan::next_token(input, pos).name is Eof) ==> tokens_from(input, pos) == seq![
            scan::next_token(input, pos),
        ] + tokens_from(input, scan::next_end(input, pos)),
{
    lemma_stream_ends_at_end_of_input(input, pos);
    lemma_next_token_well_formed(input, pos);
    lemma_next_end(input, pos);
}

} // verus!
