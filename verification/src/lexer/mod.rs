//! The lexer: reads the bytes of a source text and hands out one token at a
//! time.

pub mod laws;
pub mod number;
pub mod scan;
pub mod stream;
pub mod token;
pub mod whitespace;

use crate::lexer::number::is_digit_byte;
use crate::lexer::scan::{
    byte_at, digits, is_letter_byte, is_word_byte, lemma_ascii_text, lemma_run_end, next_end,
    next_start, run_end, whitespace, word_bytes,
};
use crate::lexer::stream::{
    lemma_end_of_input_stays, lemma_next_end, lemma_next_token_well_formed, tokens_from,
};
use crate::lexer::token::{tokens_view, Literal, Name, Token};
use vstd::prelude::*;
use vstd::string::*;
use vstd::utf8::*;

verus! {

/// A cursor over the bytes of a source text. A zero byte in the text
/// stands for the end of input, as the end of the text does: the lexer does
/// not pass it.
#[derive(Debug)]
pub struct Lexer {
    input: String,
    position: usize,
    read_position: usize,
    ch: u8,
}

impl Lexer {
    /// The bytes of the source text.
    pub closed spec fn bytes(&self) -> Seq<u8> {
        encode_utf8(self.input@)
    }

    /// The position of the byte that the lexer reads next.
    pub closed spec fn cursor(&self) -> int {
        self.position as int
    }

    /// The cursor lies within the text or at its end, the position to read
    /// after it is one ahead of it, the current byte is the one under the
    /// cursor, and the text is short enough for the position one past its
    /// end to be counted.
    pub closed spec fn wf(&self) -> bool {
        &&& self.position <= self.bytes().len() < usize::MAX
        &&& self.read_position == self.position + 1
        &&& self.ch == byte_at(self.bytes(), self.position as int)
    }

    /// The cursor of a well-formed lexer lies within the text or at its end.
    pub proof fn lemma_cursor_in_bounds(&self)
        requires
            self.wf(),
        ensures
            0 <= self.cursor() <= self.bytes().len(),
    {
    }

    /// Reads the next token: skips whitespace, classifies what follows and
    /// moves the cursor to the end of the token. At the end of input the
    /// cursor stays where it is, so that every later call hands out the end
    /// of input again.
    pub fn next_token(&mut self) -> (token: Token)
        requires
            old(self).wf(),
        ensures
            final(self).wf(),
            final(self).bytes() == old(self).bytes(),
            token@ == scan::next_token(old(self).bytes(), old(self).cursor()),
            token@.well_formed(),
            final(self).cursor() == next_end(old(self).bytes(), old(self).cursor()),
    {
        proof {
            lemma_next_token_well_formed(self.bytes(), self.cursor());
        }
        self.skip_whitespace();

        let ghost input = self.bytes();
        let ghost start = self.cursor();
        let ch: u8 = self.ch;
        let literal = Literal::new(vec![ch]);
        proof {
            lemma_run_end(input, whitespace(), old(self).cursor());
            assert(literal@ =~= seq![ch]);
            assert(start < input.len() ==> literal@ =~= input.subrange(start, start + 1));
        }

        let token = if ch == 0 {
            return Token::new(Name::EOF, literal);
        } else if ch == '=' as u8 {
            if self.peek_char() == '=' as u8 {
                let next: u8 = self.read_char();
                let pair = Literal::new(vec![ch, next]);
                assert(pair@ =~= input.subrange(start, start + 2));
                Token::new(Name::EQ, pair)
            } else {
                Token::new(Name::ASSIGN, literal)
            }
        } else if ch == '+' as u8 {
            Token::new(Name::PLUS, literal)
        } else if ch == '-' as u8 {
            Token::new(Name::MINUS, literal)
        } else if ch == '!' as u8 {
            if self.peek_char() == '=' as u8 {
                let next: u8 = self.read_char();
                let pair = Literal::new(vec![ch, next]);
                assert(pair@ =~= input.subrange(start, start + 2));
                Token::new(Name::NOTEQ, pair)
            } else {
                Token::new(Name::BANG, literal)
            }
        } else if ch == '*' as u8 {
            Token::new(Name::ASTERISK, literal)
        } else if ch == '/' as u8 {
            Token::new(Name::SLASH, literal)
        } else if ch == '<' as u8 {
            Token::new(Name::LT, literal)
        } else if ch == '>' as u8 {
            Token::new(Name::GT, literal)
        } else if ch == '(' as u8 {
            Token::new(Name::LPAREN, literal)
        } else if ch == ')' as u8 {
            Token::new(Name::RPAREN, literal)
        } else if ch == '{' as u8 {
            Token::new(Name::LBRACE, literal)
        } else if ch == '}' as u8 {
            Token::new(Name::RBRACE, literal)
        } else if ch == ',' as u8 {
            Token::new(Name::COMMA, literal)
        } else if ch == ';' as u8 {
            Token::new(Name::SEMICOLON, literal)
        } else if is_letter(ch) {
            let word = self.read_chars(is_word, Ghost(word_bytes()));
            proof {
                lemma_run_end(input, word_bytes(), start);
                lemma_ascii_text(word@);
            }
            let name = Token::lookup_ident(&word);
            return Token::new(name, word);
        } else if is_digit(ch) {
            let numeral = self.read_chars(is_digit, Ghost(digits()));
            let name = Token::int_literal(&numeral);
            return Token::new(name, numeral);
        } else {
            Token::new(Name::ILLEGAL, literal)
        };

        self.read_char();

        token
    }

    /// Reads the tokens that are left, up to and including the end of
    /// input.
    pub fn tokens(&mut self) -> (tokens: Vec<Token>)
        requires
            old(self).wf(),
        ensures
            final(self).wf(),
            final(self).bytes() == old(self).bytes(),
            tokens_view(tokens@) == tokens_from(old(self).bytes(), old(self).cursor()),
            tokens_from(final(self).bytes(), final(self).cursor()) == seq![
                tokens_view(tokens@).last(),
            ],
    {
        let mut tokens: Vec<Token> = vec![];
        let ghost input = self.bytes();
        proof {
            assert(tokens_view(tokens@) + tokens_from(input, self.cursor()) =~= tokens_from(
                input,
                self.cursor(),
            ));
        }

        loop
            invariant_except_break
                self.wf(),
                self.bytes() == input,
                tokens_view(tokens@) + tokens_from(input, self.cursor()) == tokens_from(
                    input,
                    old(self).cursor(),
                ),
            ensures
                self.wf(),
                self.bytes() == input,
                tokens_view(tokens@) == tokens_from(input, old(self).cursor()),
                tokens_from(input, self.cursor()) == seq![tokens_view(tokens@).last()],
            decreases self.bytes().len() - self.cursor(),
        {
            let ghost before = self.cursor();
            let ghost read = tokens_view(tokens@);
            proof {
                lemma_next_end(input, before);
            }
            let token = self.next_token();
            let done = token.is_eof();

            tokens.push(token);
            proof {
                assert(tokens_view(tokens@) =~= read + seq![token@]);
                if done {
                    lemma_end_of_input_stays(input, before);
                    assert(read + seq![token@] =~= read + tokens_from(input, before));
                } else {
                    assert(read + (seq![token@] + tokens_from(input, self.cursor())) =~= (read
                        + seq![token@]) + tokens_from(input, self.cursor()));
                }
            }

            if done {
                break;
            }
        }

        tokens
    }

    /// Moves the cursor to the position one ahead, and that position one
    /// on. Returns the byte then under the cursor, which is zero past the
    /// end of the text.
    fn read_char(&mut self) -> (ch: u8)
        requires
            old(self).read_position < usize::MAX,
        ensures
            final(self).input == old(self).input,
            final(self).position == old(self).read_position,
            final(self).read_position == old(self).read_position + 1,
            final(self).ch == ch,
            ch == byte_at(old(self).bytes(), old(self).read_position as int),
    {
        let bytes = self.input.as_str().as_bytes();
        let ch: u8 = if self.read_position >= bytes.len() {
            0
        } else {
            bytes[self.read_position]
        };

        self.ch = ch;
        self.position = self.read_position;
        self.read_position += 1;

        ch
    }

    /// Reads bytes for as long as `f` accepts them, and returns them: the
    /// longest run from the cursor of bytes that satisfy `class`, the
    /// predicate that `f` decides. `f` must reject the zero byte.
    fn read_chars<F>(
        &mut self,
        f: F,
        Ghost(class): Ghost<spec_fn(u8) -> bool>,
    ) -> (literal: Literal) where F: Fn(u8) -> bool

        requires
            old(self).wf(),
            !class(0),
            forall|b: u8| f.requires((b,)),
            forall|b: u8, res: bool| f.ensures((b,), res) ==> res == class(b),
        ensures
            final(self).wf(),
            final(self).bytes() == old(self).bytes(),
            final(self).cursor() == run_end(old(self).bytes(), class, old(self).cursor()),
            literal@ == old(self).bytes().subrange(old(self).cursor(), final(self).cursor()),
    {
        let mut vec: Vec<u8> = vec![];

        while f(self.ch)
            invariant
                self.wf(),
                self.bytes() == old(self).bytes(),
                old(self).cursor() <= self.cursor(),
                run_end(self.bytes(), class, self.cursor()) == run_end(
                    self.bytes(),
                    class,
                    old(self).cursor(),
                ),
                vec@ == self.bytes().subrange(old(self).cursor(), self.cursor()),
                !class(0),
                forall|b: u8| f.requires((b,)),
                forall|b: u8, res: bool| f.ensures((b,), res) ==> res == class(b),
            decreases self.bytes().len() - self.cursor(),
        {
            vec.push(self.ch);

            self.read_char();
            assert(vec@ =~= self.bytes().subrange(old(self).cursor(), self.cursor()));
        }

        Literal::new(vec)
    }

    /// The byte after the one under the cursor; zero at the end of the text.
    fn peek_char(&mut self) -> (ch: u8)
        requires
            old(self).wf(),
        ensures
            *final(self) == *old(self),
            ch == byte_at(old(self).bytes(), old(self).cursor() + 1),
    {
        let bytes = self.input.as_str().as_bytes();
        if self.read_position >= bytes.len() {
            0
        } else {
            bytes[self.read_position]
        }
    }

    /// Moves the cursor past the whitespace under it.
    fn skip_whitespace(&mut self)
        requires
            old(self).wf(),
        ensures
            final(self).wf(),
            final(self).bytes() == old(self).bytes(),
            final(self).cursor() == next_start(old(self).bytes(), old(self).cursor()),
    {
        while self.ch == ' ' as u8 || self.ch == '\t' as u8 || self.ch == '\n' as u8 || self.ch
            == '\r' as u8
            invariant
                self.wf(),
                self.bytes() == old(self).bytes(),
                next_start(self.bytes(), self.cursor()) == next_start(
                    self.bytes(),
                    old(self).cursor(),
                ),
            decreases self.bytes().len() - self.cursor(),
        {
            self.read_char();
        }
    }
}

/// A lexer at the start of `input`. The text must be short enough for the
/// position one past its end to be counted.
pub fn new(input: String) -> (lexer: Lexer)
    requires
        encode_utf8(input@).len() < usize::MAX,
    ensures
        lexer.wf(),
        lexer.bytes() == encode_utf8(input@),
        lexer.cursor() == 0,
{
    let mut lexer = Lexer { input, position: 0, read_position: 0, ch: 0 };

    lexer.read_char();

    lexer
}

/// True for the ASCII letters and the underscore.
pub fn is_letter(ch: u8) -> (res: bool)
    ensures
        res == is_letter_byte(ch),
{
    'a' as u8 <= ch && ch <= 'z' as u8 || 'A' as u8 <= ch && ch <= 'Z' as u8 || ch == '_' as u8
}

/// True for the bytes that a word is made of: letters, digits and the
/// underscore.
fn is_word(ch: u8) -> (res: bool)
    ensures
        res == is_word_byte(ch),
{
    is_letter(ch) || is_digit(ch)
}

/// True for the ASCII digits.
pub fn is_digit(ch: u8) -> (res: bool)
    ensures
        res == is_digit_byte(ch),
{
    '0' as u8 <= ch && ch <= '9' as u8
}

} // verus!
