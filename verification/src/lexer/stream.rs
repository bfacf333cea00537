//! The stream of tokens that the lexer hands out, and what holds of every
//! token in it.

use crate::lexer::number::{all_digits, digits_value, is_digit_byte};
use crate::lexer::scan::{
    ascii_text, byte_at, digits, is_letter_byte, is_word_byte, lemma_run_end, lemma_token_end,
    next_end, next_start, next_token, token_at, token_end, whitespace, word_bytes,
};
use crate::lexer::token::{word_kind, NameView, TokenView};
use vstd::prelude::*;

verus! {

/// The tokens that the lexer hands out from `pos`, up to and including the
/// first end of input.
pub open spec fn tokens_from(input: Seq<u8>, pos: int) -> Seq<TokenView>
    decreases input.len() - pos,
    when 0 <= pos <= input.len()
    via tokens_from_terminates
{
    let token = next_token(input, pos);
    if token.name is Eof {
        seq![token]
    } else {
        seq![token] + tokens_from(input, next_end(input, pos))
    }
}

#[via_fn]
proof fn tokens_from_terminates(input: Seq<u8>, pos: int) {
    lemma_next_end(input, pos);
}

/// True when `s` is a word: a letter or an underscore, followed by any
/// number of letters, digits and underscores.
pub open spec fn is_word(s: Seq<u8>) -> bool {
    &&& s.len() > 0
    &&& is_letter_byte(s[0])
    &&& forall|i: int| 0 <= i < s.len() ==> is_word_byte(#[trigger] s[i])
}

impl TokenView {
    /// What holds of a token that came from the lexer. The end of input
    /// carries a single zero byte. An identifier carries a word, as its
    /// text, and the word is no keyword. An integer carries a run of digits,
    /// and its value is what the run denotes.
    pub open spec fn well_formed(self) -> bool {
        match self.name {
            NameView::Eof => self.literal == seq![0u8],
            NameView::Ident(text) => {
                &&& is_word(self.literal)
                &&& text == ascii_text(self.literal)
                &&& word_kind(text) == self.name
            },
            NameView::Int(value) => {
                &&& self.literal.len() > 0
                &&& all_digits(self.literal)
                &&& value == digits_value(self.literal)
            },
            _ => true,
        }
    }
}

/// True of a stream as the lexer hands it out: it is not empty, its last
/// token is the end of input and no other is, and every token is well
/// formed.
pub open spec fn is_stream(tokens: Seq<TokenView>) -> bool {
    &&& tokens.len() > 0
    &&& forall|i: int|
        0 <= i < tokens.len() ==> (#[trigger] tokens[i].name is Eof <==> i == tokens.len() - 1)
    &&& forall|i: int| 0 <= i < tokens.len() ==> (#[trigger] tokens[i]).well_formed()
}

/// The next token starts at or after `pos` and ends within the input. It
/// is the end of input exactly when it takes up no byte, which is when a
/// zero byte or the end of the input follows the whitespace at `pos`.
pub proof fn lemma_next_end(input: Seq<u8>, pos: int)
    requires
        0 <= pos <= input.len(),
    ensures
        pos <= next_start(input, pos) <= next_end(input, pos) <= input.len(),
        next_token(input, pos).name is Eof <==> next_end(input, pos) == next_start(input, pos),
        next_token(input, pos).name is Eof <==> byte_at(input, next_start(input, pos)) == 0,
{
    lemma_run_end(input, whitespace(), pos);
    lemma_token_end(input, next_start(input, pos));
}

/// Every token that the lexer hands out is well formed.
pub proof fn lemma_next_token_well_formed(input: Seq<u8>, pos: int)
    requires
        0 <= pos <= input.len(),
    ensures
        next_token(input, pos).well_formed(),
{
    let start = next_start(input, pos);
    let end = token_end(input, start);
    let token = token_at(input, start);
    lemma_run_end(input, whitespace(), pos);
    lemma_token_end(input, start);
    lemma_run_end(input, word_bytes(), start);
    lemma_run_end(input, digits(), start);
    match token.name {
        NameView::Ident(text) => {
            assert(is_letter_byte(byte_at(input, start)));
            assert(token.literal == input.subrange(start, end));
        },
        NameView::Int(value) => {
            assert(is_digit_byte(byte_at(input, start)));
            assert(token.literal == input.subrange(start, end));
            assert(all_digits(token.literal));
        },
        _ => {},
    }
}

/// Once the lexer has handed out the end of input, it hands out nothing
/// else: from where that token ends, the next token is the end of input
/// again, and the lexer stays where it is.
pub proof fn lemma_end_of_input_stays(input: Seq<u8>, pos: int)
    requires
        0 <= pos <= input.len(),
        next_token(input, pos).name is Eof,
    ensures
        next_token(input, next_end(input, pos)) == next_token(input, pos),
        next_end(input, next_end(input, pos)) == next_end(input, pos),
        tokens_from(input, pos) == seq![next_token(input, pos)],
        tokens_from(input, next_end(input, pos)) == tokens_from(input, pos),
{
    lemma_next_end(input, pos);
    let start = next_start(input, pos);
    lemma_run_end(input, whitespace(), start);
    assert(next_start(input, start) == start);
}

/// The tokens from any position are a stream: the end of input is the last
/// token that the lexer hands out, and it is handed out whatever the input.
/// The stream begins with the next token from that position.
pub proof fn lemma_stream_ends_at_end_of_input(input: Seq<u8>, pos: int)
    requires
        0 <= pos <= input.len(),
    ensures
        is_stream(tokens_from(input, pos)),
        tokens_from(input, pos)[0] == next_token(input, pos),
    decreases input.len() - pos,
{
    lemma_next_end(input, pos);
    lemma_next_token_well_formed(input, pos);
    if !(next_token(input, pos).name is Eof) {
        lemma_stream_ends_at_end_of_input(input, next_end(input, pos));
    }
}

} // verus!
