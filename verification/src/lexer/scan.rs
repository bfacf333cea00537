//! What the lexer reads: the token that starts at a position of the input,
//! where it ends, and the stream of tokens up to the end of input.

use crate::lexer::number::is_digit_byte;
use crate::lexer::token::{numeral_kind, word_kind, NameView, TokenView};
use vstd::prelude::*;
use vstd::utf8::*;

verus! {

/// The byte at position `i`; past the end of the input, and before its
/// start, the zero byte that stands for the end of input.
pub open spec fn byte_at(input: Seq<u8>, i: int) -> u8 {
    if 0 <= i < input.len() {
        input[i]
    } else {
        0
    }
}

/// True for space, tab, line feed and carriage return.
pub open spec fn is_whitespace_byte(b: u8) -> bool {
    b == ' ' as u8 || b == '\t' as u8 || b == '\n' as u8 || b == '\r' as u8
}

/// True for the ASCII letters and the underscore.
pub open spec fn is_letter_byte(b: u8) -> bool {
    'a' as u8 <= b <= 'z' as u8 || 'A' as u8 <= b <= 'Z' as u8 || b == '_' as u8
}

/// True for the bytes that a word is made of: letters, digits and the
/// underscore.
pub open spec fn is_word_byte(b: u8) -> bool {
    is_letter_byte(b) || is_digit_byte(b)
}

/// The class of whitespace bytes.
pub open spec fn whitespace() -> spec_fn(u8) -> bool {
    |b: u8| is_whitespace_byte(b)
}

/// The class of the bytes that a word is made of.
pub open spec fn word_bytes() -> spec_fn(u8) -> bool {
    |b: u8| is_word_byte(b)
}

/// The class of the digits.
pub open spec fn digits() -> spec_fn(u8) -> bool {
    |b: u8| is_digit_byte(b)
}

/// Where the longest run of bytes that satisfy `class` and that starts at
/// `pos` ends: the first position from `pos` on whose byte does not satisfy
/// it, or the end of the input.
pub open spec fn run_end(input: Seq<u8>, class: spec_fn(u8) -> bool, pos: int) -> int
    decreases input.len() - pos,
{
    if 0 <= pos < input.len() && class(input[pos]) {
        run_end(input, class, pos + 1)
    } else {
        pos
    }
}

/// The text that ASCII bytes spell: each byte as the character of that code.
pub open spec fn ascii_text(bytes: Seq<u8>) -> Seq<char> {
    Seq::new(bytes.len(), |i: int| bytes[i] as char)
}

/// The kind of the token that the single byte `b` makes by itself, for the
/// bytes that are operators and delimiters whatever follows them.
pub open spec fn symbol_kind(b: u8) -> Option<NameView> {
    if b == '+' as u8 {
        Some(NameView::Plus)
    } else if b == '-' as u8 {
        Some(NameView::Minus)
    } else if b == '*' as u8 {
        Some(NameView::Asterisk)
    } else if b == '/' as u8 {
        Some(NameView::Slash)
    } else if b == '<' as u8 {
        Some(NameView::Lt)
    } else if b == '>' as u8 {
        Some(NameView::Gt)
    } else if b == '(' as u8 {
        Some(NameView::LParen)
    } else if b == ')' as u8 {
        Some(NameView::RParen)
    } else if b == '{' as u8 {
        Some(NameView::LBrace)
    } else if b == '}' as u8 {
        Some(NameView::RBrace)
    } else if b == ',' as u8 {
        Some(NameView::Comma)
    } else if b == ';' as u8 {
        Some(NameView::Semicolon)
    } else {
        None
    }
}

/// Where the token that starts at `start` ends. The end of input takes up
/// no byte.
pub open spec fn token_end(input: Seq<u8>, start: int) -> int {
    let b = byte_at(input, start);
    if b == 0 {
        start
    } else if (b == '=' as u8 || b == '!' as u8) && byte_at(input, start + 1) == '=' as u8 {
        start + 2
    } else if is_letter_byte(b) {
        run_end(input, word_bytes(), start)
    } else if is_digit_byte(b) {
        run_end(input, digits(), start)
    } else {
        start + 1
    }
}

/// The kind of the token that starts at `start`.
pub open spec fn token_kind(input: Seq<u8>, start: int) -> NameView {
    let b = byte_at(input, start);
    let bytes = input.subrange(start, token_end(input, start));
    if b == 0 {
        NameView::Eof
    } else if b == '=' as u8 {
        if byte_at(input, start + 1) == '=' as u8 {
            NameView::Eq
        } else {
            NameView::Assign
        }
    } else if b == '!' as u8 {
        if byte_at(input, start + 1) == '=' as u8 {
            NameView::NotEq
        } else {
            NameView::Bang
        }
    } else if symbol_kind(b) is Some {
        symbol_kind(b)->0
    } else if is_letter_byte(b) {
        word_kind(ascii_text(bytes))
    } else if is_digit_byte(b) {
        numeral_kind(bytes)
    } else {
        NameView::Illegal
    }
}

/// The bytes that a token carries: those it was read from, and a single
/// zero byte for the end of input.
pub open spec fn token_literal(input: Seq<u8>, start: int) -> Seq<u8> {
    if byte_at(input, start) == 0 {
        seq![0u8]
    } else {
        input.subrange(start, token_end(input, start))
    }
}

/// The token that starts at `start`, a position that holds no whitespace.
pub open spec fn token_at(input: Seq<u8>, start: int) -> TokenView {
    TokenView { name: token_kind(input, start), literal: token_literal(input, start) }
}

/// Where the next token from `pos` starts: after the whitespace at `pos`.
pub open spec fn next_start(input: Seq<u8>, pos: int) -> int {
    run_end(input, whitespace(), pos)
}

/// The next token from `pos`.
pub open spec fn next_token(input: Seq<u8>, pos: int) -> TokenView {
    token_at(input, next_start(input, pos))
}

/// Where the next token from `pos` ends.
pub open spec fn next_end(input: Seq<u8>, pos: int) -> int {
    token_end(input, next_start(input, pos))
}

/// A run ends between its start and the end of the input, every byte in it
/// belongs to the class, and the byte after it does not.
pub proof fn lemma_run_end(input: Seq<u8>, class: spec_fn(u8) -> bool, pos: int)
    requires
        0 <= pos <= input.len(),
    ensures
        pos <= run_end(input, class, pos) <= input.len(),
        forall|i: int| pos <= i < run_end(input, class, pos) ==> class(#[trigger] input[i]),
        run_end(input, class, pos) < input.len() ==> !class(
            input[run_end(input, class, pos)],
        ),
    decreases input.len() - pos,
{
    if pos < input.len() && class(input[pos]) {
        lemma_run_end(input, class, pos + 1);
    }
}

/// A run ends at `end` if every byte from `pos` up to `end` belongs to the
/// class and the byte at `end` does not.
pub proof fn lemma_run_end_is(input: Seq<u8>, class: spec_fn(u8) -> bool, pos: int, end: int)
    requires
        0 <= pos <= end <= input.len(),
        forall|i: int| pos <= i < end ==> class(#[trigger] input[i]),
        end < input.len() ==> !class(input[end]),
    ensures
        run_end(input, class, pos) == end,
    decreases end - pos,
{
    if pos < end {
        lemma_run_end_is(input, class, pos + 1, end);
    }
}

/// ASCII bytes are valid UTF-8, and decode to the text they spell.
pub proof fn lemma_ascii_text(bytes: Seq<u8>)
    requires
        forall|i: int| 0 <= i < bytes.len() ==> #[trigger] bytes[i] < 128,
    ensures
        valid_utf8(bytes),
        decode_utf8(bytes) == ascii_text(bytes),
{
    let text = ascii_text(bytes);
    assert forall|i: int| 0 <= i < text.len() implies '\0' <= #[trigger] text[i] <= '\u{7f}' by {
        assert(bytes[i] < 128);
    }
    is_ascii_chars_encode_utf8(text);
    assert(encode_utf8(text) =~= bytes) by {
        assert forall|i: int| 0 <= i < bytes.len() implies encode_utf8(text)[i] == bytes[i] by {
            assert(text[i] as u8 == encode_utf8(text)[i]);
            assert(bytes[i] < 128);
        }
    }
    encode_utf8_valid_utf8(text);
    encode_utf8_decode_utf8(text);
}

/// A token other than the end of input takes up at least one byte and ends
/// within the input; the end of input takes up none.
pub proof fn lemma_token_end(input: Seq<u8>, start: int)
    requires
        0 <= start <= input.len(),
    ensures
        start <= token_end(input, start) <= input.len(),
        token_kind(input, start) is Eof <==> byte_at(input, start) == 0,
        token_kind(input, start) is Eof <==> token_end(input, start) == start,
{
    let b = byte_at(input, start);
    lemma_run_end(input, word_bytes(), start);
    lemma_run_end(input, digits(), start);
    if b != 0 {
        if is_letter_byte(b) {
            assert(run_end(input, word_bytes(), start) == run_end(input, word_bytes(), start + 1));
            lemma_run_end(input, word_bytes(), start + 1);
        } else if is_digit_byte(b) {
            assert(run_end(input, digits(), start) == run_end(input, digits(), start + 1));
            lemma_run_end(input, digits(), start + 1);
        }
    }
}

} // verus!
