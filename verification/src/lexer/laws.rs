//! Laws of the lexer: what it makes of two-byte operators, of words and of
//! numerals.

use crate::lexer::number::{all_digits, digits_value, is_digit_byte};
use crate::lexer::scan::{
    ascii_text, byte_at, digits, is_letter_byte, is_word_byte, lemma_run_end, lemma_run_end_is,
    lemma_token_end, next_end, next_start, next_token, run_end, whitespace, word_bytes,
};
use crate::lexer::stream::is_word;
use crate::lexer::token::{word_kind, NameView, TokenView};
use vstd::prelude::*;
use vstd::utf8::*;

verus! {

/// Where `==` or `!=` follows the whitespace at `pos`, the next token is
/// that operator, made of both bytes: the first byte is never read as a
/// token by itself.
pub proof fn lemma_two_byte_operators(input: Seq<u8>, pos: int)
    requires
        0 <= pos <= input.len(),
        byte_at(input, next_start(input, pos)) == '=' as u8 || byte_at(
            input,
            next_start(input, pos),
        ) == '!' as u8,
        byte_at(input, next_start(input, pos) + 1) == '=' as u8,
    ensures
        byte_at(input, next_start(input, pos)) == '=' as u8 ==> next_token(input, pos)
            == (TokenView { name: NameView::Eq, literal: seq!['=' as u8, '=' as u8] }),
        byte_at(input, next_start(input, pos)) == '!' as u8 ==> next_token(input, pos)
            == (TokenView { name: NameView::NotEq, literal: seq!['!' as u8, '=' as u8] }),
        next_end(input, pos) == next_start(input, pos) + 2,
{
    let start = next_start(input, pos);
    lemma_run_end(input, whitespace(), pos);
    assert(input.subrange(start, start + 2) =~= seq![input[start], input[start + 1]]);
}

/// The keyword that a word spells, if it spells one of the seven.
pub open spec fn keyword(word: Seq<u8>) -> Option<NameView> {
    if word == seq!['f' as u8, 'n' as u8] {
        Some(NameView::Function)
    } else if word == seq!['l' as u8, 'e' as u8, 't' as u8] {
        Some(NameView::Let)
    } else if word == seq!['t' as u8, 'r' as u8, 'u' as u8, 'e' as u8] {
        Some(NameView::True)
    } else if word == seq!['f' as u8, 'a' as u8, 'l' as u8, 's' as u8, 'e' as u8] {
        Some(NameView::False)
    } else if word == seq!['i' as u8, 'f' as u8] {
        Some(NameView::If)
    } else if word == seq!['e' as u8, 'l' as u8, 's' as u8, 'e' as u8] {
        Some(NameView::Else)
    } else if word == seq!['r' as u8, 'e' as u8, 't' as u8, 'u' as u8, 'r' as u8, 'n' as u8] {
        Some(NameView::Return)
    } else {
        None
    }
}

/// The token that a word makes: the keyword that it spells, or else an
/// identifier whose text is the word.
pub open spec fn word_token(word: Seq<u8>) -> TokenView {
    TokenView {
        name: match keyword(word) {
            Some(name) => name,
            None => NameView::Ident(ascii_text(word)),
        },
        literal: word,
    }
}

/// Where a letter or an underscore follows the whitespace at `pos`, the
/// next token is the longest run of letters, digits and underscores from
/// there. It is a keyword if the run spells one of the seven, and otherwise
/// an identifier whose text is the run.
pub proof fn lemma_words(input: Seq<u8>, pos: int)
    requires
        0 <= pos <= input.len(),
        is_letter_byte(byte_at(input, next_start(input, pos))),
    ensures
        next_end(input, pos) == run_end(input, word_bytes(), next_start(input, pos)),
        next_start(input, pos) < next_end(input, pos) <= input.len(),
        is_word(input.subrange(next_start(input, pos), next_end(input, pos))),
        !is_word_byte(byte_at(input, next_end(input, pos))),
        next_token(input, pos) == word_token(
            input.subrange(next_start(input, pos), next_end(input, pos)),
        ),
{
    let start = next_start(input, pos);
    let end = next_end(input, pos);
    let word = input.subrange(start, end);
    lemma_run_end(input, whitespace(), pos);
    lemma_token_end(input, start);
    lemma_run_end(input, word_bytes(), start);
    assert(word[0] == input[start]);
    lemma_word_token(word);
}

/// A word of ASCII bytes is classified by its text as `word_token` says.
proof fn lemma_word_token(word: Seq<u8>)
    requires
        forall|i: int| 0 <= i < word.len() ==> #[trigger] word[i] < 128,
    ensures
        word_token(word).name == word_kind(ascii_text(word)),
{
    reveal_strlit("fn");
    reveal_strlit("let");
    reveal_strlit("true");
    reveal_strlit("false");
    reveal_strlit("if");
    reveal_strlit("else");
    reveal_strlit("return");
    lemma_text_spells(word, "fn"@);
    lemma_text_spells(word, "let"@);
    lemma_text_spells(word, "true"@);
    lemma_text_spells(word, "false"@);
    lemma_text_spells(word, "if"@);
    lemma_text_spells(word, "else"@);
    lemma_text_spells(word, "return"@);
    assert(ascii_bytes("fn"@) =~= seq!['f' as u8, 'n' as u8]);
    assert(ascii_bytes("let"@) =~= seq!['l' as u8, 'e' as u8, 't' as u8]);
    assert(ascii_bytes("true"@) =~= seq!['t' as u8, 'r' as u8, 'u' as u8, 'e' as u8]);
    assert(ascii_bytes("false"@) =~= seq!['f' as u8, 'a' as u8, 'l' as u8, 's' as u8, 'e' as u8]);
    assert(ascii_bytes("if"@) =~= seq!['i' as u8, 'f' as u8]);
    assert(ascii_bytes("else"@) =~= seq!['e' as u8, 'l' as u8, 's' as u8, 'e' as u8]);
    assert(ascii_bytes("return"@) =~= seq![
        'r' as u8,
        'e' as u8,
        't' as u8,
        'u' as u8,
        'r' as u8,
        'n' as u8,
    ]);
}

/// Where the longest run of letters and underscores after the whitespace at
/// `pos` is not empty, ends at `end`, and no digit follows it, the next
/// token is that run: the keyword that it spells, or else an identifier
/// whose text is the run.
pub proof fn lemma_letter_runs(input: Seq<u8>, pos: int, end: int)
    requires
        0 <= pos <= input.len(),
        next_start(input, pos) < end <= input.len(),
        forall|i: int| next_start(input, pos) <= i < end ==> is_letter_byte(#[trigger] input[i]),
        !is_letter_byte(byte_at(input, end)),
        !is_digit_byte(byte_at(input, end)),
    ensures
        next_end(input, pos) == end,
        next_token(input, pos) == word_token(input.subrange(next_start(input, pos), end)),
{
    let start = next_start(input, pos);
    lemma_run_end(input, whitespace(), pos);
    assert(is_letter_byte(input[start]));
    lemma_run_end_is(input, word_bytes(), start, end);
    lemma_words(input, pos);
}

/// The bytes that spell an ASCII text: each character as the byte of its
/// code.
spec fn ascii_bytes(text: Seq<char>) -> Seq<u8> {
    Seq::new(text.len(), |i: int| text[i] as u8)
}

/// ASCII bytes spell an ASCII text exactly when they are its bytes.
proof fn lemma_text_spells(bytes: Seq<u8>, text: Seq<char>)
    requires
        forall|i: int| 0 <= i < bytes.len() ==> #[trigger] bytes[i] < 128,
        is_ascii_chars(text),
    ensures
        ascii_text(bytes) == text <==> bytes == ascii_bytes(text),
{
    if ascii_text(bytes) == text {
        assert(bytes =~= ascii_bytes(text)) by {
            assert forall|i: int| 0 <= i < bytes.len() implies bytes[i] == ascii_bytes(text)[i] by {
                assert(ascii_text(bytes)[i] == bytes[i] as char);
                assert(bytes[i] < 128);
            }
        }
    }
    if bytes == ascii_bytes(text) {
        assert(ascii_text(bytes) =~= text) by {
            assert forall|i: int| 0 <= i < text.len() implies ascii_text(bytes)[i] == text[i] by {
                assert('\0' <= text[i] <= '\u{7f}');
                assert(bytes[i] == text[i] as u8);
            }
        }
    }
}

/// Where a digit follows the whitespace at `pos`, the next token is the
/// longest run of digits from there. It is an integer with the value that
/// the run denotes in base ten if that fits in a signed 64-bit integer, and
/// illegal if it does not.
pub proof fn lemma_numerals(input: Seq<u8>, pos: int)
    requires
        0 <= pos <= input.len(),
        is_digit_byte(byte_at(input, next_start(input, pos))),
    ensures
        ({
            let start = next_start(input, pos);
            let end = next_end(input, pos);
            let run = input.subrange(start, end);
            let name = next_token(input, pos).name;
            &&& start < end <= input.len()
            &&& next_token(input, pos).literal == run
            &&& all_digits(run)
            &&& !is_digit_byte(byte_at(input, end))
            &&& digits_value(run) <= i64::MAX ==> name == NameView::Int(digits_value(run) as i64)
            &&& digits_value(run) > i64::MAX ==> name == NameView::Illegal
        }),
{
    let start = next_start(input, pos);
    lemma_run_end(input, whitespace(), pos);
    lemma_token_end(input, start);
    lemma_run_end(input, digits(), start);
}

} // verus!
