//! Whitespace between tokens does not matter: putting more of it where one
//! token has ended and the next has not begun leaves the stream unchanged.

use crate::lexer::scan::{
    byte_at, digits, is_whitespace_byte, lemma_run_end, lemma_token_end, next_end, next_start,
    next_token, run_end, token_at, token_end, whitespace, word_bytes,
};
use crate::lexer::stream::{lemma_next_end, tokens_from};
use vstd::prelude::*;

verus! {

/// True when every byte of `s` is whitespace.
pub open spec fn all_whitespace(s: Seq<u8>) -> bool {
    forall|i: int| 0 <= i < s.len() ==> is_whitespace_byte(#[trigger] s[i])
}

/// `input` with the bytes of `gap` put in at position `at`.
pub open spec fn insert_at(input: Seq<u8>, at: int, gap: Seq<u8>) -> Seq<u8> {
    input.subrange(0, at) + gap + input.subrange(at, input.len() as int)
}

/// True when position `at` lies between two tokens of the stream from
/// `from`: at the end of a token or in the whitespace after it, before the
/// next token begins. The position `from` itself counts as the end of a
/// token.
pub open spec fn between_tokens(input: Seq<u8>, from: int, at: int) -> bool
    decreases input.len() - from,
    when 0 <= from <= input.len()
    via between_tokens_terminates
{
    ||| from <= at <= next_start(input, from)
    ||| {
        &&& !(next_token(input, from).name is Eof)
        &&& next_end(input, from) <= at
        &&& between_tokens(input, next_end(input, from), at)
    }
}

#[via_fn]
proof fn between_tokens_terminates(input: Seq<u8>, from: int, at: int) {
    lemma_next_end(input, from);
}

/// The bytes of an input with a gap put in: those before the gap, the gap,
/// and those after it, moved on by the length of the gap.
proof fn lemma_insert_at(input: Seq<u8>, at: int, gap: Seq<u8>)
    requires
        0 <= at <= input.len(),
    ensures
        insert_at(input, at, gap).len() == input.len() + gap.len(),
        forall|i: int| i < at ==> byte_at(insert_at(input, at, gap), i) == byte_at(input, i),
        forall|i: int|
            0 <= i < gap.len() ==> #[trigger] byte_at(insert_at(input, at, gap), at + i) == gap[i],
        forall|i: int|
            at <= i ==> #[trigger] byte_at(insert_at(input, at, gap), i + gap.len()) == byte_at(
                input,
                i,
            ),
        forall|p: int, e: int|
            0 <= p <= e <= at ==> #[trigger] insert_at(input, at, gap).subrange(p, e)
                == input.subrange(p, e),
        forall|p: int, e: int|
            at <= p <= e <= input.len() ==> #[trigger] insert_at(input, at, gap).subrange(
                p + gap.len(),
                e + gap.len(),
            ) == input.subrange(p, e),
        gap.len() == 0 ==> insert_at(input, at, gap) == input,
{
    let wider = insert_at(input, at, gap);
    assert forall|p: int, e: int| 0 <= p <= e <= at implies #[trigger] wider.subrange(p, e)
        == input.subrange(p, e) by {
        assert(wider.subrange(p, e) =~= input.subrange(p, e));
    }
    assert forall|p: int, e: int| at <= p <= e <= input.len() implies #[trigger] wider.subrange(
        p + gap.len(),
        e + gap.len(),
    ) == input.subrange(p, e) by {
        assert(wider.subrange(p + gap.len(), e + gap.len()) =~= input.subrange(p, e));
    }
    if gap.len() == 0 {
        assert(wider =~= input);
    }
}

/// A run that begins after the gap ends where it did, moved on by the
/// length of the gap.
proof fn lemma_run_after_gap(
    input: Seq<u8>,
    at: int,
    gap: Seq<u8>,
    class: spec_fn(u8) -> bool,
    pos: int,
)
    requires
        0 <= at <= pos,
        at <= input.len(),
    ensures
        run_end(insert_at(input, at, gap), class, pos + gap.len()) == run_end(input, class, pos)
            + gap.len(),
    decreases input.len() - pos,
{
    lemma_insert_at(input, at, gap);
    let wider = insert_at(input, at, gap);
    if pos < input.len() {
        assert(byte_at(wider, pos + gap.len()) == byte_at(input, pos));
        if class(input[pos]) {
            lemma_run_after_gap(input, at, gap, class, pos + 1);
        }
    }
}

/// A run that ends before the gap, or at the gap if the gap does not begin
/// with a byte of its class, ends where it did.
proof fn lemma_run_before_gap(
    input: Seq<u8>,
    at: int,
    gap: Seq<u8>,
    class: spec_fn(u8) -> bool,
    pos: int,
)
    requires
        0 <= pos <= at <= input.len(),
        run_end(input, class, pos) <= at,
        run_end(input, class, pos) < at || gap.len() == 0 || !class(gap[0]),
    ensures
        run_end(insert_at(input, at, gap), class, pos) == run_end(input, class, pos),
    decreases at - pos,
{
    lemma_insert_at(input, at, gap);
    lemma_run_end(input, class, pos);
    let wider = insert_at(input, at, gap);
    if pos == at {
        if gap.len() > 0 {
            assert(byte_at(wider, at + 0) == gap[0]);
        }
    } else {
        assert(byte_at(wider, pos) == byte_at(input, pos));
        if class(input[pos]) {
            lemma_run_before_gap(input, at, gap, class, pos + 1);
        }
    }
}

/// Whitespace that begins inside a gap of whitespace runs on to the end of
/// the gap.
proof fn lemma_run_inside_gap(input: Seq<u8>, at: int, gap: Seq<u8>, i: int)
    requires
        0 <= at <= input.len(),
        0 <= i <= gap.len(),
        all_whitespace(gap),
    ensures
        next_start(insert_at(input, at, gap), at + i) == next_start(
            insert_at(input, at, gap),
            at + gap.len(),
        ),
    decreases gap.len() - i,
{
    lemma_insert_at(input, at, gap);
    let wider = insert_at(input, at, gap);
    if i < gap.len() {
        assert(byte_at(wider, at + i) == gap[i]);
        lemma_run_inside_gap(input, at, gap, i + 1);
    }
}

/// Whitespace that reaches the gap runs through it: the next token starts
/// where it did, moved on by the length of the gap.
proof fn lemma_run_through_gap(input: Seq<u8>, at: int, gap: Seq<u8>, pos: int)
    requires
        0 <= pos <= at <= input.len(),
        at <= next_start(input, pos),
        all_whitespace(gap),
    ensures
        next_start(insert_at(input, at, gap), pos) == next_start(input, pos) + gap.len(),
    decreases at - pos,
{
    lemma_insert_at(input, at, gap);
    let wider = insert_at(input, at, gap);
    if pos == at {
        lemma_run_inside_gap(input, at, gap, 0);
        lemma_run_after_gap(input, at, gap, whitespace(), at);
    } else {
        lemma_run_end(input, whitespace(), pos);
        assert(is_whitespace_byte(input[pos]));
        assert(byte_at(wider, pos) == byte_at(input, pos));
        lemma_run_through_gap(input, at, gap, pos + 1);
    }
}

/// A token that starts after the gap is the same token, and ends where it
/// did, moved on by the length of the gap.
proof fn lemma_token_after_gap(input: Seq<u8>, at: int, gap: Seq<u8>, start: int)
    requires
        0 <= at <= start <= input.len(),
    ensures
        token_at(insert_at(input, at, gap), start + gap.len()) == token_at(input, start),
        token_end(insert_at(input, at, gap), start + gap.len()) == token_end(input, start)
            + gap.len(),
{
    lemma_insert_at(input, at, gap);
    let wider = insert_at(input, at, gap);
    lemma_token_end(input, start);
    lemma_run_after_gap(input, at, gap, word_bytes(), start);
    lemma_run_after_gap(input, at, gap, digits(), start);
    assert(byte_at(wider, start + gap.len()) == byte_at(input, start));
    assert(byte_at(wider, (start + 1) + gap.len()) == byte_at(input, start + 1));
    let end = token_end(input, start);
    assert(wider.subrange(start + gap.len(), end + gap.len()) == input.subrange(start, end));
}

/// The stream from a position after the gap is the same stream.
proof fn lemma_stream_after_gap(input: Seq<u8>, at: int, gap: Seq<u8>, pos: int)
    requires
        0 <= at <= pos <= input.len(),
    ensures
        tokens_from(insert_at(input, at, gap), pos + gap.len()) == tokens_from(input, pos),
    decreases input.len() - pos,
{
    lemma_insert_at(input, at, gap);
    lemma_next_end(input, pos);
    lemma_run_after_gap(input, at, gap, whitespace(), pos);
    lemma_token_after_gap(input, at, gap, next_start(input, pos));
    if !(next_token(input, pos).name is Eof) {
        lemma_stream_after_gap(input, at, gap, next_end(input, pos));
    }
}

/// A token that ends before the gap or at it is the same token, and ends
/// where it did.
proof fn lemma_token_before_gap(input: Seq<u8>, at: int, gap: Seq<u8>, start: int)
    requires
        0 <= start < at <= input.len(),
        token_end(input, start) <= at,
        all_whitespace(gap),
    ensures
        token_at(insert_at(input, at, gap), start) == token_at(input, start),
        token_end(insert_at(input, at, gap), start) == token_end(input, start),
{
    lemma_insert_at(input, at, gap);
    let wider = insert_at(input, at, gap);
    lemma_token_end(input, start);
    let end = token_end(input, start);
    assert(byte_at(wider, start) == byte_at(input, start));
    if gap.len() > 0 {
        assert(byte_at(wider, at + 0) == gap[0]);
        assert(is_whitespace_byte(gap[0]));
        if start + 1 < at {
            assert(byte_at(wider, start + 1) == byte_at(input, start + 1));
        }
        lemma_run_end(input, word_bytes(), start);
        lemma_run_end(input, digits(), start);
        if run_end(input, word_bytes(), start) <= at {
            lemma_run_before_gap(input, at, gap, word_bytes(), start);
        }
        if run_end(input, digits(), start) <= at {
            lemma_run_before_gap(input, at, gap, digits(), start);
        }
        assert(wider.subrange(start, end) == input.subrange(start, end));
    }
}

/// Whitespace before a token does not change the token: with any whitespace
/// put in at `pos`, the next token from `pos` is the same, and ends where it
/// did, moved on by the length of what was put in.
pub proof fn lemma_whitespace_before_token(input: Seq<u8>, pos: int, gap: Seq<u8>)
    requires
        0 <= pos <= input.len(),
        all_whitespace(gap),
    ensures
        next_token(insert_at(input, pos, gap), pos) == next_token(input, pos),
        next_end(insert_at(input, pos, gap), pos) == next_end(input, pos) + gap.len(),
{
    lemma_run_end(input, whitespace(), pos);
    lemma_run_through_gap(input, pos, gap, pos);
    lemma_token_after_gap(input, pos, gap, next_start(input, pos));
}

/// Whitespace between two tokens does not change the stream: with any
/// whitespace put in at a position that lies between two tokens, the lexer
/// hands out the same tokens.
pub proof fn lemma_whitespace_between_tokens(input: Seq<u8>, from: int, at: int, gap: Seq<u8>)
    requires
        0 <= from <= input.len(),
        0 <= at <= input.len(),
        between_tokens(input, from, at),
        all_whitespace(gap),
    ensures
        tokens_from(insert_at(input, at, gap), from) == tokens_from(input, from),
    decreases input.len() - from,
{
    lemma_insert_at(input, at, gap);
    lemma_next_end(input, from);
    let wider = insert_at(input, at, gap);
    let start = next_start(input, from);
    if from <= at <= start {
        lemma_run_through_gap(input, at, gap, from);
        lemma_token_after_gap(input, at, gap, start);
        if !(next_token(input, from).name is Eof) {
            lemma_stream_after_gap(input, at, gap, next_end(input, from));
        }
    } else {
        lemma_run_before_gap(input, at, gap, whitespace(), from);
        lemma_token_before_gap(input, at, gap, start);
        lemma_whitespace_between_tokens(input, next_end(input, from), at, gap);
    }
}

} // verus!
