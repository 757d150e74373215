use vstd::prelude::*;

use crate::lexer::{
    chars_of, cur_byte, digit_run_end, fn_text, is_digit_byte, is_letter_byte, is_ws_byte,
    lemma_digit_run_bounds, lemma_letter_run_bounds, lemma_skip_ws_bounds, lemma_token_step_bounds,
    let_text, letter_run_end, punct_kind, skip_ws, spec_tokens, token_step, word_kind,
};
use crate::token::{SpecToken, TokenType};

verus! {

/// The scanned token sequence never contains an end-of-input (`EOF`) token: scanning
/// stops at the sentinel without recording it.
pub proof fn lemma_no_eof_in_output(s: Seq<u8>, i: int)
    requires
        0 <= i <= s.len(),
    ensures
        forall|k: int|
            0 <= k < spec_tokens(s, i).len() ==> (#[trigger] spec_tokens(s, i)[k]).kind
                != TokenType::EOF,
    decreases s.len() - i,
{
    let (t, p) = token_step(s, i);
    lemma_token_step_bounds(s, i);
    if t.kind != TokenType::EOF {
        lemma_no_eof_in_output(s, p);
        assert forall|k: int| 0 <= k < spec_tokens(s, i).len() implies (#[trigger] spec_tokens(
            s,
            i,
        )[k]).kind != TokenType::EOF by {
            if k > 0 {
                assert(spec_tokens(s, i)[k] == spec_tokens(s, p)[k - 1]);
            }
        }
    }
}

/// Over an input made only of the eight punctuation characters, scanning
/// yields one token per character, in source order, each carrying that single
/// character as its literal and the kind of the fixed punctuation table.
pub proof fn lemma_punctuation_only(s: Seq<u8>)
    requires
        forall|i: int| 0 <= i < s.len() ==> punct_kind(#[trigger] s[i]) is Some,
    ensures
        spec_tokens(s, 0).len() == s.len(),
        forall|i: int|
            0 <= i < s.len() ==> #[trigger] spec_tokens(s, 0)[i] == (SpecToken {
                kind: punct_kind(s[i])->0,
                text: seq![s[i] as char],
            }),
{
    lemma_punctuation_only_from(s, 0);
    assert forall|i: int| 0 <= i < s.len() implies #[trigger] spec_tokens(s, 0)[i] == (SpecToken {
        kind: punct_kind(s[i])->0,
        text: seq![s[i] as char],
    }) by {
        assert(spec_tokens(s, 0)[i - 0] == (SpecToken {
            kind: punct_kind(s[i])->0,
            text: seq![s[i] as char],
        }));
    }
}

proof fn lemma_punctuation_only_from(s: Seq<u8>, i: int)
    requires
        0 <= i <= s.len(),
        forall|k: int| i <= k < s.len() ==> punct_kind(#[trigger] s[k]) is Some,
    ensures
        spec_tokens(s, i).len() == s.len() - i,
        forall|k: int|
            i <= k < s.len() ==> #[trigger] spec_tokens(s, i)[k - i] == (SpecToken {
                kind: punct_kind(s[k])->0,
                text: seq![s[k] as char],
            }),
    decreases s.len() - i,
{
    if i < s.len() {
        assert(!is_ws_byte(s[i]) && s[i] != 0) by {
            assert(punct_kind(s[i]) is Some);
        }
        assert(skip_ws(s, i) == i);
        lemma_punctuation_only_from(s, i + 1);
        assert forall|k: int| i <= k < s.len() implies #[trigger] spec_tokens(s, i)[k - i]
            == (SpecToken { kind: punct_kind(s[k])->0, text: seq![s[k] as char] }) by {
            if k > i {
                assert(spec_tokens(s, i)[k - i] == spec_tokens(s, i + 1)[k - (i + 1)]);
            }
        }
    }
}

/// At a letter or underscore, one scanning step consumes exactly the maximal
/// letter/underscore run and yields one token carrying it: an `Ident` token
/// unless the run is a keyword. A digit ends the run, it never extends it.
pub proof fn lemma_identifier_run(s: Seq<u8>, i: int)
    requires
        0 <= i < s.len(),
        is_letter_byte(s[i]),
    ensures
        ({
            let k = letter_run_end(s, i);
            let text = chars_of(s.subrange(i, k));
            &&& token_step(s, i) == (SpecToken { kind: word_kind(text), text }, k)
            &&& i < k <= s.len()
            &&& forall|j: int| i <= j < k ==> is_letter_byte(#[trigger] s[j])
            &&& !is_letter_byte(cur_byte(s, k))
            &&& (text != fn_text() && text != let_text() ==> word_kind(text) == TokenType::Ident)
            &&& spec_tokens(s, i) == seq![token_step(s, i).0] + spec_tokens(s, k)
        }),
{
    assert(skip_ws(s, i) == i);
    lemma_letter_run_bounds(s, i);
}

/// The literals `fn` and `let` always scan as the keyword kinds `Function` and
/// `Let`, never as `Ident`, whatever stands around them: the kind of a run is a
/// function of its text alone, and on those two texts it is the keyword kind.
pub proof fn lemma_keywords(s: Seq<u8>, i: int)
    requires
        0 <= i < s.len(),
        is_letter_byte(s[i]),
    ensures
        word_kind(fn_text()) == TokenType::Function,
        word_kind(let_text()) == TokenType::Let,
        chars_of(s.subrange(i, letter_run_end(s, i))) == fn_text() ==> token_step(s, i).0
            == (SpecToken { kind: TokenType::Function, text: fn_text() }),
        chars_of(s.subrange(i, letter_run_end(s, i))) == let_text() ==> token_step(s, i).0
            == (SpecToken { kind: TokenType::Let, text: let_text() }),
{
    assert(fn_text() != let_text()) by {
        assert(fn_text().len() == 2 && let_text().len() == 3);
    }
    lemma_identifier_run(s, i);
}

/// At a digit, one scanning step consumes exactly the maximal digit run and
/// yields a single `Int` token whose literal is that run verbatim —
/// never one token per digit.
pub proof fn lemma_integer_run(s: Seq<u8>, i: int)
    requires
        0 <= i < s.len(),
        is_digit_byte(s[i]),
    ensures
        ({
            let k = digit_run_end(s, i);
            let text = chars_of(s.subrange(i, k));
            &&& token_step(s, i) == (SpecToken { kind: TokenType::Int, text }, k)
            &&& i < k <= s.len()
            &&& forall|j: int| i <= j < k ==> is_digit_byte(#[trigger] s[j])
            &&& !is_digit_byte(cur_byte(s, k))
            &&& spec_tokens(s, i) == seq![token_step(s, i).0] + spec_tokens(s, k)
        }),
{
    assert(skip_ws(s, i) == i);
    lemma_digit_run_bounds(s, i);
}

/// Whitespace contributes no token: scanning from a whitespace character is
/// the same as scanning from the character after it.
pub proof fn lemma_whitespace_absorbed(s: Seq<u8>, i: int)
    requires
        0 <= i < s.len(),
        is_ws_byte(s[i]),
    ensures
        spec_tokens(s, i) == spec_tokens(s, i + 1),
{
    assert(skip_ws(s, i) == skip_ws(s, i + 1));
}

/// An input of whitespace alone — any mixture and length of space, tab,
/// newline and carriage return — scans to no tokens at all.
pub proof fn lemma_all_whitespace(s: Seq<u8>)
    requires
        forall|i: int| 0 <= i < s.len() ==> is_ws_byte(#[trigger] s[i]),
    ensures
        spec_tokens(s, 0) == Seq::<SpecToken>::empty(),
{
    lemma_skip_ws_bounds(s, 0);
    let j = skip_ws(s, 0);
    if j < s.len() {
        assert(!is_ws_byte(cur_byte(s, j)));
        assert(is_ws_byte(s[j]));
    }
    assert(cur_byte(s, j) == 0);
}

/// Every token's literal is the exact contiguous slice of the source consumed
/// for it: the characters from the first byte past the elided whitespace up to
/// the position where the step leaves the cursor. Slices of successive steps
/// therefore advance strictly left-to-right and never overlap.
pub proof fn lemma_literal_is_consumed_slice(s: Seq<u8>, i: int)
    requires
        0 <= i,
        token_step(s, i).0.kind != TokenType::EOF,
    ensures
        token_step(s, i).0.text == chars_of(s.subrange(skip_ws(s, i), token_step(s, i).1)),
        skip_ws(s, i) < token_step(s, i).1,
{
    let j = skip_ws(s, i);
    let c = cur_byte(s, j);
    lemma_token_step_bounds(s, i);
    lemma_skip_ws_bounds(s, i);
    lemma_letter_run_bounds(s, j);
    lemma_digit_run_bounds(s, j);
    assert(c != 0);
    if !(is_letter_byte(c) || is_digit_byte(c)) {
        assert(seq![c as char] =~= chars_of(s.subrange(j, j + 1)));
    }
}

/// Past the sentinel the scanner is stable: once a step yields the end-of-input
/// token, it yields the same token again from the same position on every further
/// step.
pub proof fn lemma_eof_stable(s: Seq<u8>, i: int)
    requires
        token_step(s, i).0.kind == TokenType::EOF,
    ensures
        token_step(s, token_step(s, i).1) == token_step(s, i),
{
    lemma_skip_ws_bounds(s, i);
    let j = skip_ws(s, i);
    assert(skip_ws(s, j) == j);
}

/// A byte outside every recognized class yields a single Illegal token whose
/// literal is exactly that character, and scanning resumes — non-fatally — at
/// the character after it.
pub proof fn lemma_illegal_byte(s: Seq<u8>, i: int)
    requires
        0 <= i < s.len(),
        s[i] != 0,
        !is_ws_byte(s[i]),
        punct_kind(s[i]) is None,
        !is_letter_byte(s[i]),
        !is_digit_byte(s[i]),
    ensures
        token_step(s, i) == (SpecToken { kind: TokenType::Illegal, text: seq![s[i] as char] }, i + 1),
        spec_tokens(s, i) == seq![SpecToken { kind: TokenType::Illegal, text: seq![s[i] as char] }]
            + spec_tokens(s, i + 1),
{
    assert(skip_ws(s, i) == i);
}

} // verus!
