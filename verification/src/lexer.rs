use vstd::prelude::*;
use vstd::string::StringSliceAdditionalSpecFns;

use crate::token::{SpecToken, Token, TokenType};

verus! {

// ---------------------------------------------------------------------------
// Character classes
//
// The scanner is ASCII-only by construction: a byte is a letter, a digit,
// whitespace, one of eight punctuation marks, the end sentinel 0, or illegal.
// ---------------------------------------------------------------------------

/// Whitespace bytes the scanner elides: space, tab, newline, carriage return.
pub open spec fn is_ws_byte(c: u8) -> bool {
    c == ' ' as u8 || c == '\t' as u8 || c == '\n' as u8 || c == '\r' as u8
}

/// Identifier bytes: ASCII letters and underscore. Digits never belong to an
/// identifier body in this language.
pub open spec fn is_letter_byte(c: u8) -> bool {
    ('a' as u8) <= c && c <= ('z' as u8) || ('A' as u8) <= c && c <= ('Z' as u8) || c == (
    '_' as u8)
}

/// Decimal digit bytes.
pub open spec fn is_digit_byte(c: u8) -> bool {
    ('0' as u8) <= c && c <= ('9' as u8)
}

/// The same letter class on a character, as the executable test sees it.
pub open spec fn is_letter_char(c: char) -> bool {
    ('a' as u32) <= (c as u32) && (c as u32) <= ('z' as u32) || ('A' as u32) <= (c as u32) && (
    c as u32) <= ('Z' as u32) || (c as u32) == ('_' as u32)
}

/// The same digit class on a character.
pub open spec fn is_digit_char(c: char) -> bool {
    ('0' as u32) <= (c as u32) && (c as u32) <= ('9' as u32)
}

/// The fixed table of single-character punctuation tokens.
pub open spec fn punct_kind(c: u8) -> Option<TokenType> {
    if c == '=' as u8 {
        Some(TokenType::Assign)
    } else if c == ';' as u8 {
        Some(TokenType::Semicolon)
    } else if c == '(' as u8 {
        Some(TokenType::LParen)
    } else if c == ')' as u8 {
        Some(TokenType::RParen)
    } else if c == ',' as u8 {
        Some(TokenType::Comma)
    } else if c == '+' as u8 {
        Some(TokenType::Plus)
    } else if c == '{' as u8 {
        Some(TokenType::LBrace)
    } else if c == '}' as u8 {
        Some(TokenType::RBrace)
    } else {
        None
    }
}

/// The bytes of a literal, read as characters.
pub open spec fn chars_of(s: Seq<u8>) -> Seq<char> {
    Seq::new(s.len(), |i: int| s[i] as char)
}

/// The text of the `fn` keyword.
pub open spec fn fn_text() -> Seq<char> {
    seq!['f', 'n']
}

/// The text of the `let` keyword.
pub open spec fn let_text() -> Seq<char> {
    seq!['l', 'e', 't']
}

/// The reserved kind of a literal, if it is a keyword. Lookup is exact and
/// case-sensitive.
pub open spec fn keyword_kind(text: Seq<char>) -> Option<TokenType> {
    if text == fn_text() {
        Some(TokenType::Function)
    } else if text == let_text() {
        Some(TokenType::Let)
    } else {
        None
    }
}

/// The kind of a letter/underscore run: a keyword's reserved kind, or Ident.
pub open spec fn word_kind(text: Seq<char>) -> TokenType {
    match keyword_kind(text) {
        Some(k) => k,
        None => TokenType::Ident,
    }
}

/// The byte under the cursor at position `i`: the byte itself inside the
/// source, the sentinel 0 once the source is exhausted.
pub open spec fn cur_byte(s: Seq<u8>, i: int) -> u8 {
    if i < s.len() {
        s[i]
    } else {
        0
    }
}

// ---------------------------------------------------------------------------
// The scanning relation, as mathematics
//
// `token_step` says which token one call of `next_token` produces from
// position `i` of source `s`, and at which position the cursor stands after.
// `spec_tokens` iterates it: the whole token sequence from position `i`,
// ending (exclusively) at the first end-of-input token.
// ---------------------------------------------------------------------------

/// Where the cursor stands after eliding whitespace from position `i`.
pub open spec fn skip_ws(s: Seq<u8>, i: int) -> int
    decreases s.len() - i,
{
    if i < s.len() && is_ws_byte(s[i]) {
        skip_ws(s, i + 1)
    } else {
        i
    }
}

/// The exclusive end of the maximal letter/underscore run starting at `i`.
pub open spec fn letter_run_end(s: Seq<u8>, i: int) -> int
    decreases s.len() - i,
{
    if i < s.len() && is_letter_byte(s[i]) {
        letter_run_end(s, i + 1)
    } else {
        i
    }
}

/// The exclusive end of the maximal digit run starting at `i`.
pub open spec fn digit_run_end(s: Seq<u8>, i: int) -> int
    decreases s.len() - i,
{
    if i < s.len() && is_digit_byte(s[i]) {
        digit_run_end(s, i + 1)
    } else {
        i
    }
}

/// One scanning step: the token produced at position `i` and the position of
/// the first character not consumed for it. At the sentinel the position does
/// not move, so the step is repeatable there.
pub open spec fn token_step(s: Seq<u8>, i: int) -> (SpecToken, int) {
    let j = skip_ws(s, i);
    let c = cur_byte(s, j);
    if c == 0 {
        (SpecToken { kind: TokenType::EOF, text: seq![c as char] }, j)
    } else if punct_kind(c) is Some {
        (SpecToken { kind: punct_kind(c)->0, text: seq![c as char] }, j + 1)
    } else if is_letter_byte(c) {
        let k = letter_run_end(s, j);
        let text = chars_of(s.subrange(j, k));
        (SpecToken { kind: word_kind(text), text }, k)
    } else if is_digit_byte(c) {
        let k = digit_run_end(s, j);
        (SpecToken { kind: TokenType::Int, text: chars_of(s.subrange(j, k)) }, k)
    } else {
        (SpecToken { kind: TokenType::Illegal, text: seq![c as char] }, j + 1)
    }
}

/// All tokens from position `i` on, in source order, without the terminal
/// end-of-input token.
pub open spec fn spec_tokens(s: Seq<u8>, i: int) -> Seq<SpecToken>
    decreases s.len() - i,
        via spec_tokens_decreases
{
    let (t, p) = token_step(s, i);
    if t.kind == TokenType::EOF {
        Seq::empty()
    } else {
        seq![t] + spec_tokens(s, p)
    }
}

#[via_fn]
proof fn spec_tokens_decreases(s: Seq<u8>, i: int) {
    lemma_token_step_bounds(s, i);
}

// ---------------------------------------------------------------------------
// Bounds of the scanning relation
// ---------------------------------------------------------------------------

/// Whitespace elision never moves the cursor backwards, never past the end,
/// and stops exactly at the first non-whitespace byte.
pub proof fn lemma_skip_ws_bounds(s: Seq<u8>, i: int)
    ensures
        i <= skip_ws(s, i),
        skip_ws(s, i) <= s.len() || skip_ws(s, i) == i,
        !is_ws_byte(cur_byte(s, skip_ws(s, i))),
        forall|k: int| i <= k < skip_ws(s, i) ==> is_ws_byte(#[trigger] s[k]),
    decreases s.len() - i,
{
    if i < s.len() && is_ws_byte(s[i]) {
        lemma_skip_ws_bounds(s, i + 1);
    }
}

/// The letter run starting at `i` begins at `i`, ends no later than the end of
/// the source, consists of letters only, and is maximal.
pub proof fn lemma_letter_run_bounds(s: Seq<u8>, i: int)
    ensures
        i <= letter_run_end(s, i),
        letter_run_end(s, i) <= s.len() || letter_run_end(s, i) == i,
        is_letter_byte(cur_byte(s, i)) ==> i < letter_run_end(s, i),
        !is_letter_byte(cur_byte(s, letter_run_end(s, i))),
        forall|k: int| i <= k < letter_run_end(s, i) ==> is_letter_byte(#[trigger] s[k]),
    decreases s.len() - i,
{
    if i < s.len() && is_letter_byte(s[i]) {
        lemma_letter_run_bounds(s, i + 1);
    }
}

/// The digit run starting at `i` begins at `i`, ends no later than the end of
/// the source, consists of digits only, and is maximal.
pub proof fn lemma_digit_run_bounds(s: Seq<u8>, i: int)
    ensures
        i <= digit_run_end(s, i),
        digit_run_end(s, i) <= s.len() || digit_run_end(s, i) == i,
        is_digit_byte(cur_byte(s, i)) ==> i < digit_run_end(s, i),
        !is_digit_byte(cur_byte(s, digit_run_end(s, i))),
        forall|k: int| i <= k < digit_run_end(s, i) ==> is_digit_byte(#[trigger] s[k]),
    decreases s.len() - i,
{
    if i < s.len() && is_digit_byte(s[i]) {
        lemma_digit_run_bounds(s, i + 1);
    }
}

/// A scanning step never moves the cursor backwards, and moves it strictly
/// forward whenever the token is not the end-of-input token.
pub proof fn lemma_token_step_bounds(s: Seq<u8>, i: int)
    ensures
        i <= token_step(s, i).1,
        token_step(s, i).0.kind != TokenType::EOF ==> i < token_step(s, i).1 && token_step(
            s,
            i,
        ).1 <= s.len(),
        token_step(s, i).0.kind == TokenType::EOF ==> token_step(s, i).1 == skip_ws(s, i),
{
    lemma_skip_ws_bounds(s, i);
    let j = skip_ws(s, i);
    lemma_letter_run_bounds(s, j);
    lemma_digit_run_bounds(s, j);
}

// ---------------------------------------------------------------------------
// Executable character tests
// ---------------------------------------------------------------------------

/// Whether `c` may stand in an identifier: an ASCII letter or an underscore.
pub fn is_letter(c: char) -> (r: bool)
    ensures
        r == is_letter_char(c),
{
    let u = c as u32;
    ('a' as u32) <= u && u <= ('z' as u32) || ('A' as u32) <= u && u <= ('Z' as u32) || u == (
    '_' as u32)
}

/// Whether `c` is a decimal digit.
pub fn is_number(c: char) -> (r: bool)
    ensures
        r == is_digit_char(c),
{
    let u = c as u32;
    ('0' as u32) <= u && u <= ('9' as u32)
}

/// Looks a scanned literal up in the keyword table: the reserved token for
/// `fn` or `let`, and nothing for any other literal.
pub fn is_keyword(s: &Vec<char>) -> (r: Option<Token>)
    ensures
        match r {
            Some(t) => keyword_kind(s@) == Some(t@.kind) && t@.text == s@,
            None => keyword_kind(s@) is None,
        },
{
    if s.len() == 2 && s[0] == 'f' && s[1] == 'n' {
        let lit = vec!['f', 'n'];
        proof {
            assert(s@ =~= fn_text());
            assert(lit@ =~= fn_text());
        }
        Some(Token(TokenType::Function, lit))
    } else if s.len() == 3 && s[0] == 'l' && s[1] == 'e' && s[2] == 't' {
        let lit = vec!['l', 'e', 't'];
        proof {
            assert(s@ =~= let_text());
            assert(lit@ =~= let_text());
        }
        Some(Token(TokenType::Let, lit))
    } else {
        None
    }
}

// ---------------------------------------------------------------------------
// The scanner
// ---------------------------------------------------------------------------

/// The scanner: the source buffer and a one-character lookahead window over
/// it. `position` points at the character under examination, `read_position`
/// at the next one to read, and `ch` caches the character at `position` — the
/// sentinel 0 once the source is exhausted.
pub struct Lexer {
    input: Vec<u8>,
    position: usize,
    read_position: usize,
    ch: u8,
}

impl Lexer {
    /// The source buffer being scanned.
    pub closed spec fn src(self) -> Seq<u8> {
        self.input@
    }

    /// The index of the character under examination.
    pub closed spec fn pos(self) -> int {
        self.position as int
    }

    /// The index of the next character to read: the lookahead cursor.
    pub closed spec fn lookahead(self) -> int {
        self.read_position as int
    }

    /// The character under examination, the sentinel 0 once the source is
    /// exhausted.
    pub closed spec fn cur(self) -> u8 {
        self.ch
    }

    /// The cursor invariant: the lookahead stands one past the current
    /// character, the cursor never leaves the buffer (plus its end), and `ch`
    /// holds exactly the byte under the cursor, 0 at the end.
    pub closed spec fn wf(self) -> bool {
        &&& self.read_position == self.position + 1
        &&& self.position <= self.input@.len()
        &&& self.input@.len() < usize::MAX
        &&& self.ch == cur_byte(self.input@, self.position as int)
    }

    /// Builds a scanner over `input` with the cursor on the first character.
    pub fn new(input: &str) -> (r: Lexer)
        requires
            input.spec_bytes().len() < usize::MAX,
        ensures
            r.wf(),
            r.src() == input.spec_bytes(),
            r.pos() == 0,
    {
        let mut lexer = Lexer {
            input: vstd::slice::slice_to_vec(input.as_bytes()),
            position: 0,
            read_position: 0,
            ch: 0,
        };
        lexer.read_char();
        lexer
    }

    /// Advances the lookahead window one character: `position` moves to
    /// `read_position`, and `ch` is refreshed from the buffer — the sentinel 0
    /// once the buffer is exhausted.
    pub fn read_char(&mut self)
        requires
            old(self).src().len() < usize::MAX,
            old(self).lookahead() <= old(self).src().len(),
            old(self).lookahead() == old(self).pos() + 1 || (old(self).pos() == 0 && old(
                self,
            ).lookahead() == 0),
        ensures
            final(self).src() == old(self).src(),
            final(self).pos() == old(self).lookahead(),
            final(self).lookahead() == old(self).lookahead() + 1,
            final(self).cur() == cur_byte(final(self).src(), final(self).pos()),
    {
        if self.read_position >= self.input.len() {
            self.ch = 0;
        } else {
            self.ch = self.input[self.read_position];
        }
        self.position = self.read_position;
        self.read_position += 1;
    }

    /// Elides whitespace: moves the cursor to the first byte that is not a
    /// space, tab, newline or carriage return. Produces no token.
    pub fn consume_whitespace(&mut self)
        requires
            old(self).wf(),
        ensures
            final(self).wf(),
            final(self).src() == old(self).src(),
            final(self).pos() == skip_ws(old(self).src(), old(self).pos()),
    {
        while self.ch == (' ' as u8) || self.ch == ('\t' as u8) || self.ch == ('\n' as u8)
            || self.ch == ('\r' as u8)
            invariant
                self.wf(),
                self.input@ == old(self).input@,
                skip_ws(self.input@, self.position as int) == skip_ws(
                    old(self).input@,
                    old(self).position as int,
                ),
            decreases self.input@.len() - self.position,
        {
            self.read_char();
        }
    }

    /// Scans the maximal letter/underscore run under the cursor and hands its
    /// text back; afterwards the cursor stands on the first character past the
    /// run.
    pub fn read_identifier(&mut self) -> (r: Vec<char>)
        requires
            old(self).wf(),
            is_letter_byte(cur_byte(old(self).src(), old(self).pos())),
        ensures
            final(self).wf(),
            final(self).src() == old(self).src(),
            final(self).pos() == letter_run_end(old(self).src(), old(self).pos()),
            r@ == chars_of(old(self).src().subrange(old(self).pos(), final(self).pos())),
    {
        let position = self.position;
        while is_letter(self.ch as char)
            invariant
                self.wf(),
                self.input@ == old(self).input@,
                position <= self.position,
                letter_run_end(self.input@, self.position as int) == letter_run_end(
                    old(self).input@,
                    old(self).position as int,
                ),
            decreases self.input@.len() - self.position,
        {
            self.read_char();
        }
        let mut value: Vec<char> = Vec::new();
        let mut i: usize = position;
        while i < self.position
            invariant
                position <= i <= self.position <= self.input@.len(),
                self.input@ == old(self).input@,
                value@ == chars_of(self.input@.subrange(position as int, i as int)),
            decreases self.position - i,
        {
            value.push(self.input[i] as char);
            proof {
                assert(value@ =~= chars_of(self.input@.subrange(position as int, i + 1)));
            }
            i += 1;
        }
        value
    }

    /// Scans the maximal digit run under the cursor and hands its text back;
    /// afterwards the cursor stands on the first character past the run.
    pub fn read_number(&mut self) -> (r: Vec<char>)
        requires
            old(self).wf(),
            is_digit_byte(cur_byte(old(self).src(), old(self).pos())),
        ensures
            final(self).wf(),
            final(self).src() == old(self).src(),
            final(self).pos() == digit_run_end(old(self).src(), old(self).pos()),
            r@ == chars_of(old(self).src().subrange(old(self).pos(), final(self).pos())),
    {
        let position = self.position;
        while is_number(self.ch as char)
            invariant
                self.wf(),
                self.input@ == old(self).input@,
                position <= self.position,
                digit_run_end(self.input@, self.position as int) == digit_run_end(
                    old(self).input@,
                    old(self).position as int,
                ),
            decreases self.input@.len() - self.position,
        {
            self.read_char();
        }
        let mut value: Vec<char> = Vec::new();
        let mut i: usize = position;
        while i < self.position
            invariant
                position <= i <= self.position <= self.input@.len(),
                self.input@ == old(self).input@,
                value@ == chars_of(self.input@.subrange(position as int, i as int)),
            decreases self.position - i,
        {
            value.push(self.input[i] as char);
            proof {
                assert(value@ =~= chars_of(self.input@.subrange(position as int, i + 1)));
            }
            i += 1;
        }
        value
    }

    /// One scanning step: elides whitespace, then builds exactly one token
    /// from the character under the cursor — fixed punctuation, an identifier
    /// or keyword, an integer literal, an Illegal token for any other byte, or
    /// the end-of-input token at the sentinel. The cursor ends on the first character not
    /// consumed; at the sentinel it does not move, so the call is repeatable
    /// there.
    pub fn next_token(&mut self) -> (r: Token)
        requires
            old(self).wf(),
        ensures
            final(self).wf(),
            final(self).src() == old(self).src(),
            r@ == token_step(old(self).src(), old(self).pos()).0,
            final(self).pos() == token_step(old(self).src(), old(self).pos()).1,
    {
        self.consume_whitespace();
        let token: Token;
        if self.ch == ('=' as u8) {
            token = Token(TokenType::Assign, vec![self.ch as char]);
        } else if self.ch == (';' as u8) {
            token = Token(TokenType::Semicolon, vec![self.ch as char]);
        } else if self.ch == ('(' as u8) {
            token = Token(TokenType::LParen, vec![self.ch as char]);
        } else if self.ch == (')' as u8) {
            token = Token(TokenType::RParen, vec![self.ch as char]);
        } else if self.ch == (',' as u8) {
            token = Token(TokenType::Comma, vec![self.ch as char]);
        } else if self.ch == ('+' as u8) {
            token = Token(TokenType::Plus, vec![self.ch as char]);
        } else if self.ch == ('{' as u8) {
            token = Token(TokenType::LBrace, vec![self.ch as char]);
        } else if self.ch == ('}' as u8) {
            token = Token(TokenType::RBrace, vec![self.ch as char]);
        } else if self.ch == 0 {
            let t = Token(TokenType::EOF, vec![self.ch as char]);
            proof {
                assert(t@.text =~= seq![(0 as u8) as char]);
            }
            return t;
        } else if is_letter(self.ch as char) {
            let value = self.read_identifier();
            match is_keyword(&value) {
                Some(t) => {
                    return t;
                },
                None => {
                    return Token(TokenType::Ident, value);
                },
            }
        } else if is_number(self.ch as char) {
            return Token(TokenType::Int, self.read_number());
        } else {
            token = Token(TokenType::Illegal, vec![self.ch as char]);
        }
        proof {
            assert(token@.text =~= seq![self.ch as char]);
        }
        self.read_char();
        token
    }

    /// Drives the scanner over the whole source: every token in source order,
    /// stopping at — and excluding — the terminal end-of-input token.
    pub fn lex(self) -> (r: Vec<Token>)
        requires
            self.wf(),
        ensures
            r.deep_view() == spec_tokens(self.src(), self.pos()),
            forall|i: int|
                0 <= i < r.deep_view().len() ==> (#[trigger] r.deep_view()[i]).kind
                    != TokenType::EOF,
    {
        let mut lexer = self;
        let ghost s = lexer.input@;
        let ghost p0 = lexer.position as int;
        let mut token = lexer.next_token();
        let mut tokens: Vec<Token> = Vec::new();
        proof {
            lemma_token_step_bounds(s, p0);
            assert(tokens.deep_view() =~= Seq::<SpecToken>::empty());
            assert(spec_tokens(s, p0) =~= tokens.deep_view() + (if token@.kind == TokenType::EOF {
                Seq::<SpecToken>::empty()
            } else {
                seq![token@] + spec_tokens(s, lexer.position as int)
            }));
        }
        while token.0 != TokenType::EOF
            invariant
                lexer.wf(),
                lexer.input@ == s,
                spec_tokens(s, p0) == tokens.deep_view() + (if token@.kind == TokenType::EOF {
                    Seq::<SpecToken>::empty()
                } else {
                    seq![token@] + spec_tokens(s, lexer.position as int)
                }),
            decreases s.len() - lexer.position + (if token@.kind == TokenType::EOF {
                0int
            } else {
                1int
            }),
        {
            let ghost prev = tokens.deep_view();
            let ghost tv = token@;
            let ghost p = lexer.position as int;
            tokens.push(token);
            proof {
                assert(tokens.deep_view() =~= prev.push(tv));
                lemma_token_step_bounds(s, p);
            }
            token = lexer.next_token();
            proof {
                assert(spec_tokens(s, p0) =~= tokens.deep_view() + (if token@.kind
                    == TokenType::EOF {
                    Seq::<SpecToken>::empty()
                } else {
                    seq![token@] + spec_tokens(s, lexer.position as int)
                }));
            }
        }
        proof {
            assert(spec_tokens(s, p0) =~= tokens.deep_view());
            crate::laws::lemma_no_eof_in_output(s, p0);
        }
        tokens
    }
}

} // verus!
