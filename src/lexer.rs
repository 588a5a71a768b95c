//! Lexing: source bytes to tokens. The `scan` spec function says what one step reads;
//! `Lexer` performs those steps one at a time.

use vstd::prelude::*;
use vstd::slice::{slice_subrange, slice_to_vec};
use vstd::string::StringSliceAdditionalSpecFns;

use crate::token::{Token, TokenView};

verus! {

/// Why a run of source bytes could not become a token.
#[derive(Debug, Clone, Copy, PartialEq, Eq)]
pub enum LexError {
    /// A run of digits whose value does not fit in an `i64`.
    IntegerOverflow,
}

/// What the lexer reads at one step: a token, or the failure to read one.
pub type Lexeme = Result<Token, LexError>;

/// The value of a `Lexeme`.
pub type LexemeView = Result<TokenView, LexError>;

pub open spec fn lexeme_view(l: Lexeme) -> LexemeView {
    match l {
        Ok(t) => Ok(t@),
        Err(e) => Err(e),
    }
}

/// The byte at `i`, or 0 past either end.
pub open spec fn byte_at(s: Seq<u8>, i: int) -> u8 {
    if 0 <= i < s.len() {
        s[i]
    } else {
        0
    }
}

pub open spec fn space_byte(b: u8) -> bool {
    // space, tab, carriage return, line feed
    b == 32 || b == 9 || b == 13 || b == 10
}

pub open spec fn letter_byte(b: u8) -> bool {
    // 'a'..='z', 'A'..='Z', '_'
    (97 <= b && b <= 122) || (65 <= b && b <= 90) || b == 95
}

pub open spec fn digit_byte(b: u8) -> bool {
    // '0'..='9'
    48 <= b && b <= 57
}

/// The first position at or after `p` that does not hold a space.
pub open spec fn skip_spaces(s: Seq<u8>, p: nat) -> nat
    decreases s.len() - p,
{
    if p < s.len() && space_byte(s[p as int]) {
        skip_spaces(s, p + 1)
    } else {
        p
    }
}

/// The end of the maximal run of letters that starts at `p`.
pub open spec fn letters_end(s: Seq<u8>, p: nat) -> nat
    decreases s.len() - p,
{
    if p < s.len() && letter_byte(s[p as int]) {
        letters_end(s, p + 1)
    } else {
        p
    }
}

/// The end of the maximal run of digits that starts at `p`.
pub open spec fn digits_end(s: Seq<u8>, p: nat) -> nat
    decreases s.len() - p,
{
    if p < s.len() && digit_byte(s[p as int]) {
        digits_end(s, p + 1)
    } else {
        p
    }
}

/// The base-10 value of a sequence of digit bytes.
pub open spec fn decimal_value(d: Seq<u8>) -> nat
    decreases d.len(),
{
    if d.len() == 0 {
        0
    } else {
        decimal_value(d.drop_last()) * 10 + (d.last() - 48) as nat
    }
}

/// ASCII bytes read as characters.
pub open spec fn ascii_chars(b: Seq<u8>) -> Seq<char> {
    b.map_values(|x: u8| x as char)
}

/// The keyword spelled by `name`, if it is one.
pub open spec fn keyword(name: Seq<char>) -> Option<TokenView> {
    if name == seq!['f', 'n'] {
        Some(TokenView::Function)
    } else if name == seq!['l', 'e', 't'] {
        Some(TokenView::Let)
    } else if name == seq!['i', 'f'] {
        Some(TokenView::If)
    } else if name == seq!['e', 'l', 's', 'e'] {
        Some(TokenView::Else)
    } else if name == seq!['r', 'e', 't', 'u', 'r', 'n'] {
        Some(TokenView::Return)
    } else if name == seq!['t', 'r', 'u', 'e'] {
        Some(TokenView::True)
    } else if name == seq!['f', 'a', 'l', 's', 'e'] {
        Some(TokenView::False)
    } else {
        None
    }
}

/// The token for a word: its keyword, or else an identifier carrying it.
pub open spec fn word_token(name: Seq<char>) -> TokenView {
    match keyword(name) {
        Some(t) => t,
        None => TokenView::Ident(name),
    }
}

/// The token of a byte that stands alone (not `=` or `!`, which may start two-byte operators).
pub open spec fn single_byte_token(b: u8) -> Option<TokenView> {
    if b == 43 {  // '+'
        Some(TokenView::Plus)
    } else if b == 45 {  // '-'
        Some(TokenView::Minus)
    } else if b == 42 {  // '*'
        Some(TokenView::Asterisk)
    } else if b == 47 {  // '/'
        Some(TokenView::Slash)
    } else if b == 60 {  // '<'
        Some(TokenView::LT)
    } else if b == 62 {  // '>'
        Some(TokenView::GT)
    } else if b == 40 {  // '('
        Some(TokenView::LParen)
    } else if b == 41 {  // ')'
        Some(TokenView::RParen)
    } else if b == 123 {  // '{'
        Some(TokenView::LBrace)
    } else if b == 125 {  // '}'
        Some(TokenView::RBrace)
    } else if b == 44 {  // ','
        Some(TokenView::Comma)
    } else if b == 59 {  // ';'
        Some(TokenView::Semicolon)
    } else {
        None
    }
}

/// One step of lexing from position `p`: what is read, and the position after it.
pub open spec fn scan(s: Seq<u8>, p: nat) -> (LexemeView, nat) {
    let q = skip_spaces(s, p);
    if q >= s.len() {
        (Ok(TokenView::Eof), q)
    } else {
        let c = s[q as int];
        if c == 61 {  // '='
            if byte_at(s, q as int + 1) == 61 {  // '='
                (Ok(TokenView::Eq), q + 2)
            } else {
                (Ok(TokenView::Assign), q + 1)
            }
        } else if c == 33 {  // '!'
            if byte_at(s, q as int + 1) == 61 {  // '='
                (Ok(TokenView::NotEq), q + 2)
            } else {
                (Ok(TokenView::Bang), q + 1)
            }
        } else if single_byte_token(c) is Some {
            (Ok(single_byte_token(c)->0), q + 1)
        } else if letter_byte(c) {
            let e = letters_end(s, q);
            (Ok(word_token(ascii_chars(s.subrange(q as int, e as int)))), e)
        } else if digit_byte(c) {
            let e = digits_end(s, q);
            let v = decimal_value(s.subrange(q as int, e as int));
            if v <= i64::MAX {
                (Ok(TokenView::Int(v as i64)), e)
            } else {
                (Err(LexError::IntegerOverflow), e)
            }
        } else {
            (Ok(TokenView::Illegal), q + 1)
        }
    }
}

/// Everything lexed from position `p` up to and including the end marker.
pub open spec fn lex_from(s: Seq<u8>, p: nat) -> Seq<LexemeView>
    decreases s.len() - p,
    via lex_from_decreases
{
    let (l, q) = scan(s, p);
    if l matches Ok(TokenView::Eof) {
        seq![l]
    } else {
        seq![l] + lex_from(s, q)
    }
}

/// The lexemes from index `m` on; once past the end, the end marker alone.
pub open spec fn lexemes_from(ts: Seq<LexemeView>, m: nat) -> Seq<LexemeView> {
    if m < ts.len() {
        ts.subrange(m as int, ts.len() as int)
    } else {
        seq![Ok(TokenView::Eof)]
    }
}

/// Reading one step from `p` hands out the first of `lex_from(s, p)` and leaves the rest.
pub proof fn lemma_lex_step(s: Seq<u8>, p: nat)
    ensures
        lex_from(s, p).len() >= 1,
        lex_from(s, p)[0] == scan(s, p).0,
        lex_from(s, scan(s, p).1) == lexemes_from(lex_from(s, p), 1),
{
    let (l, q) = scan(s, p);
    lemma_skip_spaces_bounds(s, p);
    if l matches Ok(TokenView::Eof) {
        lemma_skip_spaces_bounds(s, q);
        assert(scan(s, q).0 matches Ok(TokenView::Eof));
        assert(lex_from(s, q) =~= seq![Ok(TokenView::Eof)]);
    } else {
        lemma_scan_advances(s, p);
        lemma_lex_from_nonempty(s, q);
        assert(lex_from(s, p) == seq![l] + lex_from(s, q));
        assert(lexemes_from(lex_from(s, p), 1) =~= lex_from(s, q));
    }
}

proof fn lemma_lex_from_nonempty(s: Seq<u8>, p: nat)
    ensures
        lex_from(s, p).len() >= 1,
{
    let (l, q) = scan(s, p);
    if !(l matches Ok(TokenView::Eof)) {
        assert(lex_from(s, p) == seq![l] + lex_from(s, q));
    }
}

#[via_fn]
proof fn lex_from_decreases(s: Seq<u8>, p: nat) {
    lemma_scan_advances(s, p);
}

proof fn lemma_skip_spaces_bounds(s: Seq<u8>, p: nat)
    ensures
        p <= skip_spaces(s, p),
        p <= s.len() ==> skip_spaces(s, p) <= s.len(),
    decreases s.len() - p,
{
    if p < s.len() && space_byte(s[p as int]) {
        lemma_skip_spaces_bounds(s, p + 1);
    }
}

proof fn lemma_letters_end_bounds(s: Seq<u8>, p: nat)
    ensures
        p <= letters_end(s, p),
        p <= s.len() ==> letters_end(s, p) <= s.len(),
        p < s.len() && letter_byte(s[p as int]) ==> p < letters_end(s, p),
        forall|i: int| p <= i < letters_end(s, p) ==> letter_byte(#[trigger] s[i]),
        letters_end(s, p) < s.len() ==> !letter_byte(s[letters_end(s, p) as int]),
    decreases s.len() - p,
{
    if p < s.len() && letter_byte(s[p as int]) {
        lemma_letters_end_bounds(s, p + 1);
    }
}

proof fn lemma_digits_end_bounds(s: Seq<u8>, p: nat)
    ensures
        p <= digits_end(s, p),
        p <= s.len() ==> digits_end(s, p) <= s.len(),
        p < s.len() && digit_byte(s[p as int]) ==> p < digits_end(s, p),
        forall|i: int| p <= i < digits_end(s, p) ==> digit_byte(#[trigger] s[i]),
        digits_end(s, p) < s.len() ==> !digit_byte(s[digits_end(s, p) as int]),
    decreases s.len() - p,
{
    if p < s.len() && digit_byte(s[p as int]) {
        lemma_digits_end_bounds(s, p + 1);
    }
}

/// Once a step reads the end marker, every later step reads it again without moving.
pub proof fn lemma_end_marker_repeats(s: Seq<u8>, p: nat)
    requires
        scan(s, p).0 matches Ok(TokenView::Eof),
    ensures
        scan(s, scan(s, p).1) == scan(s, p),
{
    lemma_skip_spaces_bounds(s, p);
}

/// A step that reads anything but the end marker moves forward and stays within the input.
proof fn lemma_scan_advances(s: Seq<u8>, p: nat)
    ensures
        p <= scan(s, p).1,
        p <= s.len() ==> scan(s, p).1 <= s.len(),
        !(scan(s, p).0 matches Ok(TokenView::Eof)) ==> p < scan(s, p).1 <= s.len(),
{
    lemma_skip_spaces_bounds(s, p);
    let q = skip_spaces(s, p);
    if q < s.len() {
        lemma_letters_end_bounds(s, q);
        lemma_digits_end_bounds(s, q);
    }
}

/// Reads source bytes and hands out one token at a time, never looking back.
pub struct Lexer {
    input: Vec<u8>,
    /// Index of `ch` in `input`; the length of `input` once everything is read.
    position: usize,
    /// The byte at `position`, or 0 at the end.
    ch: u8,
}

impl Lexer {
    /// The bytes being read.
    pub closed spec fn source(&self) -> Seq<u8> {
        self.input@
    }

    /// How far the lexer has read.
    pub closed spec fn cursor(&self) -> nat {
        self.position as nat
    }

    pub closed spec fn wf(&self) -> bool {
        &&& self.position <= self.input.len()
        &&& self.ch == byte_at(self.input@, self.position as int)
    }

    /// Everything this lexer is still to hand out, up to and including the end marker.
    pub open spec fn pending(&self) -> Seq<LexemeView> {
        lex_from(self.source(), self.cursor())
    }

    pub fn new(input: &str) -> (l: Lexer)
        ensures
            l.wf(),
            l.source() == input.spec_bytes(),
            l.cursor() == 0,
    {
        let input = slice_to_vec(input.as_bytes());
        let ch = if input.len() > 0 {
            input[0]
        } else {
            0
        };
        Lexer { input, position: 0, ch }
    }

    fn consume_char(&mut self)
        requires
            old(self).wf(),
            old(self).position < old(self).input.len(),
        ensures
            final(self).wf(),
            final(self).input == old(self).input,
            final(self).position == old(self).position + 1,
    {
        self.position = self.position + 1;
        self.ch = if self.position < self.input.len() {
            self.input[self.position]
        } else {
            0
        };
    }

    /// Whether the byte after the current one is `peek` (0 stands for the end).
    fn peek_char(&self, peek: u8) -> (r: bool)
        requires
            self.wf(),
        ensures
            r == (byte_at(self.input@, self.position + 1) == peek),
    {
        if self.position >= self.input.len() || self.input.len() - self.position <= 1 {
            0 == peek
        } else {
            self.input[self.position + 1] == peek
        }
    }

    fn skip_whitespaces(&mut self)
        requires
            old(self).wf(),
        ensures
            final(self).wf(),
            final(self).input == old(self).input,
            final(self).position == skip_spaces(old(self).input@, old(self).position as nat),
    {
        while self.ch == 32 || self.ch == 9 || self.ch == 10 || self.ch == 13
            invariant
                self.wf(),
                self.input == old(self).input,
                skip_spaces(self.input@, self.position as nat) == skip_spaces(
                    self.input@,
                    old(self).position as nat,
                ),
            decreases self.input.len() - self.position,
        {
            self.consume_char();
        }
    }

    fn consume_ident(&mut self) -> (r: String)
        requires
            old(self).wf(),
        ensures
            final(self).wf(),
            final(self).input == old(self).input,
            final(self).position == letters_end(old(self).input@, old(self).position as nat),
            r@ == ascii_chars(
                old(self).input@.subrange(old(self).position as int, final(self).position as int),
            ),
    {
        let current_position = self.position;
        proof {
            lemma_letters_end_bounds(self.input@, self.position as nat);
        }
        while is_letter(self.ch)
            invariant
                self.wf(),
                self.input == old(self).input,
                current_position == old(self).position,
                current_position <= self.position,
                letters_end(self.input@, self.position as nat) == letters_end(
                    self.input@,
                    current_position as nat,
                ),
            decreases self.input.len() - self.position,
        {
            self.consume_char();
        }
        proof {
            lemma_letters_end_bounds(self.input@, self.position as nat);
        }
        let word = slice_subrange(self.input.as_slice(), current_position, self.position);
        assert forall|i: int| 0 <= i < word@.len() implies word@[i] < 128 by {
            assert(letter_byte(self.input@[current_position + i]));
        }
        ascii_string(word)
    }

    fn consume_number(&mut self) -> (r: Lexeme)
        requires
            old(self).wf(),
        ensures
            final(self).wf(),
            final(self).input == old(self).input,
            final(self).position == digits_end(old(self).input@, old(self).position as nat),
            ({
                let v = decimal_value(
                    old(self).input@.subrange(
                        old(self).position as int,
                        final(self).position as int,
                    ),
                );
                lexeme_view(r) == if v <= i64::MAX {
                    Ok::<TokenView, LexError>(TokenView::Int(v as i64))
                } else {
                    Err(LexError::IntegerOverflow)
                }
            }),
    {
        let start_position = self.position;
        let mut value: i64 = 0;
        let mut overflow = false;
        while is_digit(self.ch)
            invariant
                self.wf(),
                self.input == old(self).input,
                start_position == old(self).position,
                start_position <= self.position,
                digits_end(self.input@, self.position as nat) == digits_end(
                    self.input@,
                    start_position as nat,
                ),
                ({
                    let v = decimal_value(
                        self.input@.subrange(start_position as int, self.position as int),
                    );
                    if overflow {
                        v > i64::MAX
                    } else {
                        v == value
                    }
                }),
            decreases self.input.len() - self.position,
        {
            let ghost before = self.input@.subrange(start_position as int, self.position as int);
            let d = self.ch - 48;
            if !overflow {
                match value.checked_mul(10) {
                    Some(m) => match m.checked_add(d as i64) {
                        Some(v) => {
                            value = v;
                        },
                        None => {
                            overflow = true;
                        },
                    },
                    None => {
                        overflow = true;
                    },
                }
            }
            self.consume_char();
            let ghost after = self.input@.subrange(start_position as int, self.position as int);
            assert(after.drop_last() =~= before);
        }
        if overflow {
            Err(LexError::IntegerOverflow)
        } else {
            Ok(Token::Int(value))
        }
    }

    /// Reads the next token, or reports a digit run too large for an `i64`.
    /// At the end of the input it keeps reporting the end marker.
    pub fn next_lexeme(&mut self) -> (r: Lexeme)
        requires
            old(self).wf(),
        ensures
            final(self).wf(),
            final(self).source() == old(self).source(),
            (lexeme_view(r), final(self).cursor()) == scan(old(self).source(), old(self).cursor()),
    {
        self.skip_whitespaces();
        if self.position >= self.input.len() {
            return Ok(Token::Eof);
        }
        let tok = match self.ch {
            61 => {  // '='
                if self.peek_char(61) {
                    self.consume_char();
                    Token::Eq
                } else {
                    Token::Assign
                }
            },
            33 => {  // '!'
                if self.peek_char(61) {
                    self.consume_char();
                    Token::NotEq
                } else {
                    Token::Bang
                }
            },
            43 => Token::Plus,  // '+'
            45 => Token::Minus,  // '-'
            42 => Token::Asterisk,  // '*'
            47 => Token::Slash,  // '/'
            60 => Token::LT,  // '<'
            62 => Token::GT,  // '>'
            40 => Token::LParen,  // '('
            41 => Token::RParen,  // ')'
            123 => Token::LBrace,  // '{'
            125 => Token::RBrace,  // '}'
            44 => Token::Comma,  // ','
            59 => Token::Semicolon,  // ';'
            _ => {
                if is_letter(self.ch) {
                    let ident_literal = self.consume_ident();
                    return Ok(lookup_ident(&ident_literal));
                } else if is_digit(self.ch) {
                    return self.consume_number();
                } else {
                    Token::Illegal
                }
            },
        };
        self.consume_char();
        Ok(tok)
    }

    /// Returns the next token and advances past it; a digit run too large for an
    /// `i64` comes out as `Illegal`. At the end of the input it keeps returning `Eof`.
    pub fn next_token(&mut self) -> (t: Token)
        requires
            old(self).wf(),
        ensures
            final(self).wf(),
            final(self).source() == old(self).source(),
            final(self).cursor() == scan(old(self).source(), old(self).cursor()).1,
            t@ == match scan(old(self).source(), old(self).cursor()).0 {
                Ok(v) => v,
                Err(_) => TokenView::Illegal,
            },
    {
        match self.next_lexeme() {
            Ok(t) => t,
            Err(_) => Token::Illegal,
        }
    }
}

/// What a line lexes to, up to but not including the end marker; a digit run too
/// large for an `i64` stays an error in place.
pub fn lex_line(line: &str) -> (r: Vec<Lexeme>)
    ensures
        r@.map_values(|l: Lexeme| lexeme_view(l)) == lex_from(line.spec_bytes(), 0).drop_last(),
{
    let mut l = Lexer::new(line);
    let mut out: Vec<Lexeme> = Vec::new();
    let ghost all = l.pending();
    let mut done = false;
    proof {
        lemma_lex_from_nonempty(l.source(), 0);
    }
    while !done
        invariant
            l.wf(),
            l.source() == line.spec_bytes(),
            l.pending().len() >= 1,
            !done ==> all.drop_last() == out@.map_values(|l: Lexeme| lexeme_view(l))
                + l.pending().drop_last(),
            done ==> all.drop_last() == out@.map_values(|l: Lexeme| lexeme_view(l)),
        decreases l.source().len() - l.cursor(), if done { 0nat } else { 1nat },
    {
        let ghost before = l.pending();
        proof {
            lemma_lex_step(l.source(), l.cursor());
            lemma_scan_advances(l.source(), l.cursor());
            lemma_lex_from_nonempty(l.source(), scan(l.source(), l.cursor()).1);
        }
        let x = l.next_lexeme();
        match x {
            Ok(Token::Eof) => {
                assert(before =~= seq![before[0]]);
                assert(before.drop_last() =~= Seq::<LexemeView>::empty());
                assert(out@.map_values(|l: Lexeme| lexeme_view(l)) + Seq::<LexemeView>::empty()
                    =~= out@.map_values(|l: Lexeme| lexeme_view(l)));
                done = true;
            },
            _ => {
                let ghost seen = out@.map_values(|l: Lexeme| lexeme_view(l));
                out.push(x);
                assert(out@.map_values(|l: Lexeme| lexeme_view(l)) =~= seen.push(before[0]));
                assert(before =~= seq![before[0]] + l.pending());
                assert(before.drop_last() =~= seq![before[0]] + l.pending().drop_last());
            },
        }
    }
    out
}

/// The keyword token spelled by `name`, or an identifier carrying it.
fn lookup_ident(name: &String) -> (t: Token)
    ensures
        t@ == word_token(name@),
{
    proof {
        reveal_strlit("fn");
        assert("fn"@ =~= seq!['f', 'n']);
        reveal_strlit("let");
        assert("let"@ =~= seq!['l', 'e', 't']);
        reveal_strlit("if");
        assert("if"@ =~= seq!['i', 'f']);
        reveal_strlit("else");
        assert("else"@ =~= seq!['e', 'l', 's', 'e']);
        reveal_strlit("return");
        assert("return"@ =~= seq!['r', 'e', 't', 'u', 'r', 'n']);
        reveal_strlit("true");
        assert("true"@ =~= seq!['t', 'r', 'u', 'e']);
        reveal_strlit("false");
        assert("false"@ =~= seq!['f', 'a', 'l', 's', 'e']);
    }
    if *name == "fn".to_owned() {
        Token::Function
    } else if *name == "let".to_owned() {
        Token::Let
    } else if *name == "if".to_owned() {
        Token::If
    } else if *name == "else".to_owned() {
        Token::Else
    } else if *name == "return".to_owned() {
        Token::Return
    } else if *name == "true".to_owned() {
        Token::True
    } else if *name == "false".to_owned() {
        Token::False
    } else {
        Token::Ident(name.clone())
    }
}

fn is_digit(ch: u8) -> (r: bool)
    ensures
        r == digit_byte(ch),
{
    ch >= 48 && ch <= 57
}

fn is_letter(ch: u8) -> (r: bool)
    ensures
        r == letter_byte(ch),
{
    (ch >= 97 && ch <= 122) || (65 <= ch && ch <= 90) || (ch == 95)
}

/// Relies on `String::from_utf8_lossy`: ASCII bytes are valid UTF-8 and decode to
/// one character each, with the same code.
#[verifier::external_body]
fn ascii_string(bytes: &[u8]) -> (r: String)
    requires
        forall|i: int| 0 <= i < bytes@.len() ==> bytes@[i] < 128,
    ensures
        r@ == ascii_chars(bytes@),
{
    String::from_utf8_lossy(bytes).into_owned()
}

/// The decimal digits of `n`, most significant first, without leading zeros.
pub open spec fn decimal_text(n: nat) -> Seq<u8>
    decreases n,
{
    if n < 10 {
        seq![(48 + n) as u8]
    } else {
        decimal_text(n / 10).push((48 + n % 10) as u8)
    }
}

pub open spec fn word_char(c: char) -> bool {
    ('a' <= c && c <= 'z') || ('A' <= c && c <= 'Z') || c == '_'
}

/// Characters written as single bytes.
pub open spec fn char_bytes(w: Seq<char>) -> Seq<u8> {
    w.map_values(|c: char| c as u8)
}

/// How a token is written in source text (the end marker as nothing at all).
pub open spec fn token_text(t: TokenView) -> Seq<u8> {
    match t {
        TokenView::Illegal => Seq::empty(),
        TokenView::Eof => Seq::empty(),
        TokenView::Ident(name) => char_bytes(name),
        TokenView::Int(v) => decimal_text(v as nat),
        TokenView::True => char_bytes(seq!['t', 'r', 'u', 'e']),
        TokenView::False => char_bytes(seq!['f', 'a', 'l', 's', 'e']),
        TokenView::Assign => seq![61],
        TokenView::Plus => seq![43],
        TokenView::Minus => seq![45],
        TokenView::Bang => seq![33],
        TokenView::Asterisk => seq![42],
        TokenView::Slash => seq![47],
        TokenView::Eq => seq![61, 61],
        TokenView::NotEq => seq![33, 61],
        TokenView::LT => seq![60],
        TokenView::GT => seq![62],
        TokenView::Comma => seq![44],
        TokenView::Semicolon => seq![59],
        TokenView::LParen => seq![40],
        TokenView::RParen => seq![41],
        TokenView::LBrace => seq![123],
        TokenView::RBrace => seq![125],
        TokenView::Function => char_bytes(seq!['f', 'n']),
        TokenView::Let => char_bytes(seq!['l', 'e', 't']),
        TokenView::If => char_bytes(seq!['i', 'f']),
        TokenView::Else => char_bytes(seq!['e', 'l', 's', 'e']),
        TokenView::Return => char_bytes(seq!['r', 'e', 't', 'u', 'r', 'n']),
    }
}

/// Whether `token_text` writes the token: every kind but `Illegal`, identifiers that are
/// non-empty words and no keyword, and integers that are not negative.
pub open spec fn has_text(t: TokenView) -> bool {
    match t {
        TokenView::Illegal => false,
        TokenView::Ident(name) => {
            &&& name.len() > 0
            &&& forall|i: int| 0 <= i < name.len() ==> word_char(#[trigger] name[i])
            &&& keyword(name) is None
        },
        TokenView::Int(v) => v >= 0,
        _ => true,
    }
}

/// Lexing the text of a token gives back that token, then the end marker.
pub proof fn lemma_relex_token(t: TokenView)
    requires
        has_text(t),
    ensures
        lex_from(token_text(t), 0) == if t is Eof {
            seq![Ok::<TokenView, LexError>(t)]
        } else {
            seq![Ok(t), Ok(TokenView::Eof)]
        },
{
    let s = token_text(t);
    match t {
        TokenView::Eof => {
            assert(lex_from(s, 0) == seq![Ok::<TokenView, LexError>(t)]);
        },
        TokenView::Ident(name) => {
            lemma_word_round_trip(name);
            lemma_scan_word(s);
            lemma_lex_single(s, t);
        },
        TokenView::Int(v) => {
            lemma_decimal_text(v as nat);
            lemma_scan_number(s);
            lemma_lex_single(s, t);
        },
        TokenView::True | TokenView::False | TokenView::Function | TokenView::Let
        | TokenView::If | TokenView::Else | TokenView::Return => {
            let name = ascii_chars(s);
            assert(name =~= match t {
                TokenView::True => seq!['t', 'r', 'u', 'e'],
                TokenView::False => seq!['f', 'a', 'l', 's', 'e'],
                TokenView::Function => seq!['f', 'n'],
                TokenView::Let => seq!['l', 'e', 't'],
                TokenView::If => seq!['i', 'f'],
                TokenView::Else => seq!['e', 'l', 's', 'e'],
                _ => seq!['r', 'e', 't', 'u', 'r', 'n'],
            });
            lemma_scan_word(s);
            lemma_lex_single(s, t);
        },
        _ => {
            assert(skip_spaces(s, 0) == 0);
            lemma_lex_single(s, t);
        },
    }
}

/// A text that one step reads whole lexes to that token and the end marker.
proof fn lemma_lex_single(s: Seq<u8>, t: TokenView)
    requires
        scan(s, 0) == (Ok::<TokenView, LexError>(t), s.len()),
        !(t is Eof),
    ensures
        lex_from(s, 0) == seq![Ok::<TokenView, LexError>(t), Ok(TokenView::Eof)],
{
    assert(skip_spaces(s, s.len()) == s.len());
    assert(lex_from(s, s.len()) == seq![Ok::<TokenView, LexError>(TokenView::Eof)]);
    assert(lex_from(s, 0) =~= seq![Ok::<TokenView, LexError>(t), Ok(TokenView::Eof)]);
}

/// Word characters survive being written as bytes and read back.
proof fn lemma_word_round_trip(name: Seq<char>)
    requires
        forall|i: int| 0 <= i < name.len() ==> word_char(#[trigger] name[i]),
    ensures
        ascii_chars(char_bytes(name)) == name,
        forall|i: int| 0 <= i < name.len() ==> letter_byte(#[trigger] char_bytes(name)[i]),
{
    assert(ascii_chars(char_bytes(name)) =~= name);
}

/// A non-empty run of letters is read as one word.
proof fn lemma_scan_word(w: Seq<u8>)
    requires
        w.len() > 0,
        forall|i: int| 0 <= i < w.len() ==> letter_byte(#[trigger] w[i]),
    ensures
        scan(w, 0) == (Ok::<TokenView, LexError>(word_token(ascii_chars(w))), w.len()),
{
    lemma_letters_to_end(w, 0);
    assert(w.subrange(0, w.len() as int) =~= w);
    assert(skip_spaces(w, 0) == 0);
}

proof fn lemma_letters_to_end(w: Seq<u8>, p: nat)
    requires
        p <= w.len(),
        forall|i: int| 0 <= i < w.len() ==> letter_byte(#[trigger] w[i]),
    ensures
        letters_end(w, p) == w.len(),
    decreases w.len() - p,
{
    if p < w.len() {
        lemma_letters_to_end(w, p + 1);
    }
}

/// A non-empty run of digits whose value fits is read as one integer.
proof fn lemma_scan_number(w: Seq<u8>)
    requires
        w.len() > 0,
        forall|i: int| 0 <= i < w.len() ==> digit_byte(#[trigger] w[i]),
        decimal_value(w) <= i64::MAX,
    ensures
        scan(w, 0) == (Ok::<TokenView, LexError>(TokenView::Int(decimal_value(w) as i64)), w.len()),
{
    lemma_digits_to_end(w, 0);
    assert(w.subrange(0, w.len() as int) =~= w);
    assert(skip_spaces(w, 0) == 0);
}

proof fn lemma_digits_to_end(w: Seq<u8>, p: nat)
    requires
        p <= w.len(),
        forall|i: int| 0 <= i < w.len() ==> digit_byte(#[trigger] w[i]),
    ensures
        digits_end(w, p) == w.len(),
    decreases w.len() - p,
{
    if p < w.len() {
        lemma_digits_to_end(w, p + 1);
    }
}

/// The decimal text of `n` is a non-empty run of digits whose value is `n`.
proof fn lemma_decimal_text(n: nat)
    ensures
        decimal_text(n).len() > 0,
        forall|i: int| 0 <= i < decimal_text(n).len() ==> digit_byte(#[trigger] decimal_text(n)[i]),
        decimal_value(decimal_text(n)) == n,
    decreases n,
{
    let w = decimal_text(n);
    if n < 10 {
        assert(w.drop_last() =~= Seq::<u8>::empty());
        assert(w.last() == 48 + n);
    } else {
        lemma_decimal_text(n / 10);
        assert(w.drop_last() =~= decimal_text(n / 10));
        assert(w.last() == 48 + n % 10);
        assert(n == (n / 10) * 10 + n % 10);
    }
    assert(decimal_value(w) == decimal_value(w.drop_last()) * 10 + (w.last() - 48) as nat);
}

} // verus!
