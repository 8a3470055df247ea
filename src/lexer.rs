use crate::token::{keyword_type, lookup_ident, Token, TokenType as tt};
use vstd::prelude::*;

verus! {

/// The byte at `i`, or the `0` sentinel outside the input.
pub open spec fn byte_at(s: Seq<u8>, i: int) -> u8 {
    if 0 <= i < s.len() {
        s[i]
    } else {
        0
    }
}

/// Space, tab, newline or carriage return.
pub open spec fn is_ws_byte(b: u8) -> bool {
    b == 32 || b == 9 || b == 10 || b == 13
}

/// An ASCII letter or `_`.
pub open spec fn is_letter_byte(b: u8) -> bool {
    (65 <= b <= 90) || (97 <= b <= 122) || b == 95
}

/// An ASCII digit.
pub open spec fn is_digit_byte(b: u8) -> bool {
    48 <= b <= 57
}

/// The first position at or after `i` that does not hold whitespace.
pub open spec fn skip_ws_from(s: Seq<u8>, i: int) -> int
    decreases s.len() - i,
{
    if 0 <= i < s.len() && is_ws_byte(s[i]) {
        skip_ws_from(s, i + 1)
    } else {
        i
    }
}

/// The end of the maximal run of identifier bytes starting at `i`.
pub open spec fn letters_end(s: Seq<u8>, i: int) -> int
    decreases s.len() - i,
{
    if 0 <= i < s.len() && is_letter_byte(s[i]) {
        letters_end(s, i + 1)
    } else {
        i
    }
}

/// The end of the maximal run of digits starting at `i`.
pub open spec fn digits_end(s: Seq<u8>, i: int) -> int
    decreases s.len() - i,
{
    if 0 <= i < s.len() && is_digit_byte(s[i]) {
        digits_end(s, i + 1)
    } else {
        i
    }
}

/// The category of a one-byte operator or delimiter other than `=` and `!`.
pub open spec fn single_byte_type(c: u8) -> Option<tt> {
    if c == 43 {
        Some(tt::PLUS)  // '+'
    } else if c == 59 {
        Some(tt::SEMICOLON)  // ';'
    } else if c == 40 {
        Some(tt::LPAREN)  // '('
    } else if c == 41 {
        Some(tt::RPAREN)  // ')'
    } else if c == 123 {
        Some(tt::LBRACE)  // '{'
    } else if c == 125 {
        Some(tt::RBRACE)  // '}'
    } else if c == 44 {
        Some(tt::COMMA)  // ','
    } else if c == 45 {
        Some(tt::MINUS)  // '-'
    } else if c == 47 {
        Some(tt::FSLASH)  // '/'
    } else if c == 42 {
        Some(tt::MUL)  // '*'
    } else if c == 60 {
        Some(tt::LT)  // '<'
    } else if c == 62 {
        Some(tt::GT)  // '>'
    } else {
        None
    }
}

/// The token that scanning `s` from position `pos` yields: its category, its
/// lexeme, and the position after it. Past the end of the input this is an
/// end-of-file token with the lexeme `[0]`, and the position stays put.
pub open spec fn lex_next(s: Seq<u8>, pos: int) -> (tt, Seq<u8>, int) {
    let p = skip_ws_from(s, pos);
    if p < 0 || p >= s.len() {
        (tt::EOF, seq![0u8], p)
    } else {
        let c = s[p];
        if c == 61 {
            // '='
            if byte_at(s, p + 1) == 61 {
                (tt::EQ, s.subrange(p, p + 2), p + 2)
            } else {
                (tt::ASSIGN, s.subrange(p, p + 1), p + 1)
            }
        } else if c == 33 {
            // '!'
            if byte_at(s, p + 1) == 61 {
                (tt::NOTEQ, s.subrange(p, p + 2), p + 2)
            } else {
                (tt::BANG, s.subrange(p, p + 1), p + 1)
            }
        } else if single_byte_type(c) is Some {
            (single_byte_type(c)->0, s.subrange(p, p + 1), p + 1)
        } else if is_letter_byte(c) {
            let e = letters_end(s, p);
            (keyword_type(s.subrange(p, e)), s.subrange(p, e), e)
        } else if is_digit_byte(c) {
            let e = digits_end(s, p);
            (tt::INT, s.subrange(p, e), e)
        } else {
            (tt::ILLEGAL, s.subrange(p, p + 1), p + 1)
        }
    }
}

proof fn lemma_skip_ws_bounds(s: Seq<u8>, i: int)
    requires
        0 <= i <= s.len(),
    ensures
        i <= skip_ws_from(s, i) <= s.len(),
        skip_ws_from(s, i) < s.len() ==> !is_ws_byte(s[skip_ws_from(s, i)]),
    decreases s.len() - i,
{
    if i < s.len() && is_ws_byte(s[i]) {
        lemma_skip_ws_bounds(s, i + 1);
    }
}

proof fn lemma_letters_end_bounds(s: Seq<u8>, i: int)
    requires
        0 <= i <= s.len(),
    ensures
        i <= letters_end(s, i) <= s.len(),
    decreases s.len() - i,
{
    if i < s.len() && is_letter_byte(s[i]) {
        lemma_letters_end_bounds(s, i + 1);
    }
}

proof fn lemma_digits_end_bounds(s: Seq<u8>, i: int)
    requires
        0 <= i <= s.len(),
    ensures
        i <= digits_end(s, i) <= s.len(),
    decreases s.len() - i,
{
    if i < s.len() && is_digit_byte(s[i]) {
        lemma_digits_end_bounds(s, i + 1);
    }
}

/// Scanning stays within the input, and every token but end-of-file moves
/// the position forward; end-of-file leaves it at the end.
pub proof fn lemma_lex_next_advances(s: Seq<u8>, pos: int)
    requires
        0 <= pos <= s.len(),
    ensures
        pos <= lex_next(s, pos).2 <= s.len(),
        lex_next(s, pos).0 == tt::EOF <==> lex_next(s, pos).2 == s.len() && skip_ws_from(s, pos)
            == s.len(),
        lex_next(s, pos).0 != tt::EOF ==> pos < lex_next(s, pos).2,
        lex_next(s, pos).0 == tt::EOF ==> lex_next(s, pos).2 == s.len(),
{
    lemma_skip_ws_bounds(s, pos);
    let p = skip_ws_from(s, pos);
    if p < s.len() {
        lemma_letters_end_bounds(s, p);
        lemma_digits_end_bounds(s, p);
        lemma_letters_end_bounds(s, p + 1);
        lemma_digits_end_bounds(s, p + 1);
    }
}

/// A step of the scanner from any position: a token other than end-of-file
/// starts inside the input and moves forward; from inside the input the
/// scanner never moves back and end-of-file takes it to the end; and
/// end-of-file is followed by end-of-file.
pub proof fn lemma_lex_step(s: Seq<u8>, pos: int)
    ensures
        lex_next(s, pos).0 != tt::EOF ==> 0 <= pos < lex_next(s, pos).2 <= s.len(),
        0 <= pos <= s.len() ==> pos <= lex_next(s, pos).2 <= s.len(),
        0 <= pos <= s.len() && lex_next(s, pos).0 == tt::EOF ==> lex_next(s, pos).2 == s.len(),
        lex_next(s, pos).0 == tt::EOF ==> lex_next(s, lex_next(s, pos).2).0 == tt::EOF,
{
    if 0 <= pos <= s.len() {
        lemma_lex_next_advances(s, pos);
        lemma_skip_ws_bounds(s, s.len() as int);
    }
    let p = lex_next(s, pos).2;
    assert(skip_ws_from(s, p) == p || (0 <= p < s.len()));
}

/// Pulls tokens one at a time out of a borrowed source buffer.
pub struct Lexer<'a> {
    input: &'a [u8],
    pos: usize,
    ch: u8,
}

impl<'a> Lexer<'a> {
    /// The source being scanned.
    pub closed spec fn source(&self) -> Seq<u8> {
        self.input@
    }

    /// The position of the byte under examination.
    pub closed spec fn position(&self) -> int {
        self.pos as int
    }

    pub closed spec fn wf(&self) -> bool {
        &&& self.pos <= self.input@.len()
        &&& self.ch == byte_at(self.input@, self.pos as int)
    }

    pub proof fn lemma_wf(&self)
        requires
            self.wf(),
        ensures
            0 <= self.position() <= self.source().len(),
    {
    }

    pub fn new(input: &'a [u8]) -> (r: Self)
        ensures
            r.wf(),
            r.source() == input@,
            r.position() == 0,
    {
        let mut l = Lexer { input, pos: 0, ch: 0 };
        if input.len() > 0 {
            l.ch = input[0];
        }
        l
    }

    /// Yields the next token and moves past it; at the end of the input it
    /// yields end-of-file, again on every call.
    pub fn next_token(&mut self) -> (tok: Token<'a>)
        requires
            old(self).wf(),
        ensures
            final(self).wf(),
            final(self).source() == old(self).source(),
            (tok.token_type, tok.literal@, final(self).position()) == lex_next(
                old(self).source(),
                old(self).position(),
            ),
    {
        proof {
            lemma_skip_ws_bounds(self.input@, self.pos as int);
        }
        self.skip_ws();
        let ch = self.ch;
        let start = self.pos;
        let ghost s = self.input@;
        proof {
            if start < s.len() {
                lemma_letters_end_bounds(s, start as int);
                lemma_digits_end_bounds(s, start as int);
            }
        }
        let mut consume_next = true;
        let tok = if start >= self.input.len() {
            Token::new(tt::EOF, &[0u8])
        } else if ch == 61 {
            // '='
            if self.peek_char() == 61 {
                self.read_char();
                Token::new(tt::EQ, &self.input[start..start + 2])
            } else {
                Token::new(tt::ASSIGN, &self.input[start..start + 1])
            }
        } else if ch == 33 {
            // '!'
            if self.peek_char() == 61 {
                self.read_char();
                Token::new(tt::NOTEQ, &self.input[start..start + 2])
            } else {
                Token::new(tt::BANG, &self.input[start..start + 1])
            }
        } else if ch == 43 {
            Token::new(tt::PLUS, &self.input[start..start + 1])
        } else if ch == 59 {
            Token::new(tt::SEMICOLON, &self.input[start..start + 1])
        } else if ch == 40 {
            Token::new(tt::LPAREN, &self.input[start..start + 1])
        } else if ch == 41 {
            Token::new(tt::RPAREN, &self.input[start..start + 1])
        } else if ch == 123 {
            Token::new(tt::LBRACE, &self.input[start..start + 1])
        } else if ch == 125 {
            Token::new(tt::RBRACE, &self.input[start..start + 1])
        } else if ch == 44 {
            Token::new(tt::COMMA, &self.input[start..start + 1])
        } else if ch == 45 {
            Token::new(tt::MINUS, &self.input[start..start + 1])
        } else if ch == 47 {
            Token::new(tt::FSLASH, &self.input[start..start + 1])
        } else if ch == 42 {
            Token::new(tt::MUL, &self.input[start..start + 1])
        } else if ch == 60 {
            Token::new(tt::LT, &self.input[start..start + 1])
        } else if ch == 62 {
            Token::new(tt::GT, &self.input[start..start + 1])
        } else if Self::is_letter(ch) {
            consume_next = false;
            let ident = self.read_ident();
            let ttype = lookup_ident(ident);
            Token::new(ttype, ident)
        } else if Self::is_digit(ch) {
            consume_next = false;
            let ident = self.read_num();
            Token::new(tt::INT, ident)
        } else {
            Token::new(tt::ILLEGAL, &self.input[start..start + 1])
        };
        if consume_next {
            self.read_char();
        }
        proof {
            assert(seq![0u8] =~= [0u8]@);
        }
        tok
    }

    fn read_ident(&mut self) -> (r: &'a [u8])
        requires
            old(self).wf(),
        ensures
            final(self).wf(),
            final(self).input == old(self).input,
            final(self).pos == letters_end(old(self).input@, old(self).pos as int),
            r@ == old(self).input@.subrange(old(self).pos as int, final(self).pos as int),
    {
        let start = self.pos;
        while Self::is_letter(self.ch)
            invariant
                self.wf(),
                self.input == old(self).input,
                start <= self.pos,
                letters_end(self.input@, start as int) == letters_end(
                    self.input@,
                    self.pos as int,
                ),
            decreases self.input@.len() - self.pos,
        {
            self.read_char()
        }
        &self.input[start..self.pos]
    }

    fn read_num(&mut self) -> (r: &'a [u8])
        requires
            old(self).wf(),
        ensures
            final(self).wf(),
            final(self).input == old(self).input,
            final(self).pos == digits_end(old(self).input@, old(self).pos as int),
            r@ == old(self).input@.subrange(old(self).pos as int, final(self).pos as int),
    {
        let start = self.pos;
        while Self::is_digit(self.ch)
            invariant
                self.wf(),
                self.input == old(self).input,
                start <= self.pos,
                digits_end(self.input@, start as int) == digits_end(
                    self.input@,
                    self.pos as int,
                ),
            decreases self.input@.len() - self.pos,
        {
            self.read_char()
        }
        &self.input[start..self.pos]
    }

    /// Moves to the next byte; at the end of the input the position stays.
    fn read_char(&mut self)
        requires
            old(self).wf(),
        ensures
            final(self).wf(),
            final(self).input == old(self).input,
            final(self).pos == if old(self).pos < old(self).input@.len() {
                old(self).pos + 1
            } else {
                old(self).pos as int
            },
    {
        if self.pos < self.input.len() {
            self.pos = self.pos + 1;
        }
        self.ch = if self.pos < self.input.len() {
            self.input[self.pos]
        } else {
            0
        };
    }

    fn peek_char(&self) -> (r: u8)
        requires
            self.wf(),
        ensures
            r == byte_at(self.input@, self.pos + 1),
    {
        if self.pos < self.input.len() && self.pos + 1 < self.input.len() {
            self.input[self.pos + 1]
        } else {
            0
        }
    }

    fn skip_ws(&mut self)
        requires
            old(self).wf(),
        ensures
            final(self).wf(),
            final(self).input == old(self).input,
            final(self).pos == skip_ws_from(old(self).input@, old(self).pos as int),
    {
        while self.ch == 32 || self.ch == 9 || self.ch == 10 || self.ch == 13
            invariant
                self.wf(),
                self.input == old(self).input,
                skip_ws_from(self.input@, old(self).pos as int) == skip_ws_from(
                    self.input@,
                    self.pos as int,
                ),
            decreases self.input@.len() - self.pos,
        {
            self.read_char();
        }
    }

    fn is_letter(ch: u8) -> (r: bool)
        ensures
            r == is_letter_byte(ch),
    {
        (65 <= ch && ch <= 90) || (97 <= ch && ch <= 122) || ch == 95
    }

    fn is_digit(ch: u8) -> (r: bool)
        ensures
            r == is_digit_byte(ch),
    {
        48 <= ch && ch <= 57
    }
}

} // verus!
