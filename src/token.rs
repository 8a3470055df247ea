use vstd::prelude::*;

verus! {

/// Binding strength of an operator, weakest first.
#[derive(Debug, Copy, Clone, PartialEq, Eq, Structural)]
pub enum Prec {
    Lowest,
    Equals,
    LtOrGt,
    Sum,
    Product,
    Prefix,
    FnCall,
}

impl Prec {
    /// The place of a precedence on the ladder, `Lowest` being 0.
    pub open spec fn spec_level(self) -> u8 {
        match self {
            Prec::Lowest => 0,
            Prec::Equals => 1,
            Prec::LtOrGt => 2,
            Prec::Sum => 3,
            Prec::Product => 4,
            Prec::Prefix => 5,
            Prec::FnCall => 6,
        }
    }

    #[verifier::when_used_as_spec(spec_level)]
    pub fn level(self) -> (r: u8)
        ensures
            r == self.spec_level(),
    {
        match self {
            Prec::Lowest => 0,
            Prec::Equals => 1,
            Prec::LtOrGt => 2,
            Prec::Sum => 3,
            Prec::Product => 4,
            Prec::Prefix => 5,
            Prec::FnCall => 6,
        }
    }
}

/// The closed set of lexical categories.
#[allow(non_camel_case_types, clippy::upper_case_acronyms)]
#[derive(Copy, Clone, Debug, PartialEq, Eq, Structural)]
pub enum TokenType {
    // Unknown token
    ILLEGAL,
    EOF,
    INT,
    // Operators
    BANG,
    MINUS,
    FSLASH,
    MUL,
    LT,
    GT,
    ASSIGN,
    PLUS,
    EQ,
    NOTEQ,
    // Delimiters
    COMMA,
    SEMICOLON,
    // Misc
    LPAREN,
    RPAREN,
    LBRACE,
    RBRACE,
    // Identifiers + literals
    IDENT,
    FUNCTION,
    LET,
    IF,
    RETURN,
    TRUE,
    ELSE,
    FALSE,
}

impl TokenType {
    /// Infix binding strength of a category: `(` after an expression is a
    /// call and binds tightest; categories that are not infix operators bind
    /// at `Lowest`.
    pub open spec fn spec_precedence(&self) -> Prec {
        match self {
            TokenType::EQ => Prec::Equals,
            TokenType::NOTEQ => Prec::Equals,
            TokenType::LT => Prec::LtOrGt,
            TokenType::GT => Prec::LtOrGt,
            TokenType::PLUS => Prec::Sum,
            TokenType::MINUS => Prec::Sum,
            TokenType::FSLASH => Prec::Product,
            TokenType::MUL => Prec::Product,
            TokenType::LPAREN => Prec::FnCall,
            _ => Prec::Lowest,
        }
    }

    #[verifier::when_used_as_spec(spec_precedence)]
    pub fn precedence(&self) -> (r: Prec)
        ensures
            r == self.spec_precedence(),
    {
        match self {
            TokenType::EQ => Prec::Equals,
            TokenType::NOTEQ => Prec::Equals,
            TokenType::LT => Prec::LtOrGt,
            TokenType::GT => Prec::LtOrGt,
            TokenType::PLUS => Prec::Sum,
            TokenType::MINUS => Prec::Sum,
            TokenType::FSLASH => Prec::Product,
            TokenType::MUL => Prec::Product,
            TokenType::LPAREN => Prec::FnCall,
            _ => Prec::Lowest,
        }
    }

    /// The category's name as it appears in syntax error messages.
    pub open spec fn spec_name(self) -> &'static str {
        match self {
            TokenType::ILLEGAL => "ILLEGAL",
            TokenType::EOF => "EOF",
            TokenType::INT => "INT",
            TokenType::BANG => "BANG",
            TokenType::MINUS => "MINUS",
            TokenType::FSLASH => "FSLASH",
            TokenType::MUL => "MUL",
            TokenType::LT => "LT",
            TokenType::GT => "GT",
            TokenType::ASSIGN => "ASSIGN",
            TokenType::PLUS => "PLUS",
            TokenType::EQ => "EQ",
            TokenType::NOTEQ => "NOTEQ",
            TokenType::COMMA => "COMMA",
            TokenType::SEMICOLON => "SEMICOLON",
            TokenType::LPAREN => "LPAREN",
            TokenType::RPAREN => "RPAREN",
            TokenType::LBRACE => "LBRACE",
            TokenType::RBRACE => "RBRACE",
            TokenType::IDENT => "IDENT",
            TokenType::FUNCTION => "FUNCTION",
            TokenType::LET => "LET",
            TokenType::IF => "IF",
            TokenType::RETURN => "RETURN",
            TokenType::TRUE => "TRUE",
            TokenType::ELSE => "ELSE",
            TokenType::FALSE => "FALSE",
        }
    }

    #[verifier::when_used_as_spec(spec_name)]
    pub fn name(self) -> (r: &'static str)
        ensures
            r == self.spec_name(),
    {
        match self {
            TokenType::ILLEGAL => "ILLEGAL",
            TokenType::EOF => "EOF",
            TokenType::INT => "INT",
            TokenType::BANG => "BANG",
            TokenType::MINUS => "MINUS",
            TokenType::FSLASH => "FSLASH",
            TokenType::MUL => "MUL",
            TokenType::LT => "LT",
            TokenType::GT => "GT",
            TokenType::ASSIGN => "ASSIGN",
            TokenType::PLUS => "PLUS",
            TokenType::EQ => "EQ",
            TokenType::NOTEQ => "NOTEQ",
            TokenType::COMMA => "COMMA",
            TokenType::SEMICOLON => "SEMICOLON",
            TokenType::LPAREN => "LPAREN",
            TokenType::RPAREN => "RPAREN",
            TokenType::LBRACE => "LBRACE",
            TokenType::RBRACE => "RBRACE",
            TokenType::IDENT => "IDENT",
            TokenType::FUNCTION => "FUNCTION",
            TokenType::LET => "LET",
            TokenType::IF => "IF",
            TokenType::RETURN => "RETURN",
            TokenType::TRUE => "TRUE",
            TokenType::ELSE => "ELSE",
            TokenType::FALSE => "FALSE",
        }
    }
}

/// A lexeme: a category and the source bytes it was read from.
#[derive(Debug, Copy, Clone, PartialEq)]
pub struct Token<'a> {
    pub token_type: TokenType,
    pub literal: &'a [u8],
}

impl<'a> Token<'a> {
    pub fn new(token_type: TokenType, literal: &'a [u8]) -> (r: Self)
        ensures
            r.token_type == token_type,
            r.literal == literal,
    {
        Token { token_type, literal }
    }
}

/// The keyword category that a word spells, or `IDENT` for any other word.
pub open spec fn keyword_type(w: Seq<u8>) -> TokenType {
    if w == seq![102, 110u8] {  // "fn"
        TokenType::FUNCTION
    } else if w == seq![108, 101, 116u8] {  // "let"
        TokenType::LET
    } else if w == seq![116, 114, 117, 101u8] {  // "true"
        TokenType::TRUE
    } else if w == seq![102, 97, 108, 115, 101u8] {  // "false"
        TokenType::FALSE
    } else if w == seq![114, 101, 116, 117, 114, 110u8] {  // "return"
        TokenType::RETURN
    } else if w == seq![105, 102u8] {  // "if"
        TokenType::IF
    } else if w == seq![101, 108, 115, 101u8] {  // "else"
        TokenType::ELSE
    } else {
        TokenType::IDENT
    }
}

/// Whether `w` holds exactly the bytes of `k`.
pub(crate) fn spells(w: &[u8], k: &[u8]) -> (r: bool)
    ensures
        r == (w@ == k@),
{
    if w.len() != k.len() {
        return false;
    }
    let mut i: usize = 0;
    while i < w.len()
        invariant
            w@.len() == k@.len(),
            0 <= i <= w@.len(),
            forall|j: int| 0 <= j < i ==> w@[j] == k@[j],
        decreases w@.len() - i,
    {
        if w[i] != k[i] {
            return false;
        }
        i = i + 1;
    }
    assert(w@ =~= k@);
    true
}

pub fn lookup_ident(ident: &[u8]) -> (r: TokenType)
    ensures
        r == keyword_type(ident@),
{
    if spells(ident, &[102, 110u8]) {
        TokenType::FUNCTION
    } else if spells(ident, &[108, 101, 116u8]) {
        TokenType::LET
    } else if spells(ident, &[116, 114, 117, 101u8]) {
        TokenType::TRUE
    } else if spells(ident, &[102, 97, 108, 115, 101u8]) {
        TokenType::FALSE
    } else if spells(ident, &[114, 101, 116, 117, 114, 110u8]) {
        TokenType::RETURN
    } else if spells(ident, &[105, 102u8]) {
        TokenType::IF
    } else if spells(ident, &[101, 108, 115, 101u8]) {
        TokenType::ELSE
    } else {
        TokenType::IDENT
    }
}

} // verus!
