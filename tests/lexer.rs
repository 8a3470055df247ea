use monkey::lexer::Lexer;
use monkey::token::{lookup_ident, Prec, Token, TokenType as tt};

#[test]
fn test_new_token() {
    let input = "let five = 5;
let ten = 10;
let add = fn(x, y) {
x + y;
};
let result = add(five, ten);
!-/*5;
5 < 10 > 5;
if (5 < 10) {
    return true;
} else {
    return false;
}
10 == 10;
10 != 9;
";

    let tests = [
        Token::new(tt::LET, b"let"),
        Token::new(tt::IDENT, b"five"),
        Token::new(tt::ASSIGN, b"="),
        Token::new(tt::INT, b"5"),
        Token::new(tt::SEMICOLON, b";"),
        Token::new(tt::LET, b"let"),
        Token::new(tt::IDENT, b"ten"),
        Token::new(tt::ASSIGN, b"="),
        Token::new(tt::INT, b"10"),
        Token::new(tt::SEMICOLON, b";"),
        Token::new(tt::LET, b"let"),
        Token::new(tt::IDENT, b"add"),
        Token::new(tt::ASSIGN, b"="),
        Token::new(tt::FUNCTION, b"fn"),
        Token::new(tt::LPAREN, b"("),
        Token::new(tt::IDENT, b"x"),
        Token::new(tt::COMMA, b","),
        Token::new(tt::IDENT, b"y"),
        Token::new(tt::RPAREN, b")"),
        Token::new(tt::LBRACE, b"{"),
        Token::new(tt::IDENT, b"x"),
        Token::new(tt::PLUS, b"+"),
        Token::new(tt::IDENT, b"y"),
        Token::new(tt::SEMICOLON, b";"),
        Token::new(tt::RBRACE, b"}"),
        Token::new(tt::SEMICOLON, b";"),
        Token::new(tt::LET, b"let"),
        Token::new(tt::IDENT, b"result"),
        Token::new(tt::ASSIGN, b"="),
        Token::new(tt::IDENT, b"add"),
        Token::new(tt::LPAREN, b"("),
        Token::new(tt::IDENT, b"five"),
        Token::new(tt::COMMA, b","),
        Token::new(tt::IDENT, b"ten"),
        Token::new(tt::RPAREN, b")"),
        Token::new(tt::SEMICOLON, b";"),
        Token::new(tt::BANG, b"!"),
        Token::new(tt::MINUS, b"-"),
        Token::new(tt::FSLASH, b"/"),
        Token::new(tt::MUL, b"*"),
        Token::new(tt::INT, b"5"),
        Token::new(tt::SEMICOLON, b";"),
        Token::new(tt::INT, b"5"),
        Token::new(tt::LT, b"<"),
        Token::new(tt::INT, b"10"),
        Token::new(tt::GT, b">"),
        Token::new(tt::INT, b"5"),
        Token::new(tt::SEMICOLON, b";"),
        Token::new(tt::IF, b"if"),
        Token::new(tt::LPAREN, b"("),
        Token::new(tt::INT, b"5"),
        Token::new(tt::LT, b"<"),
        Token::new(tt::INT, b"10"),
        Token::new(tt::RPAREN, b")"),
        Token::new(tt::LBRACE, b"{"),
        Token::new(tt::RETURN, b"return"),
        Token::new(tt::TRUE, b"true"),
        Token::new(tt::SEMICOLON, b";"),
        Token::new(tt::RBRACE, b"}"),
        Token::new(tt::ELSE, b"else"),
        Token::new(tt::LBRACE, b"{"),
        Token::new(tt::RETURN, b"return"),
        Token::new(tt::FALSE, b"false"),
        Token::new(tt::SEMICOLON, b";"),
        Token::new(tt::RBRACE, b"}"),
        Token::new(tt::INT, b"10"),
        Token::new(tt::EQ, b"=="),
        Token::new(tt::INT, b"10"),
        Token::new(tt::SEMICOLON, b";"),
        Token::new(tt::INT, b"10"),
        Token::new(tt::NOTEQ, b"!="),
        Token::new(tt::INT, b"9"),
        Token::new(tt::SEMICOLON, b";"),
        Token::new(tt::EOF, b"\0"),
    ];

    let mut l = Lexer::new(input.as_bytes());

    for case in tests {
        let tok = l.next_token();
        assert_eq!(
            tok.token_type, case.token_type,
            "Wrong token_type, \nexpected = {:?}, \nprovided = {:?}",
            case.token_type, tok.token_type
        );
        assert_eq!(
            tok.literal, case.literal,
            "Wrong literal, \nexpected = {:?}, \nprovided = {:?}",
            case.literal, tok.literal
        );
        println!(
            "case {:?} success, value = {:?}",
            case.token_type,
            std::str::from_utf8(tok.literal)
        );
    }
}

#[test]
fn lexer_eof_repeats_forever() {
    let mut l = Lexer::new(b"x");
    let first = l.next_token();
    assert_eq!(first.token_type, tt::IDENT);
    for _ in 0..5 {
        let t = l.next_token();
        assert_eq!(t.token_type, tt::EOF);
        assert_eq!(t.literal, b"\0");
    }
}

#[test]
fn lexer_empty_and_blank_input() {
    let mut l = Lexer::new(b"");
    assert_eq!(l.next_token().token_type, tt::EOF);
    let mut l = Lexer::new(b" \t\r\n ");
    assert_eq!(l.next_token().token_type, tt::EOF);
}

#[test]
fn lexer_illegal_bytes() {
    let mut l = Lexer::new(b"@ a\0b #");
    let t = l.next_token();
    assert_eq!((t.token_type, t.literal), (tt::ILLEGAL, &b"@"[..]));
    let t = l.next_token();
    assert_eq!((t.token_type, t.literal), (tt::IDENT, &b"a"[..]));
    let t = l.next_token();
    assert_eq!((t.token_type, t.literal), (tt::ILLEGAL, &b"\0"[..]));
    let t = l.next_token();
    assert_eq!((t.token_type, t.literal), (tt::IDENT, &b"b"[..]));
    let t = l.next_token();
    assert_eq!((t.token_type, t.literal), (tt::ILLEGAL, &b"#"[..]));
    assert_eq!(l.next_token().token_type, tt::EOF);
}

#[test]
fn lexer_words_and_numbers_are_maximal() {
    let mut l = Lexer::new(b"foo_bar12 007!=!==");
    let t = l.next_token();
    assert_eq!((t.token_type, t.literal), (tt::IDENT, &b"foo_bar"[..]));
    let t = l.next_token();
    assert_eq!((t.token_type, t.literal), (tt::INT, &b"12"[..]));
    let t = l.next_token();
    assert_eq!((t.token_type, t.literal), (tt::INT, &b"007"[..]));
    let t = l.next_token();
    assert_eq!((t.token_type, t.literal), (tt::NOTEQ, &b"!="[..]));
    let t = l.next_token();
    assert_eq!((t.token_type, t.literal), (tt::NOTEQ, &b"!="[..]));
    let t = l.next_token();
    assert_eq!((t.token_type, t.literal), (tt::ASSIGN, &b"="[..]));
    assert_eq!(l.next_token().token_type, tt::EOF);
}

#[test]
fn keywords_and_identifiers() {
    assert_eq!(lookup_ident(b"fn"), tt::FUNCTION);
    assert_eq!(lookup_ident(b"let"), tt::LET);
    assert_eq!(lookup_ident(b"true"), tt::TRUE);
    assert_eq!(lookup_ident(b"false"), tt::FALSE);
    assert_eq!(lookup_ident(b"return"), tt::RETURN);
    assert_eq!(lookup_ident(b"if"), tt::IF);
    assert_eq!(lookup_ident(b"else"), tt::ELSE);
    assert_eq!(lookup_ident(b"lets"), tt::IDENT);
    assert_eq!(lookup_ident(b"f"), tt::IDENT);
    assert_eq!(lookup_ident(b""), tt::IDENT);
}

#[test]
fn precedence_ladder() {
    assert_eq!(tt::EQ.precedence(), Prec::Equals);
    assert_eq!(tt::NOTEQ.precedence(), Prec::Equals);
    assert_eq!(tt::LT.precedence(), Prec::LtOrGt);
    assert_eq!(tt::GT.precedence(), Prec::LtOrGt);
    assert_eq!(tt::PLUS.precedence(), Prec::Sum);
    assert_eq!(tt::MINUS.precedence(), Prec::Sum);
    assert_eq!(tt::MUL.precedence(), Prec::Product);
    assert_eq!(tt::FSLASH.precedence(), Prec::Product);
    assert_eq!(tt::LPAREN.precedence(), Prec::FnCall);
    assert_eq!(tt::SEMICOLON.precedence(), Prec::Lowest);
    assert_eq!(tt::IDENT.precedence(), Prec::Lowest);
    assert!(Prec::Lowest.level() < Prec::Equals.level());
    assert!(Prec::Product.level() < Prec::Prefix.level());
    assert!(Prec::Prefix.level() < Prec::FnCall.level());
    assert_eq!(tt::NOTEQ.name(), "NOTEQ");
}
