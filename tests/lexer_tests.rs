use monkey::lexer::{lex_line, LexError, Lexer};
use monkey::token::Token;

#[test]
fn test_next_token() {
    let input = r#"let five = 5;
let ten = 10;

let add = fn(x, y) {
    x + y;
};

let result = add(five, ten);
!-/*5;
5 < 10 > 5;

if (5 < 10) {
    return true;
} else {
    return false;
}

10 == 10;
10 != 9;
"#;

    let test_cases = vec![
        Token::Let,
        Token::Ident(String::from("five")),
        Token::Assign,
        Token::Int(5),
        Token::Semicolon,
        Token::Let,
        Token::Ident(String::from("ten")),
        Token::Assign,
        Token::Int(10),
        Token::Semicolon,
        Token::Let,
        Token::Ident(String::from("add")),
        Token::Assign,
        Token::Function,
        Token::LParen,
        Token::Ident(String::from("x")),
        Token::Comma,
        Token::Ident(String::from("y")),
        Token::RParen,
        Token::LBrace,
        Token::Ident(String::from("x")),
        Token::Plus,
        Token::Ident(String::from("y")),
        Token::Semicolon,
        Token::RBrace,
        Token::Semicolon,
        Token::Let,
        Token::Ident(String::from("result")),
        Token::Assign,
        Token::Ident(String::from("add")),
        Token::LParen,
        Token::Ident(String::from("five")),
        Token::Comma,
        Token::Ident(String::from("ten")),
        Token::RParen,
        Token::Semicolon,
        Token::Bang,
        Token::Minus,
        Token::Slash,
        Token::Asterisk,
        Token::Int(5),
        Token::Semicolon,
        Token::Int(5),
        Token::LT,
        Token::Int(10),
        Token::GT,
        Token::Int(5),
        Token::Semicolon,
        Token::If,
        Token::LParen,
        Token::Int(5),
        Token::LT,
        Token::Int(10),
        Token::RParen,
        Token::LBrace,
        Token::Return,
        Token::True,
        Token::Semicolon,
        Token::RBrace,
        Token::Else,
        Token::LBrace,
        Token::Return,
        Token::False,
        Token::Semicolon,
        Token::RBrace,
        Token::Int(10),
        Token::Eq,
        Token::Int(10),
        Token::Semicolon,
        Token::Int(10),
        Token::NotEq,
        Token::Int(9),
        Token::Semicolon,
        Token::Eof,
    ];

    let mut lexer = Lexer::new(input);

    for test_case in test_cases {
        let token = lexer.next_token();

        assert_eq!(token, test_case)
    }
}

fn lex_all(input: &str) -> Vec<Token> {
    let mut lexer = Lexer::new(input);
    let mut out = Vec::new();
    loop {
        let t = lexer.next_token();
        let end = t == Token::Eof;
        out.push(t);
        if end {
            return out;
        }
    }
}

#[test]
fn relexing_token_text_gives_the_token_back() {
    let cases = vec![
        ("foo_Bar", Token::Ident(String::from("foo_Bar"))),
        ("_", Token::Ident(String::from("_"))),
        ("lets", Token::Ident(String::from("lets"))),
        ("0", Token::Int(0)),
        ("838383", Token::Int(838383)),
        ("9223372036854775807", Token::Int(i64::MAX)),
        ("true", Token::True),
        ("false", Token::False),
        ("=", Token::Assign),
        ("+", Token::Plus),
        ("-", Token::Minus),
        ("!", Token::Bang),
        ("*", Token::Asterisk),
        ("/", Token::Slash),
        ("==", Token::Eq),
        ("!=", Token::NotEq),
        ("<", Token::LT),
        (">", Token::GT),
        (",", Token::Comma),
        (";", Token::Semicolon),
        ("(", Token::LParen),
        (")", Token::RParen),
        ("{", Token::LBrace),
        ("}", Token::RBrace),
        ("fn", Token::Function),
        ("let", Token::Let),
        ("if", Token::If),
        ("else", Token::Else),
        ("return", Token::Return),
    ];
    for (text, token) in cases {
        assert_eq!(lex_all(text), vec![token, Token::Eof], "text {:?}", text);
    }
    assert_eq!(lex_all(""), vec![Token::Eof]);
}

#[test]
fn end_marker_repeats_at_end_of_input() {
    let mut lexer = Lexer::new("x  \n\t\r");
    assert_eq!(lexer.next_token(), Token::Ident(String::from("x")));
    for _ in 0..5 {
        assert_eq!(lexer.next_token(), Token::Eof);
    }
}

#[test]
fn invalid_bytes_are_illegal_and_skipped_one_at_a_time() {
    assert_eq!(
        lex_all("a@#b"),
        vec![
            Token::Ident(String::from("a")),
            Token::Illegal,
            Token::Illegal,
            Token::Ident(String::from("b")),
            Token::Eof,
        ]
    );
    assert_eq!(
        lex_all("a\0b"),
        vec![Token::Ident(String::from("a")), Token::Illegal, Token::Ident(String::from("b")), Token::Eof]
    );
    // each byte of a multi-byte character is one invalid byte
    assert_eq!(lex_all("\u{e9}"), vec![Token::Illegal, Token::Illegal, Token::Eof]);
}

#[test]
fn digits_and_letters_split_into_separate_tokens() {
    assert_eq!(
        lex_all("12ab3"),
        vec![Token::Int(12), Token::Ident(String::from("ab")), Token::Int(3), Token::Eof]
    );
    assert_eq!(lex_all("007"), vec![Token::Int(7), Token::Eof]);
    assert_eq!(
        lex_all("=!==!"),
        vec![Token::Assign, Token::NotEq, Token::Assign, Token::Bang, Token::Eof]
    );
}

#[test]
fn overflowing_integer_is_reported() {
    let mut lexer = Lexer::new("9223372036854775808 1");
    assert_eq!(lexer.next_lexeme(), Err(LexError::IntegerOverflow));
    assert_eq!(lexer.next_lexeme(), Ok(Token::Int(1)));
    assert_eq!(lexer.next_lexeme(), Ok(Token::Eof));

    let mut lexer = Lexer::new("99999999999999999999999;");
    assert_eq!(lexer.next_token(), Token::Illegal);
    assert_eq!(lexer.next_token(), Token::Semicolon);
}

#[test]
fn lex_line_stops_before_the_end_marker() {
    assert_eq!(
        lex_line("let x = 5;\n"),
        vec![
            Ok(Token::Let),
            Ok(Token::Ident(String::from("x"))),
            Ok(Token::Assign),
            Ok(Token::Int(5)),
            Ok(Token::Semicolon),
        ]
    );
    assert_eq!(lex_line("   "), Vec::new());
}

#[test]
fn lex_line_reports_overflow_in_place() {
    assert_eq!(
        lex_line("1 99999999999999999999 x"),
        vec![Ok(Token::Int(1)), Err(LexError::IntegerOverflow), Ok(Token::Ident(String::from("x")))]
    );
}
