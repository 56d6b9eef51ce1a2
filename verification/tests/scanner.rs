use lox_rs::scanner::{Scanner, TokenType};

#[test]
fn test_scanner() {
    let src = r#"(){},.-+;/*   ! != == = > >= < <= test "string" 5.0
                     and class else false for fun if nil or print return
                     super this true var while"#;
    let mut scanner = Scanner::new(&src);

    let tokens = [
        // Single character
        TokenType::LParen,
        TokenType::RParen,
        TokenType::LBrace,
        TokenType::RBrace,
        TokenType::Comma,
        TokenType::Dot,
        TokenType::Minus,
        TokenType::Plus,
        TokenType::Semicolon,
        TokenType::Slash,
        TokenType::Star,
        // One or two character tokens
        TokenType::Bang,
        TokenType::BangEqual,
        TokenType::EqualEqual,
        TokenType::Equal,
        TokenType::Greater,
        TokenType::GreaterEqual,
        TokenType::Less,
        TokenType::LessEqual,
        // Literals
        TokenType::Identifier,
        TokenType::String,
        TokenType::Number,
        // Keywords
        TokenType::And,
        TokenType::Class,
        TokenType::Else,
        TokenType::False,
        TokenType::For,
        TokenType::Fun,
        TokenType::If,
        TokenType::Nil,
        TokenType::Or,
        TokenType::Print,
        TokenType::Return,
        TokenType::Super,
        TokenType::This,
        TokenType::True,
        TokenType::Var,
        TokenType::While,
    ];

    for typ in tokens {
        assert_eq!(scanner.scan_token().typ, typ);
    }
}

#[test]
fn scanner_reports_lexemes_and_lines() {
    let mut scanner = Scanner::new("var answer = 42;\nprint answer;");
    let t = scanner.scan_token();
    assert_eq!(t.typ, TokenType::Var);
    assert_eq!(t.src, "var");
    assert_eq!(t.line, 1);
    let t = scanner.scan_token();
    assert_eq!(t.typ, TokenType::Identifier);
    assert_eq!(t.src, "answer");
    let t = scanner.scan_token();
    assert_eq!(t.typ, TokenType::Equal);
    let t = scanner.scan_token();
    assert_eq!(t.typ, TokenType::Number);
    assert_eq!(t.src, "42");
    let t = scanner.scan_token();
    assert_eq!(t.typ, TokenType::Semicolon);
    let t = scanner.scan_token();
    assert_eq!(t.typ, TokenType::Print);
    assert_eq!(t.line, 2);
}

#[test]
fn scanner_skips_comments_and_counts_lines() {
    let mut scanner = Scanner::new("// a comment\nnil // trailing\ntrue");
    let t = scanner.scan_token();
    assert_eq!(t.typ, TokenType::Nil);
    assert_eq!(t.line, 2);
    let t = scanner.scan_token();
    assert_eq!(t.typ, TokenType::True);
    assert_eq!(t.line, 3);
    assert_eq!(scanner.scan_token().typ, TokenType::Eof);
    assert_eq!(scanner.scan_token().typ, TokenType::Eof);
}

#[test]
fn scanner_reports_errors_as_tokens() {
    let mut scanner = Scanner::new("@");
    let t = scanner.scan_token();
    assert_eq!(t.typ, TokenType::Error);
    assert_eq!(t.src, "Unexpected character.");

    let mut scanner = Scanner::new("\"open");
    let t = scanner.scan_token();
    assert_eq!(t.typ, TokenType::Error);
    assert_eq!(t.src, "Unterminated string.");
}

#[test]
fn scanner_number_lexemes() {
    let mut scanner = Scanner::new("1.5 7. 0.25");
    let t = scanner.scan_token();
    assert_eq!(t.typ, TokenType::Number);
    assert_eq!(t.src, "1.5");
    let t = scanner.scan_token();
    assert_eq!(t.typ, TokenType::Number);
    assert_eq!(t.src, "7");
    assert_eq!(scanner.scan_token().typ, TokenType::Dot);
    let t = scanner.scan_token();
    assert_eq!(t.typ, TokenType::Number);
    assert_eq!(t.src, "0.25");
}
