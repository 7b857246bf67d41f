use cemc::lexer::{Lexer, TokenKind};

#[test]
fn test_basic_tokens() {
    let mut lexer = Lexer::new(": square ( Int -- Int ) dup * ;");
    let tokens = lexer.tokenize();

    assert_eq!(tokens[0].kind, TokenKind::Colon);
    assert_eq!(tokens[1].kind, TokenKind::Ident);
    assert_eq!(tokens[1].lexeme, "square");
    assert_eq!(tokens[2].kind, TokenKind::LeftParen);
    assert_eq!(tokens[3].kind, TokenKind::Ident);
    assert_eq!(tokens[3].lexeme, "Int");
}

#[test]
fn test_numbers() {
    let mut lexer = Lexer::new("42 -17 0");
    let tokens = lexer.tokenize();

    assert_eq!(tokens[0].kind, TokenKind::IntLiteral);
    assert_eq!(tokens[0].lexeme, "42");
    assert_eq!(tokens[1].kind, TokenKind::IntLiteral);
    assert_eq!(tokens[1].lexeme, "-17");
    assert_eq!(tokens[2].kind, TokenKind::IntLiteral);
    assert_eq!(tokens[2].lexeme, "0");
}

#[test]
fn test_strings() {
    let mut lexer = Lexer::new("\"hello\" \"world\\n\"");
    let tokens = lexer.tokenize();

    assert_eq!(tokens[0].kind, TokenKind::StringLiteral);
    assert_eq!(tokens[0].lexeme, "hello");
    assert_eq!(tokens[1].kind, TokenKind::StringLiteral);
    assert_eq!(tokens[1].lexeme, "world\n");
}

#[test]
fn test_operators() {
    let mut lexer = Lexer::new("+ - * / < > = dup");
    let tokens = lexer.tokenize();

    assert_eq!(tokens[0].kind, TokenKind::Ident);
    assert_eq!(tokens[0].lexeme, "+");
    assert_eq!(tokens[7].kind, TokenKind::Ident);
    assert_eq!(tokens[7].lexeme, "dup");
}

#[test]
fn test_comments() {
    let mut lexer = Lexer::new("# comment\n42");
    let tokens = lexer.tokenize();

    assert_eq!(tokens[0].kind, TokenKind::IntLiteral);
    assert_eq!(tokens[0].lexeme, "42");
}

#[test]
fn test_unterminated_string_newline() {
    let mut lexer = Lexer::new("\"hello\n");
    let tokens = lexer.tokenize();

    assert!(tokens[0].lexeme.starts_with("ERROR"));
    assert!(tokens[0].lexeme.contains("Unterminated"));
}

#[test]
fn test_unterminated_string_eof() {
    let mut lexer = Lexer::new("\"hello");
    let tokens = lexer.tokenize();

    assert!(tokens[0].lexeme.starts_with("ERROR"));
    assert!(tokens[0].lexeme.contains("Unterminated"));
}

#[test]
fn test_valid_string() {
    let mut lexer = Lexer::new("\"hello world\"");
    let tokens = lexer.tokenize();

    assert_eq!(tokens[0].kind, TokenKind::StringLiteral);
    assert_eq!(tokens[0].lexeme, "hello world");
}

#[test]
fn test_newline_handling() {
    let mut lexer = Lexer::new("42\n43\n44");
    let tokens = lexer.tokenize();

    assert_eq!(tokens[0].kind, TokenKind::IntLiteral);
    assert_eq!(tokens[0].line, 1);
    assert_eq!(tokens[1].kind, TokenKind::IntLiteral);
    assert_eq!(tokens[1].line, 2);
    assert_eq!(tokens[2].kind, TokenKind::IntLiteral);
    assert_eq!(tokens[2].line, 3);
}

#[test]
fn test_max_string_length() {
    // A string literal of 1,000,001 bytes is rejected.
    let mut input = String::from("\"");
    for _ in 0..1_000_001 {
        input.push('a');
    }
    input.push('"');

    let mut lexer = Lexer::new(&input);
    let tokens = lexer.tokenize();

    assert!(tokens[0].lexeme.starts_with("ERROR"));
    assert!(tokens[0].lexeme.contains("maximum length"));
}

#[test]
fn test_string_at_byte_budget_accepted() {
    // Exactly 1,000,000 bytes is still fine.
    let mut input = String::from("\"");
    for _ in 0..1_000_000 {
        input.push('a');
    }
    input.push('"');

    let mut lexer = Lexer::new(&input);
    let tokens = lexer.tokenize();

    assert_eq!(tokens[0].kind, TokenKind::StringLiteral);
    assert_eq!(tokens[0].lexeme.len(), 1_000_000);
}

#[test]
fn test_keywords_and_arrow() {
    let mut lexer = Lexer::new("type match end if => -- true false");
    let tokens = lexer.tokenize();

    assert_eq!(tokens[0].kind, TokenKind::Type);
    assert_eq!(tokens[1].kind, TokenKind::Match);
    assert_eq!(tokens[2].kind, TokenKind::End);
    assert_eq!(tokens[3].kind, TokenKind::If);
    assert_eq!(tokens[4].kind, TokenKind::Arrow);
    assert_eq!(tokens[5].kind, TokenKind::Dash);
    assert_eq!(tokens[6].kind, TokenKind::BoolLiteral);
    assert_eq!(tokens[7].kind, TokenKind::BoolLiteral);
    assert_eq!(tokens[8].kind, TokenKind::Eof);
}

#[test]
fn test_escape_passthrough() {
    // Unknown escapes pass the character through.
    let mut lexer = Lexer::new("\"a\\q\\t\"");
    let tokens = lexer.tokenize();
    assert_eq!(tokens[0].lexeme, "aq\t");
}
