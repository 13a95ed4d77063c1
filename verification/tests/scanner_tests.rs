use kentauri::scanner::Scanner;
use kentauri::token::TokenType;

#[test]
fn test_identifier_trie() {
    let mut scanner = Scanner::new("this NON_RESERVED");
    let reserved = scanner.scan_token();
    let non_reserved = scanner.scan_token();

    assert_eq!(TokenType::THIS, reserved.token_type);
    assert_eq!(TokenType::IDENTIFIER, non_reserved.token_type);
}

#[test]
fn scans_every_keyword() {
    let source = "and class else false for fun if nil or print return super this true var while";
    let expected = [
        TokenType::AND,
        TokenType::CLASS,
        TokenType::ELSE,
        TokenType::FALSE,
        TokenType::FOR,
        TokenType::FUN,
        TokenType::IF,
        TokenType::NIL,
        TokenType::OR,
        TokenType::PRINT,
        TokenType::RETURN,
        TokenType::SUPER,
        TokenType::THIS,
        TokenType::TRUE,
        TokenType::VAR,
        TokenType::WHILE,
    ];
    let mut scanner = Scanner::new(source);
    for kind in expected.iter() {
        let token = scanner.scan_token();
        assert_eq!(*kind, token.token_type);
    }
    assert_eq!(TokenType::EOF, scanner.scan_token().token_type);
}

#[test]
fn scans_operators_and_punctuation() {
    let mut scanner = Scanner::new("(){},.-+;/* ! != = == > >= < <=");
    let expected = [
        TokenType::LEFT_PAREN,
        TokenType::RIGHT_PAREN,
        TokenType::LEFT_BRACE,
        TokenType::RIGHT_BRACE,
        TokenType::COMMA,
        TokenType::DOT,
        TokenType::MINUS,
        TokenType::PLUS,
        TokenType::SEMICOLON,
        TokenType::SLASH,
        TokenType::STAR,
        TokenType::BANG,
        TokenType::BANG_EQUAL,
        TokenType::EQUAL,
        TokenType::EQUAL_EQUAL,
        TokenType::GREATER,
        TokenType::GREATER_EQUAL,
        TokenType::LESS,
        TokenType::LESS_EQUAL,
    ];
    for kind in expected.iter() {
        let token = scanner.scan_token();
        assert_eq!(*kind, token.token_type);
    }
    assert_eq!(TokenType::EOF, scanner.scan_token().token_type);
}

#[test]
fn number_lexeme_keeps_fraction_and_leaves_trailing_dot() {
    let mut scanner = Scanner::new("1.5 7.");
    let fractional = scanner.scan_token();
    assert_eq!(TokenType::NUMBER, fractional.token_type);
    assert_eq!("1.5", fractional.lexem.as_str());

    let integer = scanner.scan_token();
    assert_eq!(TokenType::NUMBER, integer.token_type);
    assert_eq!("7", integer.lexem.as_str());

    let dot = scanner.scan_token();
    assert_eq!(TokenType::DOT, dot.token_type);
}

#[test]
fn string_token_spans_lines_and_counts_them() {
    let mut scanner = Scanner::new("\"a\nb\" x");
    let string = scanner.scan_token();
    assert_eq!(TokenType::STRING, string.token_type);
    assert_eq!("\"a\nb\"", string.lexem.as_str());
    assert_eq!(2, string.line);

    let ident = scanner.scan_token();
    assert_eq!(TokenType::IDENTIFIER, ident.token_type);
    assert_eq!(2, ident.line);
}

#[test]
fn comments_and_whitespace_are_skipped() {
    let mut scanner = Scanner::new("  // a comment\n\t print");
    let token = scanner.scan_token();
    assert_eq!(TokenType::PRINT, token.token_type);
    assert_eq!(2, token.line);
    assert_eq!(TokenType::EOF, scanner.scan_token().token_type);
}

#[test]
fn unterminated_string_is_an_error_token() {
    let mut scanner = Scanner::new("\"open");
    let token = scanner.scan_token();
    assert_eq!(TokenType::ERROR, token.token_type);
    assert_eq!("Unterminated string", token.lexem.as_str());
}

#[test]
fn unexpected_character_is_an_error_token() {
    let mut scanner = Scanner::new("@");
    let token = scanner.scan_token();
    assert_eq!(TokenType::ERROR, token.token_type);
    assert_eq!("Unexpected character.", token.lexem.as_str());
}

#[test]
fn eof_repeats_at_end() {
    let mut scanner = Scanner::new("");
    assert_eq!(TokenType::EOF, scanner.scan_token().token_type);
    assert_eq!(TokenType::EOF, scanner.scan_token().token_type);
}
