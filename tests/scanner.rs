use rustlox::scanner::{is_alpha, is_alphanumeric, is_digit, keyword_to_token, Scanner, Token, TokenType};

fn scan(source: &str) -> Vec<Token> {
    Scanner::new(source).scan_tokens()
}

fn kinds(source: &str) -> Vec<TokenType> {
    scan(source).iter().map(|t| t.token_type()).collect()
}

#[test]
fn scan_single_character_tokens() {
    assert_eq!(
        kinds("(){},.-+;*/"),
        vec![
            TokenType::LeftParen,
            TokenType::RightParen,
            TokenType::LeftBrace,
            TokenType::RightBrace,
            TokenType::Comma,
            TokenType::Dot,
            TokenType::Minus,
            TokenType::Plus,
            TokenType::Semicolon,
            TokenType::Star,
            TokenType::Slash,
            TokenType::Eof,
        ]
    );
}

#[test]
fn scan_two_character_operators_win_over_prefixes() {
    assert_eq!(
        kinds("!= == <= >= ! = < >"),
        vec![
            TokenType::BangEqual,
            TokenType::EqualEqual,
            TokenType::LessEqual,
            TokenType::GreaterEqual,
            TokenType::Bang,
            TokenType::Equal,
            TokenType::Less,
            TokenType::Greater,
            TokenType::Eof,
        ]
    );
    let tokens = scan("<=");
    assert_eq!(tokens[0].lexeme(), "<=");
}

#[test]
fn scan_lexemes_are_exact_source_text() {
    let tokens = scan("( foo)");
    assert_eq!(tokens[0].lexeme(), "(");
    assert_eq!(tokens[1].lexeme(), "foo");
    assert_eq!(tokens[2].lexeme(), ")");
    assert_eq!(tokens[3].lexeme(), "");
}

#[test]
fn scan_comment_runs_to_end_of_line() {
    let tokens = scan("// a comment\n1");
    assert_eq!(tokens.len(), 2);
    assert_eq!(tokens[0].token_type(), TokenType::Number);
    assert_eq!(tokens[0].line(), 2);
    assert_eq!(tokens[1].token_type(), TokenType::Eof);
}

#[test]
fn scan_comment_at_end_of_input() {
    assert_eq!(kinds("1 // ab"), vec![TokenType::Number, TokenType::Eof]);
}

#[test]
fn scan_whitespace_and_newlines() {
    let tokens = scan(" \t\r\n\n x");
    assert_eq!(tokens.len(), 2);
    assert_eq!(tokens[0].token_type(), TokenType::Identifier);
    assert_eq!(tokens[0].line(), 3);
    assert_eq!(tokens[1].line(), 3);
}

#[test]
fn scan_string_literal() {
    let tokens = scan("\"hello world\";");
    assert_eq!(tokens[0].token_type(), TokenType::StringLiteral);
    assert_eq!(tokens[0].literal(), "hello world");
    assert_eq!(tokens[0].lexeme(), "\"hello world\"");
    assert_eq!(tokens[1].token_type(), TokenType::Semicolon);
}

#[test]
fn scan_empty_string_literal() {
    let tokens = scan("\"\"");
    assert_eq!(tokens[0].token_type(), TokenType::StringLiteral);
    assert_eq!(tokens[0].literal(), "");
    assert_eq!(tokens.len(), 2);
}

#[test]
fn scan_unterminated_string_runs_to_end() {
    let tokens = scan("\"abc");
    assert_eq!(tokens.len(), 2);
    assert_eq!(tokens[0].token_type(), TokenType::StringLiteral);
    assert_eq!(tokens[0].literal(), "abc");
    assert_eq!(tokens[0].lexeme(), "\"abc");
}

#[test]
fn scan_string_counts_its_newlines() {
    let tokens = scan("\"a\nb\" x");
    assert_eq!(tokens[0].literal(), "a\nb");
    assert_eq!(tokens[0].line(), 2);
    assert_eq!(tokens[1].line(), 2);
}

#[test]
fn scan_numbers() {
    let tokens = scan("123 12.5 7.");
    assert_eq!(tokens[0].literal(), "123");
    assert_eq!(tokens[1].literal(), "12.5");
    assert_eq!(tokens[1].lexeme(), "12.5");
    assert_eq!(tokens[2].literal(), "7");
    assert_eq!(tokens[3].token_type(), TokenType::Dot);
    assert_eq!(tokens[4].token_type(), TokenType::Eof);
}

#[test]
fn scan_identifiers_and_keywords() {
    assert_eq!(
        kinds("var x_1 = nil; print _y;"),
        vec![
            TokenType::Var,
            TokenType::Identifier,
            TokenType::Equal,
            TokenType::Nil,
            TokenType::Semicolon,
            TokenType::Print,
            TokenType::Identifier,
            TokenType::Semicolon,
            TokenType::Eof,
        ]
    );
    assert_eq!(scan("x_1")[0].lexeme(), "x_1");
    assert_eq!(scan("x_1")[0].literal(), "");
}

#[test]
fn scan_unknown_character() {
    let tokens = scan("@é");
    assert_eq!(tokens[0].token_type(), TokenType::Unknown);
    assert_eq!(tokens[0].lexeme(), "@");
    assert_eq!(tokens[1].token_type(), TokenType::Unknown);
    assert_eq!(tokens[1].lexeme(), "é");
    assert_eq!(tokens[2].token_type(), TokenType::Eof);
}

#[test]
fn scan_empty_source() {
    let tokens = scan("");
    assert_eq!(tokens.len(), 1);
    assert_eq!(tokens[0].token_type(), TokenType::Eof);
    assert_eq!(tokens[0].line(), 1);
}

#[test]
fn keyword_table() {
    let words = [
        ("and", TokenType::And),
        ("class", TokenType::Class),
        ("else", TokenType::Else),
        ("false", TokenType::False),
        ("fun", TokenType::Fun),
        ("for", TokenType::For),
        ("if", TokenType::If),
        ("nil", TokenType::Nil),
        ("or", TokenType::Or),
        ("print", TokenType::Print),
        ("return", TokenType::Return),
        ("super", TokenType::Super),
        ("this", TokenType::This),
        ("true", TokenType::True),
        ("var", TokenType::Var),
        ("while", TokenType::While),
        ("variable", TokenType::Identifier),
        ("Print", TokenType::Identifier),
        ("", TokenType::Identifier),
    ];
    for (word, kind) in words {
        assert_eq!(keyword_to_token(word), kind, "{}", word);
    }
}

#[test]
fn character_classes() {
    assert!(is_digit('0') && is_digit('9') && !is_digit('a'));
    assert!(is_alpha('a') && is_alpha('Z') && is_alpha('_') && !is_alpha('1') && !is_alpha('é'));
    assert!(is_alphanumeric('7') && is_alphanumeric('q') && !is_alphanumeric('-'));
}

#[test]
fn token_getters() {
    let token = Token::new(TokenType::StringLiteral, "\"s\"", "s", 4);
    assert_eq!(token.token_type(), TokenType::StringLiteral);
    assert_eq!(token.lexeme(), "\"s\"");
    assert_eq!(token.literal(), "s");
    assert_eq!(token.line(), 4);
}
