use lib::scanner::{is_alpha, is_alphanumeric, is_digit, ScanError, ScanErrorKind, Scanner};
use lib::token::{Literal, Token, TokenType};

fn scan(source: &str) -> (Vec<Token>, Vec<ScanError>) {
    let mut scanner = Scanner::new(source.to_string());
    let tokens = scanner.scan_tokens();
    let errors = scanner.errors().clone();
    (tokens, errors)
}

fn kinds(tokens: &[Token]) -> Vec<TokenType> {
    tokens.iter().map(|t| t.token_type).collect()
}

#[test]
fn empty_source_gives_only_eof() {
    let (tokens, errors) = scan("");
    assert_eq!(kinds(&tokens), vec![TokenType::EOF]);
    assert_eq!(tokens[0].line, 1);
    assert_eq!(tokens[0].lexeme, "");
    assert!(errors.is_empty());
}

#[test]
fn single_character_punctuation() {
    let (tokens, _) = scan("(){},.-+;*/");
    assert_eq!(
        kinds(&tokens),
        vec![
            TokenType::LeftParen,
            TokenType::RightParen,
            TokenType::LeftBrace,
            TokenType::RightBrace,
            TokenType::Comma,
            TokenType::Dot,
            TokenType::Minus,
            TokenType::Plus,
            TokenType::Semicolon,
            TokenType::Star,
            TokenType::Slash,
            TokenType::EOF,
        ]
    );
}

#[test]
fn one_or_two_character_operators() {
    let (tokens, _) = scan("! != = == > >= < <=");
    assert_eq!(
        kinds(&tokens),
        vec![
            TokenType::Bang,
            TokenType::BangEqual,
            TokenType::Equal,
            TokenType::EqualEqual,
            TokenType::Greater,
            TokenType::GreaterEqual,
            TokenType::Less,
            TokenType::LessEqual,
            TokenType::EOF,
        ]
    );
    assert_eq!(tokens[1].lexeme, "!=");
    assert_eq!(tokens[7].lexeme, "<=");
}

#[test]
fn comment_runs_to_end_of_line() {
    let (tokens, errors) = scan("// a comment ( ) \"\nprint");
    assert_eq!(kinds(&tokens), vec![TokenType::Print, TokenType::EOF]);
    assert_eq!(tokens[0].line, 2);
    assert_eq!(tokens[1].line, 2);
    assert!(errors.is_empty());
}

#[test]
fn string_literal_drops_the_quotes() {
    let (tokens, _) = scan("\"hello\"");
    assert_eq!(tokens[0].token_type, TokenType::String);
    assert_eq!(tokens[0].lexeme, "\"hello\"");
    assert!(matches!(&tokens[0].literal, Some(Literal::String(s)) if s == "hello"));
}

#[test]
fn multi_line_string_counts_its_lines() {
    let (tokens, errors) = scan("\"a\nb\nc\" x");
    assert!(errors.is_empty());
    assert_eq!(tokens[0].token_type, TokenType::String);
    assert!(matches!(&tokens[0].literal, Some(Literal::String(s)) if s == "a\nb\nc"));
    assert_eq!(tokens[0].line, 3);
    assert_eq!(tokens[1].token_type, TokenType::Identifier);
    assert_eq!(tokens[1].line, 3);
}

#[test]
fn unterminated_string_is_an_error_without_token() {
    let (tokens, errors) = scan("\"abc\ndef");
    assert_eq!(kinds(&tokens), vec![TokenType::EOF]);
    assert_eq!(errors.len(), 1);
    assert_eq!(errors[0].kind, ScanErrorKind::UnterminatedString);
    assert_eq!(errors[0].line, 2);
    assert_eq!(errors[0].message(), "Unterminated string");
}

#[test]
fn number_with_fraction() {
    let (tokens, _) = scan("42.5");
    assert_eq!(kinds(&tokens), vec![TokenType::Number, TokenType::EOF]);
    assert_eq!(tokens[0].lexeme, "42.5");
    assert!(matches!(&tokens[0].literal, Some(Literal::Number(s)) if s == "42.5"));
}

#[test]
fn trailing_dot_is_not_part_of_a_number() {
    let (tokens, _) = scan("42.");
    assert_eq!(kinds(&tokens), vec![TokenType::Number, TokenType::Dot, TokenType::EOF]);
    assert_eq!(tokens[0].lexeme, "42");
    let (tokens, _) = scan("1.x");
    assert_eq!(
        kinds(&tokens),
        vec![TokenType::Number, TokenType::Dot, TokenType::Identifier, TokenType::EOF]
    );
}

#[test]
fn keywords_are_reserved() {
    let (tokens, _) = scan("class classy _x1 and or fun for if nil print return super this true var while else false");
    assert_eq!(
        kinds(&tokens),
        vec![
            TokenType::Class,
            TokenType::Identifier,
            TokenType::Identifier,
            TokenType::And,
            TokenType::Or,
            TokenType::Fun,
            TokenType::For,
            TokenType::If,
            TokenType::Nil,
            TokenType::Print,
            TokenType::Return,
            TokenType::Super,
            TokenType::This,
            TokenType::True,
            TokenType::Var,
            TokenType::While,
            TokenType::Else,
            TokenType::False,
            TokenType::EOF,
        ]
    );
    assert_eq!(tokens[1].lexeme, "classy");
    assert_eq!(tokens[2].lexeme, "_x1");
}

#[test]
fn unexpected_character_is_reported_and_skipped() {
    let (tokens, errors) = scan("a @ b");
    assert_eq!(
        kinds(&tokens),
        vec![TokenType::Identifier, TokenType::Identifier, TokenType::EOF]
    );
    assert_eq!(errors.len(), 1);
    assert_eq!(errors[0].kind, ScanErrorKind::UnexpectedCharacter('@'));
    assert_eq!(errors[0].line, 1);
    assert_eq!(errors[0].message(), "Unexpected character @ ");
}

#[test]
fn lines_never_go_back() {
    let (tokens, _) = scan("a\nb\n\nc");
    let lines: Vec<usize> = tokens.iter().map(|t| t.line).collect();
    assert_eq!(lines, vec![1, 2, 4, 4]);
}

#[test]
fn eof_only_at_end() {
    let (tokens, _) = scan("var x = \"s\"; // c\n x = x + 1.25;");
    let last = tokens.len() - 1;
    assert_eq!(tokens[last].token_type, TokenType::EOF);
    assert!(tokens[..last].iter().all(|t| t.token_type != TokenType::EOF));
}

#[test]
fn character_classes() {
    assert!(is_digit('0') && is_digit('9') && !is_digit('a'));
    assert!(is_alpha('a') && is_alpha('Z') && is_alpha('_') && !is_alpha('1'));
    assert!(is_alphanumeric('7') && is_alphanumeric('q') && !is_alphanumeric('-'));
}

#[test]
fn token_kind_names() {
    assert_eq!(TokenType::Semicolon.name(), "Semicolon");
    assert_eq!(TokenType::EOF.name(), "EOF");
    let t = Token::new(TokenType::Identifier, "x".to_string(), None, 3);
    assert_eq!(t.line, 3);
    assert_eq!(t.lexeme, "x");
}
