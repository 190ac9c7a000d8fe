use lox_scanner::lexical::ScanErrorKind;
use lox_scanner::scanner::{ScanError, Scanner};
use lox_scanner::token::{Literal, Token, TokenType};

fn kinds(tokens: &[Token]) -> Vec<TokenType> {
    tokens.iter().map(|t| t.token_type).collect()
}

fn scan(src: &String) -> (Vec<Token<'_>>, Vec<ScanError>, bool) {
    let mut sc = Scanner::new(src);
    let tokens = sc.scan_tokens().clone();
    let errors = sc.errors().clone();
    (tokens, errors, sc.has_error)
}

fn number_value(t: &Token) -> f64 {
    match &t.literal {
        Some(Literal::Number(text)) => text.parse::<f64>().unwrap(),
        other => panic!("not a number literal: {:?}", other),
    }
}

#[test]
fn empty_source_is_only_eof() {
    let src = String::new();
    let (tokens, errors, had_error) = scan(&src);
    assert_eq!(kinds(&tokens), vec![TokenType::EOF]);
    assert_eq!(tokens[0].lexeme, "");
    assert_eq!(tokens[0].line, 1);
    assert!(tokens[0].literal.is_none());
    assert!(errors.is_empty());
    assert!(!had_error);
}

#[test]
fn whitespace_and_comments_are_only_eof() {
    let src = String::from("  \t\r\n// a comment ( ) \"\n   // last line, no newline");
    let (tokens, errors, had_error) = scan(&src);
    assert_eq!(kinds(&tokens), vec![TokenType::EOF]);
    assert_eq!(tokens[0].line, 3);
    assert!(errors.is_empty());
    assert!(!had_error);
}

#[test]
fn each_single_punctuation_character() {
    let cases = [
        ("(", TokenType::LeftParen),
        (")", TokenType::RightParen),
        ("{", TokenType::LeftBrace),
        ("}", TokenType::RightBrace),
        (",", TokenType::Comma),
        (".", TokenType::Dot),
        ("-", TokenType::Minus),
        ("+", TokenType::Plus),
        (";", TokenType::Semicolon),
        ("*", TokenType::Star),
        ("/", TokenType::Slash),
        ("!", TokenType::Bang),
        ("=", TokenType::Equal),
        ("<", TokenType::Less),
        (">", TokenType::Greater),
    ];
    for (text, kind) in cases {
        let src = String::from(text);
        let (tokens, errors, had_error) = scan(&src);
        assert_eq!(kinds(&tokens), vec![kind, TokenType::EOF], "input {}", text);
        assert_eq!(tokens[0].lexeme, text);
        assert!(tokens[0].literal.is_none());
        assert_eq!(tokens[0].line, 1);
        assert!(errors.is_empty());
        assert!(!had_error);
    }
}

#[test]
fn two_character_operators_are_one_token() {
    let cases = [
        ("!=", TokenType::BangEqual),
        ("==", TokenType::EqualEqual),
        ("<=", TokenType::LessEqual),
        (">=", TokenType::GreaterEqual),
    ];
    for (text, kind) in cases {
        let src = String::from(text);
        let (tokens, _, had_error) = scan(&src);
        assert_eq!(kinds(&tokens), vec![kind, TokenType::EOF], "input {}", text);
        assert_eq!(tokens[0].lexeme, text);
        assert!(!had_error);
    }
}

#[test]
fn operator_followed_by_other_character() {
    let src = String::from("!!==<>=");
    let (tokens, _, _) = scan(&src);
    assert_eq!(
        kinds(&tokens),
        vec![
            TokenType::Bang,
            TokenType::BangEqual,
            TokenType::Equal,
            TokenType::Less,
            TokenType::GreaterEqual,
            TokenType::EOF
        ]
    );
}

#[test]
fn comment_then_number() {
    let src = String::from("// comment\n123");
    let (tokens, errors, _) = scan(&src);
    assert_eq!(kinds(&tokens), vec![TokenType::Number, TokenType::EOF]);
    assert_eq!(tokens[0].lexeme, "123");
    assert_eq!(tokens[0].literal, Some(Literal::Number(String::from("123"))));
    assert_eq!(number_value(&tokens[0]), 123.0);
    assert_eq!(tokens[0].line, 2);
    assert_eq!(tokens[1].line, 2);
    assert!(errors.is_empty());
}

#[test]
fn string_literal_strips_quotes() {
    let src = String::from("\"hello\"");
    let (tokens, errors, _) = scan(&src);
    assert_eq!(kinds(&tokens), vec![TokenType::String, TokenType::EOF]);
    assert_eq!(tokens[0].lexeme, "\"hello\"");
    assert_eq!(tokens[0].literal, Some(Literal::String(String::from("hello"))));
    assert!(errors.is_empty());
}

#[test]
fn backslashes_in_strings_are_literal() {
    let src = String::from("\"a\\nb\"");
    let (tokens, _, _) = scan(&src);
    assert_eq!(tokens[0].literal, Some(Literal::String(String::from("a\\nb"))));
    assert_eq!(tokens[0].line, 1);
}

#[test]
fn unterminated_string_reports_once() {
    let src = String::from("\"unterminated");
    let (tokens, errors, had_error) = scan(&src);
    assert_eq!(kinds(&tokens), vec![TokenType::EOF]);
    assert!(had_error);
    assert_eq!(
        errors,
        vec![ScanError { kind: ScanErrorKind::UnterminatedString, line: 1 }]
    );
}

#[test]
fn unterminated_string_reports_the_line_where_the_scan_ended() {
    let src = String::from("x \"a\nb\n");
    let (tokens, errors, _) = scan(&src);
    assert_eq!(kinds(&tokens), vec![TokenType::Identifier, TokenType::EOF]);
    assert_eq!(tokens[1].line, 3);
    assert_eq!(
        errors,
        vec![ScanError { kind: ScanErrorKind::UnterminatedString, line: 3 }]
    );
}

#[test]
fn decimal_number() {
    let src = String::from("123.456");
    let (tokens, _, _) = scan(&src);
    assert_eq!(kinds(&tokens), vec![TokenType::Number, TokenType::EOF]);
    assert_eq!(tokens[0].lexeme, "123.456");
    assert_eq!(tokens[0].literal, Some(Literal::Number(String::from("123.456"))));
    assert_eq!(number_value(&tokens[0]), 123.456);
}

#[test]
fn trailing_dot_is_not_absorbed() {
    let src = String::from("123.");
    let (tokens, errors, _) = scan(&src);
    assert_eq!(kinds(&tokens), vec![TokenType::Number, TokenType::Dot, TokenType::EOF]);
    assert_eq!(tokens[0].lexeme, "123");
    assert_eq!(number_value(&tokens[0]), 123.0);
    assert_eq!(tokens[1].lexeme, ".");
    assert!(errors.is_empty());
}

#[test]
fn dot_then_letters_after_number() {
    let src = String::from("12.abs 3.4.5");
    let (tokens, _, _) = scan(&src);
    assert_eq!(
        kinds(&tokens),
        vec![
            TokenType::Number,
            TokenType::Dot,
            TokenType::Identifier,
            TokenType::Number,
            TokenType::Dot,
            TokenType::Number,
            TokenType::EOF
        ]
    );
    assert_eq!(tokens[3].lexeme, "3.4");
    assert_eq!(tokens[5].lexeme, "5");
}

#[test]
fn identifier_and_keyword() {
    let src = String::from("foo_bar123");
    let (tokens, _, _) = scan(&src);
    assert_eq!(kinds(&tokens), vec![TokenType::Identifier, TokenType::EOF]);
    assert_eq!(tokens[0].lexeme, "foo_bar123");
    assert!(tokens[0].literal.is_none());

    let src = String::from("class");
    let (tokens, _, _) = scan(&src);
    assert_eq!(kinds(&tokens), vec![TokenType::Class, TokenType::EOF]);
    assert!(tokens[0].literal.is_none());
}

#[test]
fn every_keyword() {
    let src = String::from(
        "and class else false for fun if nil or print return super this true var while",
    );
    let (tokens, _, _) = scan(&src);
    assert_eq!(
        kinds(&tokens),
        vec![
            TokenType::And,
            TokenType::Class,
            TokenType::Else,
            TokenType::False,
            TokenType::For,
            TokenType::Fun,
            TokenType::If,
            TokenType::Nil,
            TokenType::Or,
            TokenType::Print,
            TokenType::Return,
            TokenType::Super,
            TokenType::This,
            TokenType::True,
            TokenType::Var,
            TokenType::While,
            TokenType::EOF
        ]
    );
}

#[test]
fn words_near_keywords_are_identifiers() {
    let src = String::from("classy _and Or fo whiles");
    let (tokens, _, _) = scan(&src);
    assert_eq!(
        kinds(&tokens),
        vec![
            TokenType::Identifier,
            TokenType::Identifier,
            TokenType::Identifier,
            TokenType::Identifier,
            TokenType::Identifier,
            TokenType::EOF
        ]
    );
}

#[test]
fn multi_line_string_advances_line_once() {
    let src = String::from("\"a\nb\" x");
    let (tokens, errors, _) = scan(&src);
    assert_eq!(
        kinds(&tokens),
        vec![TokenType::String, TokenType::Identifier, TokenType::EOF]
    );
    assert_eq!(tokens[0].literal, Some(Literal::String(String::from("a\nb"))));
    assert_eq!(tokens[0].line, 2);
    assert_eq!(tokens[1].line, 2);
    assert_eq!(tokens[2].line, 2);
    assert!(errors.is_empty());
}

#[test]
fn scanning_twice_gives_equal_tokens() {
    let src = String::from("var x = \"s\" + 1.5; // c\n@ if (x >= 2) print x;");
    let (first, first_errors, _) = scan(&src);
    let (second, second_errors, _) = scan(&src);
    assert_eq!(first, second);
    assert_eq!(first_errors, second_errors);
}

#[test]
fn eof_is_last_even_after_errors() {
    let src = String::from("@#\"abc");
    let (tokens, errors, had_error) = scan(&src);
    assert_eq!(kinds(&tokens), vec![TokenType::EOF]);
    assert!(had_error);
    assert_eq!(
        errors,
        vec![
            ScanError { kind: ScanErrorKind::UnexpectedCharacter('@'), line: 1 },
            ScanError { kind: ScanErrorKind::UnexpectedCharacter('#'), line: 1 },
            ScanError { kind: ScanErrorKind::UnterminatedString, line: 1 },
        ]
    );
}

#[test]
fn scanning_continues_after_unexpected_character() {
    let src = String::from("a\n$b");
    let (tokens, errors, had_error) = scan(&src);
    assert_eq!(
        kinds(&tokens),
        vec![TokenType::Identifier, TokenType::Identifier, TokenType::EOF]
    );
    assert_eq!(tokens[0].line, 1);
    assert_eq!(tokens[1].lexeme, "b");
    assert_eq!(tokens[1].line, 2);
    assert!(had_error);
    assert_eq!(
        errors,
        vec![ScanError { kind: ScanErrorKind::UnexpectedCharacter('$'), line: 2 }]
    );
}

#[test]
fn multi_byte_characters_keep_lexemes_intact() {
    let src = String::from("é\"ü→\"// ß\nx");
    let (tokens, errors, _) = scan(&src);
    assert_eq!(
        kinds(&tokens),
        vec![TokenType::String, TokenType::Identifier, TokenType::EOF]
    );
    assert_eq!(tokens[0].lexeme, "\"ü→\"");
    assert_eq!(tokens[0].literal, Some(Literal::String(String::from("ü→"))));
    assert_eq!(tokens[1].lexeme, "x");
    assert_eq!(
        errors,
        vec![ScanError { kind: ScanErrorKind::UnexpectedCharacter('é'), line: 1 }]
    );
}

#[test]
fn error_records_and_sets_flag() {
    let src = String::from("x");
    let mut sc = Scanner::new(&src);
    assert!(!sc.has_error);
    sc.error(7, ScanErrorKind::UnterminatedString);
    assert!(sc.has_error);
    assert_eq!(
        sc.errors().clone(),
        vec![ScanError { kind: ScanErrorKind::UnterminatedString, line: 7 }]
    );
}

#[test]
fn token_new_keeps_its_fields() {
    let t = Token::new(TokenType::Number, "4.5", Some(Literal::Number(String::from("4.5"))), 9);
    assert_eq!(t.token_type, TokenType::Number);
    assert_eq!(t.lexeme, "4.5");
    assert_eq!(t.literal, Some(Literal::Number(String::from("4.5"))));
    assert_eq!(t.line, 9);
}

#[test]
fn kind_names() {
    assert_eq!(TokenType::LeftParen.name(), "LEFT_PAREN");
    assert_eq!(TokenType::BangEqual.name(), "BANG_EQUAL");
    assert_eq!(TokenType::Identifier.name(), "IDENTIFIER");
    assert_eq!(TokenType::While.name(), "WHILE");
    assert_eq!(TokenType::EOF.name(), "EOF");
}

#[test]
fn eof_line_counts_every_line_terminator() {
    let src = String::from("a\n\"x\ny\"\n// c\n\n@");
    let (tokens, errors, _) = scan(&src);
    assert_eq!(tokens.last().unwrap().token_type, TokenType::EOF);
    assert_eq!(tokens.last().unwrap().line, 6);
    assert_eq!(tokens[1].line, 3);
    assert_eq!(
        errors,
        vec![ScanError { kind: ScanErrorKind::UnexpectedCharacter('@'), line: 6 }]
    );
}

#[test]
fn only_numbers_and_strings_carry_literals() {
    let src = String::from("x 0 \"\" 7.25 true nil");
    let (tokens, _, _) = scan(&src);
    assert_eq!(
        kinds(&tokens),
        vec![
            TokenType::Identifier,
            TokenType::Number,
            TokenType::String,
            TokenType::Number,
            TokenType::True,
            TokenType::Nil,
            TokenType::EOF
        ]
    );
    assert!(tokens[0].literal.is_none());
    assert_eq!(tokens[1].literal, Some(Literal::Number(String::from("0"))));
    assert_eq!(tokens[2].lexeme, "\"\"");
    assert_eq!(tokens[2].literal, Some(Literal::String(String::new())));
    assert_eq!(number_value(&tokens[3]), 7.25);
    assert!(tokens[4].literal.is_none());
    assert!(tokens[5].literal.is_none());
    assert!(tokens[6].literal.is_none());
}
