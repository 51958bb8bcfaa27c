use lox_scanner::error::{ScanError, ScanErrorKind};
use lox_scanner::scanner::Scanner;
use lox_scanner::token::{Token, TokenKind};

fn scan(src: &str) -> Result<Vec<Token>, ScanError> {
    Scanner::new(src.chars().collect()).scan_tokens()
}

fn kinds(tokens: &[Token]) -> Vec<TokenKind> {
    tokens.iter().map(|t| t.kind).collect()
}

fn lexemes(tokens: &[Token]) -> Vec<String> {
    tokens.iter().map(|t| t.lexeme.clone()).collect()
}

fn lines(tokens: &[Token]) -> Vec<i64> {
    tokens.iter().map(|t| t.line).collect()
}

#[test]
fn bang_equal_is_one_token() {
    let tokens = scan("!=").unwrap();
    assert_eq!(kinds(&tokens), vec![TokenKind::BangEqual, TokenKind::Eof]);
    assert_eq!(tokens[0].lexeme, "!=");
}

#[test]
fn bang_before_other_char_is_one_bang() {
    let tokens = scan("!;").unwrap();
    assert_eq!(kinds(&tokens), vec![TokenKind::Bang, TokenKind::Semicolon, TokenKind::Eof]);
    assert_eq!(tokens[0].lexeme, "!");
}

#[test]
fn equal_equal_maximal_munch() {
    let tokens = scan("==").unwrap();
    assert_eq!(kinds(&tokens), vec![TokenKind::EqualEqual, TokenKind::Eof]);
    let spaced = scan("= =").unwrap();
    assert_eq!(kinds(&spaced), vec![TokenKind::Equal, TokenKind::Equal, TokenKind::Eof]);
}

#[test]
fn two_char_operators() {
    let tokens = scan("<= >= == != < > = !").unwrap();
    assert_eq!(
        kinds(&tokens),
        vec![
            TokenKind::LessEqual,
            TokenKind::GreaterEqual,
            TokenKind::EqualEqual,
            TokenKind::BangEqual,
            TokenKind::Less,
            TokenKind::Greater,
            TokenKind::Equal,
            TokenKind::Bang,
            TokenKind::Eof,
        ]
    );
}

#[test]
fn classic_is_identifier() {
    let tokens = scan("classic").unwrap();
    assert_eq!(kinds(&tokens), vec![TokenKind::Identifier, TokenKind::Eof]);
    assert_eq!(tokens[0].lexeme, "classic");
}

#[test]
fn class_is_keyword() {
    let tokens = scan("class").unwrap();
    assert_eq!(kinds(&tokens), vec![TokenKind::Class, TokenKind::Eof]);
    assert_eq!(tokens[0].lexeme, "class");
}

#[test]
fn underscore_starts_identifier() {
    let tokens = scan("_foo1").unwrap();
    assert_eq!(kinds(&tokens), vec![TokenKind::Identifier, TokenKind::Eof]);
    assert_eq!(tokens[0].lexeme, "_foo1");
}

#[test]
fn all_keywords_scan_to_their_kinds() {
    let tokens = scan(
        "and class else false for fun if nil or print return super this true var while",
    )
    .unwrap();
    assert_eq!(
        kinds(&tokens),
        vec![
            TokenKind::And,
            TokenKind::Class,
            TokenKind::Else,
            TokenKind::False,
            TokenKind::For,
            TokenKind::Fun,
            TokenKind::If,
            TokenKind::Nil,
            TokenKind::Or,
            TokenKind::Print,
            TokenKind::Return,
            TokenKind::Super,
            TokenKind::This,
            TokenKind::True,
            TokenKind::Var,
            TokenKind::While,
            TokenKind::Eof,
        ]
    );
}

#[test]
fn number_with_fraction() {
    let tokens = scan("1.5").unwrap();
    assert_eq!(kinds(&tokens), vec![TokenKind::Number, TokenKind::Eof]);
    assert_eq!(tokens[0].lexeme, "1.5");
}

#[test]
fn number_trailing_dot_is_two_tokens() {
    let tokens = scan("1.").unwrap();
    assert_eq!(kinds(&tokens), vec![TokenKind::Number, TokenKind::Dot, TokenKind::Eof]);
    assert_eq!(tokens[0].lexeme, "1");
    assert_eq!(tokens[1].lexeme, ".");
}

#[test]
fn number_dot_identifier() {
    let tokens = scan("1.foo").unwrap();
    assert_eq!(
        kinds(&tokens),
        vec![TokenKind::Number, TokenKind::Dot, TokenKind::Identifier, TokenKind::Eof]
    );
    assert_eq!(lexemes(&tokens), vec!["1", ".", "foo", ""]);
}

#[test]
fn number_then_identifier() {
    let tokens = scan("123abc").unwrap();
    assert_eq!(kinds(&tokens), vec![TokenKind::Number, TokenKind::Identifier, TokenKind::Eof]);
    assert_eq!(lexemes(&tokens), vec!["123", "abc", ""]);
}

#[test]
fn line_tracking() {
    let tokens = scan("var x\n= 1;").unwrap();
    assert_eq!(
        kinds(&tokens),
        vec![
            TokenKind::Var,
            TokenKind::Identifier,
            TokenKind::Equal,
            TokenKind::Number,
            TokenKind::Semicolon,
            TokenKind::Eof,
        ]
    );
    assert_eq!(lines(&tokens), vec![1, 1, 2, 2, 2, 2]);
}

#[test]
fn comment_skipping() {
    let tokens = scan("// comment\nvar x;").unwrap();
    assert_eq!(
        kinds(&tokens),
        vec![TokenKind::Var, TokenKind::Identifier, TokenKind::Semicolon, TokenKind::Eof]
    );
    assert_eq!(lines(&tokens), vec![2, 2, 2, 2]);
}

#[test]
fn comment_without_newline_gives_only_eof() {
    let tokens = scan("// abc").unwrap();
    assert_eq!(kinds(&tokens), vec![TokenKind::Eof]);
    assert_eq!(tokens[0].line, 1);
}

#[test]
fn slash_alone_is_a_token() {
    let tokens = scan("/").unwrap();
    assert_eq!(kinds(&tokens), vec![TokenKind::Slash, TokenKind::Eof]);
    assert_eq!(tokens[0].lexeme, "/");
}

#[test]
fn string_token_spans_quotes() {
    let tokens = scan("\"hi\" x").unwrap();
    assert_eq!(kinds(&tokens), vec![TokenKind::Str, TokenKind::Identifier, TokenKind::Eof]);
    assert_eq!(tokens[0].lexeme, "\"hi\"");
    assert_eq!(tokens[0].line, 1);
}

#[test]
fn multiline_string_is_tagged_with_its_opening_line() {
    let tokens = scan("\"a\nb\" x").unwrap();
    assert_eq!(kinds(&tokens), vec![TokenKind::Str, TokenKind::Identifier, TokenKind::Eof]);
    assert_eq!(tokens[0].lexeme, "\"a\nb\"");
    assert_eq!(lines(&tokens), vec![1, 2, 2]);
}

#[test]
fn unterminated_string_fails_at_opening_line() {
    let err = scan("\"abc").unwrap_err();
    assert_eq!(err.kind, ScanErrorKind::UnterminatedString);
    assert_eq!(err.line, 1);
    assert_eq!(err.message(), "Unterminated string.");
}

#[test]
fn unexpected_character_fails() {
    let err = scan("@").unwrap_err();
    assert_eq!(err.kind, ScanErrorKind::UnexpectedCharacter);
    assert_eq!(err.line, 1);
    assert_eq!(err.message(), "Unexpected character");
}

#[test]
fn unexpected_character_reports_its_line() {
    let err = scan("\n\n@").unwrap_err();
    assert_eq!(err.kind, ScanErrorKind::UnexpectedCharacter);
    assert_eq!(err.line, 3);
}

#[test]
fn empty_source_gives_single_eof() {
    let tokens = scan("").unwrap();
    assert_eq!(kinds(&tokens), vec![TokenKind::Eof]);
    assert_eq!(tokens[0].lexeme, "");
    assert_eq!(tokens[0].line, 1);
}

#[test]
fn whitespace_only_counts_lines() {
    let tokens = scan(" \t\r\n").unwrap();
    assert_eq!(kinds(&tokens), vec![TokenKind::Eof]);
    assert_eq!(tokens[0].line, 2);
}

#[test]
fn eof_is_unique_and_last() {
    let tokens = scan("var x = 1; // done\nprint x;").unwrap();
    let eof_count = tokens.iter().filter(|t| t.kind == TokenKind::Eof).count();
    assert_eq!(eof_count, 1);
    assert_eq!(tokens.last().unwrap().kind, TokenKind::Eof);
    assert_eq!(tokens.last().unwrap().lexeme, "");
}

#[test]
fn lines_never_decrease() {
    let tokens = scan("a\nb\n\"c\nd\"\ne//x\nf").unwrap();
    let tags = lines(&tokens);
    for w in tags.windows(2) {
        assert!(w[0] <= w[1]);
    }
}

#[test]
fn reconstruction_without_skipped_text() {
    let src = "(){},.-+;*/<>=!";
    let tokens = scan(src).unwrap();
    let rebuilt: String = lexemes(&tokens).concat();
    assert_eq!(rebuilt, src);
}

#[test]
fn reconstruction_with_skipped_text() {
    let src = "var x = 10; // ten\nprint x;";
    let tokens = scan(src).unwrap();
    // The exact skipped stretches between consecutive lexemes.
    let gaps = ["", " ", " ", " ", "", " // ten\n", " ", "", ""];
    let mut rebuilt = String::new();
    for (gap, tok) in gaps.iter().zip(tokens.iter()) {
        rebuilt.push_str(gap);
        rebuilt.push_str(&tok.lexeme);
    }
    assert_eq!(rebuilt, src);
}

#[test]
fn keyword_table_holds_the_sixteen_reserved_words() {
    let table = Scanner::load_keywords();
    let expected = vec![
        ("and", TokenKind::And),
        ("class", TokenKind::Class),
        ("else", TokenKind::Else),
        ("false", TokenKind::False),
        ("for", TokenKind::For),
        ("fun", TokenKind::Fun),
        ("if", TokenKind::If),
        ("nil", TokenKind::Nil),
        ("or", TokenKind::Or),
        ("print", TokenKind::Print),
        ("return", TokenKind::Return),
        ("super", TokenKind::Super),
        ("this", TokenKind::This),
        ("true", TokenKind::True),
        ("var", TokenKind::Var),
        ("while", TokenKind::While),
    ];
    assert_eq!(table.len(), expected.len());
    for ((word, kind), (expected_word, expected_kind)) in
        table.iter().map(|(w, k)| (w.as_str(), *k)).zip(expected)
    {
        assert_eq!(word, expected_word);
        assert_eq!(kind, expected_kind);
    }
}

#[test]
fn token_new_keeps_its_fields() {
    let t = Token::new(TokenKind::Var, "var".to_string(), 3);
    assert_eq!(t.kind, TokenKind::Var);
    assert_eq!(t.lexeme, "var");
    assert_eq!(t.line, 3);
}
