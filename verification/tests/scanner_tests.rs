use rlox::scanner::{Decimal, Diagnostic, LexicalError, Scanner, Token, TokenKind};

/// The scanner on `source`, after one scan.
fn scanned(source: &str) -> Scanner {
    let mut scanner = Scanner::new(source.to_owned());
    scanner.scan_tokens();
    scanner
}

fn kinds(scanner: &Scanner) -> Vec<&TokenKind> {
    scanner.tokens.iter().map(|token| &token.kind).collect()
}

fn lexemes(scanner: &Scanner) -> Vec<&str> {
    scanner.tokens.iter().map(|token| token.lexeme.as_str()).collect()
}

fn lines(scanner: &Scanner) -> Vec<usize> {
    scanner.tokens.iter().map(|token| token.line).collect()
}

/// The numeral `text`, which holds digits and at most one point.
fn decimal(text: &str) -> Decimal {
    let mut parts = text.split('.');
    let whole = parts.next().unwrap_or("");
    let fraction = parts.next().unwrap_or("");
    Decimal {
        whole: whole.bytes().map(|b| b - b'0').collect(),
        fraction: fraction.bytes().map(|b| b - b'0').collect(),
    }
}

/// The magnitude of a number token as a float.
fn magnitude(kind: &TokenKind) -> f32 {
    match kind {
        TokenKind::Number(value) => {
            let mut text = String::new();
            for digit in &value.whole {
                text.push((b'0' + digit) as char);
            }
            if !value.fraction.is_empty() {
                text.push('.');
                for digit in &value.fraction {
                    text.push((b'0' + digit) as char);
                }
            }
            text.parse::<f32>().unwrap()
        }
        other => panic!("not a number: {:?}", other),
    }
}

#[test]
fn new() {
    let scanner = Scanner::new("".to_owned());
    assert!(!scanner.had_errors);
}

#[test]
fn empty_source() {
    let mut scanner = Scanner::new("".to_owned());
    scanner.scan_tokens();

    assert!(!scanner.had_errors);
    assert_eq!(1, scanner.tokens.len());
    assert_eq!(TokenKind::Eof, scanner.tokens[0].kind);
}

#[test]
fn single_char_tokens() {
    let mut scanner = Scanner::new("{}()+".to_owned());
    scanner.scan_tokens();
    assert!(!scanner.had_errors);
    assert_eq!(6, scanner.tokens.len())
}

#[test]
fn multi_line() {
    let source = r#"{}
        >
        <=
        +"#;

    let mut scanner = Scanner::new(source.to_owned());
    scanner.scan_tokens();
    assert!(!scanner.had_errors);
    assert_eq!(6, scanner.tokens.len())
}

#[test]
fn end_of_stream_lookahead() {
    let mut scanner = Scanner::new("<".to_owned());
    scanner.scan_tokens();
    assert!(!scanner.had_errors);

    let scanned_token = &scanner.tokens[0];
    assert_eq!(TokenKind::Less, scanned_token.kind);
}

#[test]
fn comments() {
    let source = r#"
        // This is a comment
        < // another comment
        {// a third comment
        "#;

    let mut scanner = Scanner::new(source.to_owned());
    scanner.scan_tokens();
    assert!(!scanner.had_errors);

    assert_eq!(3, scanner.tokens.len());
}

#[test]
fn string_literal() {
    let source = r#"
        "blop"
        "#;

    let mut scanner = Scanner::new(source.to_owned());
    scanner.scan_tokens();
    assert!(!scanner.had_errors);
    assert_eq!(&TokenKind::String("blop".to_owned()), &scanner.tokens[0].kind);
}

#[test]
fn multi_line_string_literal() {
    let source = String::from(r#"
        "blop
        blip"
        "#);

    let literal = String::from(r#"blop
        blip"#);

    let mut scanner = Scanner::new(source);
    scanner.scan_tokens();
    assert!(!scanner.had_errors);
    assert_eq!(&TokenKind::String(literal), &scanner.tokens[0].kind);
}

#[test]
fn numbers() {
    let source = String::from("7 42 3.14 8A");
    let mut scanner = Scanner::new(source);
    scanner.scan_tokens();
    assert!(!scanner.had_errors);

    assert_eq!(7.0, magnitude(&scanner.tokens[0].kind));
    assert_eq!(42.0, magnitude(&scanner.tokens[1].kind));
    assert_eq!(3.14, magnitude(&scanner.tokens[2].kind));

    // 8A is not a number
    assert_eq!(8.00, magnitude(&scanner.tokens[3].kind));
    assert_eq!(&TokenKind::Identifier, &scanner.tokens[4].kind);

    assert_eq!(&TokenKind::Number(decimal("7")), &scanner.tokens[0].kind);
    assert_eq!(&TokenKind::Number(decimal("42")), &scanner.tokens[1].kind);
    assert_eq!(&TokenKind::Number(decimal("3.14")), &scanner.tokens[2].kind);
    assert_eq!(&TokenKind::Number(decimal("8")), &scanner.tokens[3].kind);
    assert_eq!("A", scanner.tokens[4].lexeme);
    assert_eq!(&TokenKind::Eof, &scanner.tokens[5].kind);
    assert_eq!(6, scanner.tokens.len());
}

#[test]
fn identifiers() {
    let source = String::from("or k8s _blop var counter");
    let mut scanner = Scanner::new(source);
    scanner.scan_tokens();
    assert!(!scanner.had_errors);

    assert_eq!(&TokenKind::Or, &scanner.tokens[0].kind);
    assert_eq!(&TokenKind::Identifier, &scanner.tokens[1].kind);
    assert_eq!(&TokenKind::Identifier, &scanner.tokens[2].kind);
    assert_eq!(&TokenKind::Var, &scanner.tokens[3].kind);
    assert_eq!(&TokenKind::Identifier, &scanner.tokens[4].kind);
    assert_eq!(&TokenKind::Eof, &scanner.tokens[5].kind);
}

#[test]
fn token_new_keeps_its_parts() {
    let token = Token::new(TokenKind::Plus, "+".to_owned(), 7);
    assert_eq!(TokenKind::Plus, token.kind);
    assert_eq!("+", token.lexeme);
    assert_eq!(7, token.line);
}

#[test]
fn new_scanner_is_at_the_start() {
    let scanner = Scanner::new("a\nb".to_owned());
    assert_eq!("a\nb", scanner.source);
    assert!(scanner.tokens.is_empty());
    assert!(scanner.diagnostics.is_empty());
    assert_eq!(0, scanner.current);
    assert_eq!(1, scanner.line);
}

#[test]
fn single_char_tokens_and_blanks() {
    let scanner = scanned("{}()+ ");
    assert!(!scanner.had_errors);
    assert_eq!(6, scanner.tokens.len());
    assert_eq!(
        vec![
            &TokenKind::LeftBrace,
            &TokenKind::RightBrace,
            &TokenKind::LeftParen,
            &TokenKind::RightParen,
            &TokenKind::Plus,
            &TokenKind::Eof,
        ],
        kinds(&scanner)
    );
}

#[test]
fn every_punctuation_character() {
    let scanner = scanned("(){},.-+;*/");
    assert!(!scanner.had_errors);
    assert_eq!(
        vec![
            &TokenKind::LeftParen,
            &TokenKind::RightParen,
            &TokenKind::LeftBrace,
            &TokenKind::RightBrace,
            &TokenKind::Comma,
            &TokenKind::Dot,
            &TokenKind::Minus,
            &TokenKind::Plus,
            &TokenKind::SemiColon,
            &TokenKind::Star,
            &TokenKind::Slash,
            &TokenKind::Eof,
        ],
        kinds(&scanner)
    );
    assert_eq!(
        vec!["(", ")", "{", "}", ",", ".", "-", "+", ";", "*", "/", ""],
        lexemes(&scanner)
    );
}

#[test]
fn less_then_eof() {
    let scanner = scanned("<");
    assert_eq!(vec![&TokenKind::Less, &TokenKind::Eof], kinds(&scanner));
    assert_eq!(vec!["<", ""], lexemes(&scanner));
    assert_eq!(vec![1, 1], lines(&scanner));
}

#[test]
fn operators_take_a_following_equal() {
    let scanner = scanned("! != = == < <= > >=");
    assert!(!scanner.had_errors);
    assert_eq!(
        vec![
            &TokenKind::Bang,
            &TokenKind::BangEqual,
            &TokenKind::Equal,
            &TokenKind::EqualEqual,
            &TokenKind::Less,
            &TokenKind::LessEqual,
            &TokenKind::Greater,
            &TokenKind::GreaterEqual,
            &TokenKind::Eof,
        ],
        kinds(&scanner)
    );
    assert_eq!(
        vec!["!", "!=", "=", "==", "<", "<=", ">", ">=", ""],
        lexemes(&scanner)
    );
}

#[test]
fn longest_operator_wins() {
    let scanner = scanned("===!<==");
    assert_eq!(
        vec![
            &TokenKind::EqualEqual,
            &TokenKind::Equal,
            &TokenKind::Bang,
            &TokenKind::LessEqual,
            &TokenKind::Equal,
            &TokenKind::Eof,
        ],
        kinds(&scanner)
    );
}

#[test]
fn lines_follow_the_source() {
    let scanner = scanned("{}\n        >\n        <=\n        +");
    assert_eq!(
        vec![
            &TokenKind::LeftBrace,
            &TokenKind::RightBrace,
            &TokenKind::Greater,
            &TokenKind::LessEqual,
            &TokenKind::Plus,
            &TokenKind::Eof,
        ],
        kinds(&scanner)
    );
    assert_eq!(vec![1, 1, 2, 3, 4, 4], lines(&scanner));
}

#[test]
fn lines_never_go_down() {
    let scanner = scanned("a\n\n\"x\ny\" b // c\n@ 1.5\n\"open\n\n");
    let lines = lines(&scanner);
    for pair in lines.windows(2) {
        assert!(pair[0] <= pair[1]);
    }
    assert_eq!(vec![1, 3, 4, 5, 8], lines);
}

#[test]
fn blank_lines_count() {
    let scanner = scanned("\n\n+\r\n\t-\n");
    assert_eq!(vec![3, 4, 5], lines(&scanner));
    assert_eq!(vec!["+", "-", ""], lexemes(&scanner));
}

#[test]
fn comment_gives_no_token() {
    let scanner = scanned("// comment\n<");
    assert!(!scanner.had_errors);
    assert_eq!(vec![&TokenKind::Less, &TokenKind::Eof], kinds(&scanner));
    assert_eq!(vec![2, 2], lines(&scanner));
}

#[test]
fn comment_runs_to_the_end_of_input() {
    let scanner = scanned("+ // no line feed \" @");
    assert!(!scanner.had_errors);
    assert_eq!(vec![&TokenKind::Plus, &TokenKind::Eof], kinds(&scanner));
}

#[test]
fn lone_slash_divides() {
    let scanner = scanned("1 / 2");
    assert_eq!(
        vec![
            &TokenKind::Number(decimal("1")),
            &TokenKind::Slash,
            &TokenKind::Number(decimal("2")),
            &TokenKind::Eof,
        ],
        kinds(&scanner)
    );
}

#[test]
fn string_payload_has_no_quotes() {
    let scanner = scanned("\"blop\"");
    assert!(!scanner.had_errors);
    assert_eq!(
        vec![&TokenKind::String("blop".to_owned()), &TokenKind::Eof],
        kinds(&scanner)
    );
    assert_eq!(vec!["\"blop\"", ""], lexemes(&scanner));
}

#[test]
fn empty_string_literal() {
    let scanner = scanned("\"\"");
    assert!(!scanner.had_errors);
    assert_eq!(
        vec![&TokenKind::String("".to_owned()), &TokenKind::Eof],
        kinds(&scanner)
    );
}

#[test]
fn string_over_two_lines() {
    let scanner = scanned("\"blop\nblip\" +");
    assert!(!scanner.had_errors);
    assert_eq!(
        vec![
            &TokenKind::String("blop\nblip".to_owned()),
            &TokenKind::Plus,
            &TokenKind::Eof,
        ],
        kinds(&scanner)
    );
    // the string starts on the first line and ends on the second
    assert_eq!(vec![1, 2, 2], lines(&scanner));
}

#[test]
fn unterminated_string() {
    let scanner = scanned("\"abc");
    assert!(scanner.had_errors);
    assert_eq!(vec![&TokenKind::Eof], kinds(&scanner));
    assert_eq!(
        vec![Diagnostic { line: 1, error: LexicalError::UnterminatedString }],
        scanner.diagnostics
    );
}

#[test]
fn unterminated_string_swallows_the_rest() {
    let scanner = scanned("+ \"abc\n- 1\n");
    assert!(scanner.had_errors);
    assert_eq!(vec![&TokenKind::Plus, &TokenKind::Eof], kinds(&scanner));
    assert_eq!(vec![1, 3], lines(&scanner));
    assert_eq!(
        vec![Diagnostic { line: 3, error: LexicalError::UnterminatedString }],
        scanner.diagnostics
    );
}

#[test]
fn unexpected_character() {
    let scanner = scanned("1 @\n# 2");
    assert!(scanner.had_errors);
    assert_eq!(
        vec![
            &TokenKind::Number(decimal("1")),
            &TokenKind::Number(decimal("2")),
            &TokenKind::Eof,
        ],
        kinds(&scanner)
    );
    assert_eq!(
        vec![
            Diagnostic { line: 1, error: LexicalError::UnexpectedCharacter },
            Diagnostic { line: 2, error: LexicalError::UnexpectedCharacter },
        ],
        scanner.diagnostics
    );
}

#[test]
fn diagnostic_messages() {
    let unexpected = Diagnostic { line: 1, error: LexicalError::UnexpectedCharacter };
    let unterminated = Diagnostic { line: 1, error: LexicalError::UnterminatedString };
    assert_eq!("Unexpected character", unexpected.message());
    assert_eq!("Unterminated string", unterminated.message());
}

#[test]
fn number_then_letter() {
    let scanner = scanned("7 42 3.14 8A");
    assert!(!scanner.had_errors);
    assert_eq!(
        vec![
            &TokenKind::Number(decimal("7")),
            &TokenKind::Number(decimal("42")),
            &TokenKind::Number(decimal("3.14")),
            &TokenKind::Number(decimal("8")),
            &TokenKind::Identifier,
            &TokenKind::Eof,
        ],
        kinds(&scanner)
    );
    assert_eq!(vec!["7", "42", "3.14", "8", "A", ""], lexemes(&scanner));
}

#[test]
fn number_digits() {
    let scanner = scanned("007.250");
    assert_eq!(
        &TokenKind::Number(Decimal { whole: vec![0, 0, 7], fraction: vec![2, 5, 0] }),
        &scanner.tokens[0].kind
    );
    assert_eq!(7.25, magnitude(&scanner.tokens[0].kind));
    assert_eq!("007.250", scanner.tokens[0].lexeme);
}

#[test]
fn point_needs_a_digit_after_it() {
    let scanner = scanned("3. 4.x .5");
    assert!(!scanner.had_errors);
    assert_eq!(
        vec![
            &TokenKind::Number(decimal("3")),
            &TokenKind::Dot,
            &TokenKind::Number(decimal("4")),
            &TokenKind::Dot,
            &TokenKind::Identifier,
            &TokenKind::Dot,
            &TokenKind::Number(decimal("5")),
            &TokenKind::Eof,
        ],
        kinds(&scanner)
    );
}

#[test]
fn second_point_ends_the_number() {
    let scanner = scanned("1.5.25");
    assert_eq!(
        vec![
            &TokenKind::Number(decimal("1.5")),
            &TokenKind::Dot,
            &TokenKind::Number(decimal("25")),
            &TokenKind::Eof,
        ],
        kinds(&scanner)
    );
}

#[test]
fn number_at_the_end_of_input() {
    let scanner = scanned("12.");
    assert_eq!(
        vec![&TokenKind::Number(decimal("12")), &TokenKind::Dot, &TokenKind::Eof],
        kinds(&scanner)
    );
}

#[test]
fn long_number() {
    let scanner = scanned("123456789012345678901234567890.5");
    assert!(!scanner.had_errors);
    assert_eq!(
        &TokenKind::Number(decimal("123456789012345678901234567890.5")),
        &scanner.tokens[0].kind
    );
    assert_eq!(123456789012345678901234567890.5, magnitude(&scanner.tokens[0].kind));
}

#[test]
fn reserved_words() {
    let scanner = scanned(
        "and class else false fun for if nil or print return super this true var while",
    );
    assert!(!scanner.had_errors);
    assert_eq!(
        vec![
            &TokenKind::And,
            &TokenKind::Class,
            &TokenKind::Else,
            &TokenKind::False,
            &TokenKind::Fun,
            &TokenKind::For,
            &TokenKind::If,
            &TokenKind::Nil,
            &TokenKind::Or,
            &TokenKind::Print,
            &TokenKind::Return,
            &TokenKind::Super,
            &TokenKind::This,
            &TokenKind::True,
            &TokenKind::Var,
            &TokenKind::While,
            &TokenKind::Eof,
        ],
        kinds(&scanner)
    );
}

#[test]
fn reserved_words_match_exactly() {
    let scanner = scanned("Or OR orb o fo fort _or or_ nil1");
    assert!(!scanner.had_errors);
    assert_eq!(10, scanner.tokens.len());
    for token in &scanner.tokens[..9] {
        assert_eq!(TokenKind::Identifier, token.kind);
    }
    assert_eq!(
        vec!["Or", "OR", "orb", "o", "fo", "fort", "_or", "or_", "nil1", ""],
        lexemes(&scanner)
    );
}

#[test]
fn names_hold_digits_and_underscores() {
    let scanner = scanned("or k8s _blop var counter snake_case_2");
    assert_eq!(
        vec![
            &TokenKind::Or,
            &TokenKind::Identifier,
            &TokenKind::Identifier,
            &TokenKind::Var,
            &TokenKind::Identifier,
            &TokenKind::Identifier,
            &TokenKind::Eof,
        ],
        kinds(&scanner)
    );
    assert_eq!(
        vec!["or", "k8s", "_blop", "var", "counter", "snake_case_2", ""],
        lexemes(&scanner)
    );
}

#[test]
fn names_go_on_over_alphanumeric_characters() {
    // a letter outside ASCII begins no name, but continues one
    let scanner = scanned("caf\u{e9}9 \u{e9}");
    assert!(scanner.had_errors);
    assert_eq!(vec![&TokenKind::Identifier, &TokenKind::Eof], kinds(&scanner));
    assert_eq!(vec!["caf\u{e9}9", ""], lexemes(&scanner));
    assert_eq!(
        vec![Diagnostic { line: 1, error: LexicalError::UnexpectedCharacter }],
        scanner.diagnostics
    );
}

#[test]
fn name_stops_at_what_is_not_alphanumeric() {
    let scanner = scanned("ab-cd e\tf\ng(h)");
    assert_eq!(
        vec!["ab", "-", "cd", "e", "f", "g", "(", "h", ")", ""],
        lexemes(&scanner)
    );
}

#[test]
fn lexemes_are_the_source_text() {
    let source = "var x = (12.5 + y) >= \"s t\"; // end";
    let scanner = scanned(source);
    assert!(!scanner.had_errors);
    assert_eq!(
        vec!["var", "x", "=", "(", "12.5", "+", "y", ")", ">=", "\"s t\"", ";", ""],
        lexemes(&scanner)
    );
    let mut rest = source;
    for token in &scanner.tokens {
        let at = rest.find(token.lexeme.as_str()).unwrap();
        rest = &rest[at + token.lexeme.len()..];
    }
}

#[test]
fn eof_only_at_the_end() {
    let scanner = scanned("a + \"b\" @ 1 // c\n");
    let last = scanner.tokens.len() - 1;
    assert_eq!(TokenKind::Eof, scanner.tokens[last].kind);
    assert_eq!("", scanner.tokens[last].lexeme);
    assert_eq!(2, scanner.tokens[last].line);
    for token in &scanner.tokens[..last] {
        assert_ne!(TokenKind::Eof, token.kind);
    }
}

#[test]
fn second_scan_adds_an_eof() {
    let mut scanner = scanned("+");
    scanner.scan_tokens();
    assert_eq!(
        vec![&TokenKind::Plus, &TokenKind::Eof, &TokenKind::Eof],
        kinds(&scanner)
    );
}

#[test]
fn kinds_compare_by_payload() {
    assert_eq!(TokenKind::String("a".to_owned()), TokenKind::String("a".to_owned()));
    assert_ne!(TokenKind::String("a".to_owned()), TokenKind::String("b".to_owned()));
    assert_eq!(TokenKind::Number(decimal("1.5")), TokenKind::Number(decimal("1.5")));
    assert_ne!(TokenKind::Number(decimal("1.5")), TokenKind::Number(decimal("1.50")));
    assert_ne!(TokenKind::Number(decimal("15")), TokenKind::Number(decimal("1.5")));
    assert_ne!(TokenKind::Less, TokenKind::LessEqual);
    assert_ne!(TokenKind::Identifier, TokenKind::String("".to_owned()));
}

#[test]
fn clones_are_equal() {
    let token = Token::new(TokenKind::Number(decimal("3.14")), "3.14".to_owned(), 2);
    assert_eq!(token, token.clone());
    let text = Token::new(TokenKind::String("x".to_owned()), "\"x\"".to_owned(), 1);
    assert_eq!(text, text.clone());
}
