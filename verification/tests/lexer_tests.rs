use monkey_lexer::lexer::Lexer;
use monkey_lexer::token::{Kind, Token};

/// Scan `input` and check that the tokens come out exactly as `expected`,
/// kind and text both, in order.
fn assert_scans_to(input: &str, expected: &[(Kind, &str)]) {
    let bytes = input.as_bytes();
    let mut lex = Lexer::new(bytes);
    for (i, (kind, text)) in expected.iter().enumerate() {
        let tok = lex.next_token();
        assert_eq!(tok.kind, *kind, "token #{} of {:?}", i, input);
        assert_eq!(tok.literal, text.as_bytes(), "token #{} of {:?}", i, input);
    }
}

#[test]
fn test_next_token() {
    let input = r#"
            let five = 5;
                let ten = 10;
            let add = fn(x, y) {
            x + y;
            };
            let result = add(five, ten);
        "#;

    let tests = [
        (Kind::LET, "let"),
        (Kind::IDENT, "five"),
        (Kind::ASSIGN, "="),
        (Kind::INT, "5"),
        (Kind::SEMICOLON, ";"),
        (Kind::LET, "let"),
        (Kind::IDENT, "ten"),
        (Kind::ASSIGN, "="),
        (Kind::INT, "10"),
        (Kind::SEMICOLON, ";"),
        (Kind::LET, "let"),
        (Kind::IDENT, "add"),
        (Kind::ASSIGN, "="),
        (Kind::FUNCTION, "fn"),
        (Kind::LPAREN, "("),
        (Kind::IDENT, "x"),
        (Kind::COMMA, ","),
        (Kind::IDENT, "y"),
        (Kind::RPAREN, ")"),
        (Kind::LBRACE, "{"),
        (Kind::IDENT, "x"),
        (Kind::PLUS, "+"),
        (Kind::IDENT, "y"),
        (Kind::SEMICOLON, ";"),
        (Kind::RBRACE, "}"),
        (Kind::SEMICOLON, ";"),
        (Kind::LET, "let"),
        (Kind::IDENT, "result"),
        (Kind::ASSIGN, "="),
        (Kind::IDENT, "add"),
        (Kind::LPAREN, "("),
        (Kind::IDENT, "five"),
        (Kind::COMMA, ","),
        (Kind::IDENT, "ten"),
        (Kind::RPAREN, ")"),
        (Kind::SEMICOLON, ";"),
        (Kind::EOF, ""),
    ];

    assert_scans_to(input, &tests);
}

#[test]
fn scan_terminates_within_input_length_plus_one_calls() {
    let inputs = ["", "   ", "let five = 5;", "@@@@", "abc", "a b\tc\nd\re"];
    for input in inputs.iter() {
        let bytes = input.as_bytes();
        let mut lex = Lexer::new(bytes);
        let mut calls: usize = 0;
        loop {
            let tok = lex.next_token();
            calls += 1;
            if tok.kind == Kind::EOF {
                break;
            }
            assert!(calls <= bytes.len() + 1, "no EOF within {} calls on {:?}", calls, input);
        }
        assert!(calls <= bytes.len() + 1);
    }
}

#[test]
fn concatenated_token_text_is_input_without_whitespace() {
    let inputs = ["let five = 5;", "  a1 + (b2) \t {c}\n; ", "", "   \r\n", "x=y"];
    for input in inputs.iter() {
        let mut lex = Lexer::new(input.as_bytes());
        let mut concatenated: Vec<u8> = Vec::new();
        loop {
            let tok = lex.next_token();
            if tok.kind == Kind::EOF {
                break;
            }
            concatenated.extend_from_slice(&tok.literal);
        }
        let stripped: Vec<u8> = input
            .bytes()
            .filter(|b| *b != b' ' && *b != b'\t' && *b != b'\n' && *b != b'\r')
            .collect();
        assert_eq!(concatenated, stripped, "on {:?}", input);
    }
}

#[test]
fn maximal_munch_keeps_letters_and_digits_together() {
    assert_scans_to(
        "let5 x",
        &[(Kind::IDENT, "let5"), (Kind::IDENT, "x"), (Kind::EOF, "")],
    );
}

#[test]
fn keyword_match_is_exact() {
    assert_scans_to("let", &[(Kind::LET, "let"), (Kind::EOF, "")]);
    assert_scans_to("letx", &[(Kind::IDENT, "letx"), (Kind::EOF, "")]);
    assert_scans_to("fn", &[(Kind::FUNCTION, "fn"), (Kind::EOF, "")]);
}

#[test]
fn unrecognized_byte_scans_as_illegal() {
    assert_scans_to("@", &[(Kind::ILLEGAL, "@"), (Kind::EOF, "")]);
}

#[test]
fn non_ascii_byte_scans_as_illegal() {
    let bytes: Vec<u8> = vec![0xC3, 0xA9];
    let mut lex = Lexer::new(&bytes);
    let tok = lex.next_token();
    assert_eq!(tok.kind, Kind::ILLEGAL);
    assert_eq!(tok.literal, vec![0xC3]);
    let tok = lex.next_token();
    assert_eq!(tok.kind, Kind::ILLEGAL);
    assert_eq!(tok.literal, vec![0xA9]);
    assert_eq!(lex.next_token().kind, Kind::EOF);
}

#[test]
fn simple_statement_scans_end_to_end() {
    assert_scans_to(
        "let five = 5;",
        &[
            (Kind::LET, "let"),
            (Kind::IDENT, "five"),
            (Kind::ASSIGN, "="),
            (Kind::INT, "5"),
            (Kind::SEMICOLON, ";"),
            (Kind::EOF, ""),
        ],
    );
}

#[test]
fn eof_repeats_on_every_later_call() {
    let mut lex = Lexer::new("a".as_bytes());
    let tok = lex.next_token();
    assert_eq!(tok.kind, Kind::IDENT);
    for _ in 0..5 {
        let tok = lex.next_token();
        assert_eq!(tok.kind, Kind::EOF);
        assert_eq!(tok.literal, Vec::<u8>::new());
    }
}

#[test]
fn empty_input_scans_to_eof_at_once() {
    assert_scans_to("", &[(Kind::EOF, ""), (Kind::EOF, "")]);
}

#[test]
fn whitespace_only_input_scans_to_eof() {
    assert_scans_to(" \t\r\n ", &[(Kind::EOF, ""), (Kind::EOF, "")]);
}

#[test]
fn every_fixed_punctuation_byte_scans_to_its_kind() {
    assert_scans_to(
        "=;(),+{}",
        &[
            (Kind::ASSIGN, "="),
            (Kind::SEMICOLON, ";"),
            (Kind::LPAREN, "("),
            (Kind::RPAREN, ")"),
            (Kind::COMMA, ","),
            (Kind::PLUS, "+"),
            (Kind::LBRACE, "{"),
            (Kind::RBRACE, "}"),
            (Kind::EOF, ""),
        ],
    );
}

#[test]
fn integer_run_is_maximal() {
    assert_scans_to(
        "10 007x",
        &[
            (Kind::INT, "10"),
            (Kind::INT, "007"),
            (Kind::IDENT, "x"),
            (Kind::EOF, ""),
        ],
    );
}

#[test]
fn lookup_keyword_resolves_reserved_spellings() {
    assert_eq!(Token::lookup_keyword(b"let"), Kind::LET);
    assert_eq!(Token::lookup_keyword(b"fn"), Kind::FUNCTION);
    assert_eq!(Token::lookup_keyword(b"letx"), Kind::IDENT);
    assert_eq!(Token::lookup_keyword(b"Let"), Kind::IDENT);
    assert_eq!(Token::lookup_keyword(b"fN"), Kind::IDENT);
    assert_eq!(Token::lookup_keyword(b""), Kind::IDENT);
    assert_eq!(Token::lookup_keyword(b"lett"), Kind::IDENT);
    assert_eq!(Token::lookup_keyword(b"f"), Kind::IDENT);
}

#[test]
fn default_token_is_eof_with_empty_text() {
    let tok = Token::default();
    assert_eq!(tok.kind, Kind::EOF);
    assert!(tok.literal.is_empty());
    assert_eq!(Kind::default(), Kind::EOF);
}

#[test]
fn scanning_resumes_after_illegal_token() {
    assert_scans_to(
        "a @ b",
        &[
            (Kind::IDENT, "a"),
            (Kind::ILLEGAL, "@"),
            (Kind::IDENT, "b"),
            (Kind::EOF, ""),
        ],
    );
}
