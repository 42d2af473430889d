use c4::charclass::{continues_word, is_ascii_digit, is_space, starts_word, to_digit};
use c4::lexer::is_reserved;
use c4::text::spells;
use c4::{tokenize, Lexer, Position, Token};

fn at(line: usize, column: usize) -> Position {
    Position { line, column }
}

fn ident(name: &str, line: usize, column: usize) -> Token {
    Token::Identifier(name.to_string(), at(line, column))
}

fn keyword(text: &str, line: usize, column: usize) -> Token {
    Token::Keyword(text.to_string(), at(line, column))
}

#[test]
fn digits_are_one_number() {
    for text in ["0", "7", "42", "007", "2147483647", "1000000000"] {
        let value: i32 = text.parse().unwrap();
        assert_eq!(tokenize(text), vec![Token::Number(value, at(1, 0))]);
        let mut lexer = Lexer::new(text);
        assert_eq!(lexer.next_token(), Token::Number(value, at(1, 0)));
        assert_eq!(lexer.next_token(), Token::Eof);
    }
}

#[test]
fn number_too_large_becomes_the_largest() {
    assert_eq!(tokenize("2147483647"), vec![Token::Number(2147483647, at(1, 0))]);
    assert_eq!(tokenize("2147483648"), vec![Token::Number(i32::MAX, at(1, 0))]);
    assert_eq!(tokenize("99999999999999999999999"), vec![Token::Number(i32::MAX, at(1, 0))]);
    assert_eq!(
        tokenize("4294967296 1"),
        vec![Token::Number(i32::MAX, at(1, 0)), Token::Number(1, at(1, 11))]
    );
}

#[test]
fn words_are_identifiers_unless_reserved() {
    for text in
        ["x", "_", "_a1", "abc", "Return", "returns", "INT", "iff", "a_b_c9", "for_", "int2"]
    {
        assert_eq!(tokenize(text), vec![ident(text, 1, 0)]);
    }
    for text in ["int", "return", "if", "else", "while", "for"] {
        assert_eq!(tokenize(text), vec![keyword(text, 1, 0)]);
    }
}

#[test]
fn reserved_words_are_exactly_six() {
    for text in ["int", "return", "if", "else", "while", "for"] {
        assert!(is_reserved(text));
    }
    for text in ["", "i", "in", "Int", "retur", "return ", "elsee", "fo", "whil", "do", "char"] {
        assert!(!is_reserved(text));
    }
}

#[test]
fn empty_input_ends_at_once() {
    assert_eq!(tokenize(""), vec![]);
    let mut lexer = Lexer::new("");
    assert_eq!(lexer.next_token(), Token::Eof);
}

#[test]
fn blank_input_ends_at_once() {
    assert_eq!(tokenize(" \t\r\n  \n"), vec![]);
    let mut lexer = Lexer::new("   ");
    assert_eq!(lexer.next_token(), Token::Eof);
    assert_eq!(lexer.next_token(), Token::Eof);
}

#[test]
fn line_and_column_are_tracked() {
    let mut lexer = Lexer::new("\n  +");
    assert_eq!(lexer.next_token(), Token::Symbol('+', at(2, 2)));
    assert_eq!(lexer.next_token(), Token::Eof);
}

#[test]
fn positions_over_several_lines() {
    assert_eq!(
        tokenize("return\n  x1 +\n\n\t42;"),
        vec![
            keyword("return", 1, 0),
            ident("x1", 2, 2),
            Token::Symbol('+', at(2, 5)),
            Token::Number(42, at(4, 1)),
            Token::Symbol(';', at(4, 3)),
        ]
    );
}

#[test]
fn carriage_return_counts_as_a_column() {
    assert_eq!(tokenize("\r\n\ra"), vec![ident("a", 2, 1)]);
}

#[test]
fn tokens_need_no_space_between_them() {
    assert_eq!(
        tokenize("a=(1+b2)*3;"),
        vec![
            ident("a", 1, 0),
            Token::Symbol('=', at(1, 1)),
            Token::Symbol('(', at(1, 2)),
            Token::Number(1, at(1, 3)),
            Token::Symbol('+', at(1, 4)),
            ident("b2", 1, 5),
            Token::Symbol(')', at(1, 7)),
            Token::Symbol('*', at(1, 8)),
            Token::Number(3, at(1, 9)),
            Token::Symbol(';', at(1, 10)),
        ]
    );
}

#[test]
fn digits_then_letters_are_two_tokens() {
    assert_eq!(tokenize("12ab"), vec![Token::Number(12, at(1, 0)), ident("ab", 1, 2)]);
    assert_eq!(tokenize("ab12"), vec![ident("ab12", 1, 0)]);
}

#[test]
fn any_other_character_is_a_symbol() {
    assert_eq!(
        tokenize("@ # é ≤"),
        vec![
            Token::Symbol('@', at(1, 0)),
            Token::Symbol('#', at(1, 2)),
            Token::Symbol('é', at(1, 4)),
            Token::Symbol('≤', at(1, 6)),
        ]
    );
}

#[test]
fn letters_and_digits_outside_ascii_are_symbols() {
    assert_eq!(
        tokenize("é٣"),
        vec![Token::Symbol('é', at(1, 0)), Token::Symbol('٣', at(1, 1))]
    );
}

#[test]
fn whitespace_is_what_the_standard_library_calls_whitespace() {
    for code in 0..=0x10FFFFu32 {
        if let Some(c) = char::from_u32(code) {
            assert_eq!(is_space(c), c.is_whitespace(), "U+{:04X}", code);
        }
    }
}

#[test]
fn character_classes_agree_with_the_standard_library() {
    for code in 0..=0x10FFFFu32 {
        if let Some(c) = char::from_u32(code) {
            assert_eq!(is_ascii_digit(c), c.is_ascii_digit());
            assert_eq!(starts_word(c), c.is_ascii_alphabetic() || c == '_');
            assert_eq!(continues_word(c), c.is_ascii_alphanumeric() || c == '_');
            assert_eq!(to_digit(c), c.to_digit(10).map(|d| d as i32));
        }
    }
}

#[test]
fn unicode_whitespace_is_skipped() {
    assert_eq!(tokenize("\u{00A0}\u{2003}\u{3000}x"), vec![ident("x", 1, 3)]);
    assert_eq!(tokenize("\u{0085}\u{2028}\u{2029}7"), vec![Token::Number(7, at(1, 3))]);
}

#[test]
fn end_of_input_is_given_again_and_again() {
    let mut lexer = Lexer::new("a");
    assert_eq!(lexer.next_token(), ident("a", 1, 0));
    for _ in 0..5 {
        assert_eq!(lexer.next_token(), Token::Eof);
    }
}

#[test]
fn same_source_gives_same_tokens() {
    for source in ["", "return 2 + 3 * 4;", "a\n b\n\n c", "12ab $ ?? int", "99999999999"] {
        let mut first = Lexer::new(source);
        let mut second = Lexer::new(source);
        loop {
            let a = first.next_token();
            let b = second.next_token();
            assert_eq!(a, b);
            if a == Token::Eof {
                break;
            }
        }
        assert_eq!(tokenize(source), tokenize(source));
    }
}

#[test]
fn tokenize_gives_what_next_token_gives() {
    let source = "return (alpha + 12) / x_1 ;\n";
    let mut lexer = Lexer::new(source);
    let mut tokens = vec![];
    loop {
        let t = lexer.next_token();
        if let Token::Eof = t {
            break;
        }
        tokens.push(t);
    }
    assert_eq!(tokenize(source), tokens);
    assert_eq!(tokens.len(), 9);
}

#[test]
fn token_positions() {
    assert_eq!(Token::Number(1, at(3, 4)).position(), Some(at(3, 4)));
    assert_eq!(ident("a", 1, 2).position(), Some(at(1, 2)));
    assert_eq!(keyword("if", 5, 0).position(), Some(at(5, 0)));
    assert_eq!(Token::Symbol('+', at(9, 9)).position(), Some(at(9, 9)));
    assert_eq!(Token::Eof.position(), None);
}

#[test]
fn token_clone_is_equal() {
    for token in [
        Token::Number(-5, at(3, 4)),
        ident("name", 1, 2),
        keyword("while", 5, 0),
        Token::Symbol('+', at(9, 9)),
        Token::Eof,
    ] {
        assert_eq!(token.clone(), token);
    }
}

#[test]
fn token_in_words() {
    let cases = [
        (Token::Number(12, at(1, 0)), "number 12"),
        (Token::Number(-12, at(1, 0)), "number -12"),
        (Token::Number(i32::MIN, at(1, 0)), "number -2147483648"),
        (ident("abc", 1, 0), "identifier 'abc'"),
        (keyword("for", 1, 0), "keyword 'for'"),
        (Token::Symbol(';', at(1, 0)), "symbol ';'"),
        (Token::Eof, "end of input"),
    ];
    for (token, words) in cases {
        let mut out = String::from("> ");
        token.describe(&mut out);
        assert_eq!(out, format!("> {}", words));
    }
}

#[test]
fn position_in_words() {
    let mut out = String::new();
    at(12, 0).describe(&mut out);
    assert_eq!(out, "line 12, column 0");
    let mut out = String::from("at ");
    at(1, 305).describe(&mut out);
    assert_eq!(out, "at line 1, column 305");
}

#[test]
fn spells_compares_whole_texts() {
    assert!(spells("", ""));
    assert!(spells("return", "return"));
    assert!(spells("é≤", "é≤"));
    assert!(!spells("return", "returns"));
    assert!(!spells("returns", "return"));
    assert!(!spells("return", "retorn"));
    assert!(!spells("a", ""));
}
