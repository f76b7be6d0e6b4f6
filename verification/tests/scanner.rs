use twee::lexer::Lexer;
use twee::lexer::Token;
use twee::lexer::TokenType;
use twee::text::char_is_control;
use twee::text::char_is_whitespace;
use twee::text::chars_of;
use twee::text::push_decimal;
use twee::text::push_hex_pair;
use twee::text::push_signed_decimal;
use twee::text::text_eq;

fn all_tokens(source: &str) -> Vec<Token> {
    let mut lexer = Lexer::new(source);
    let mut tokens = Vec::new();
    loop {
        let token = lexer.next_token().unwrap();
        let last = token.token_type == TokenType::EOF;
        tokens.push(token);
        if last {
            return tokens;
        }
    }
}

fn kinds(source: &str) -> Vec<TokenType> {
    all_tokens(source).iter().map(|t| t.token_type).collect()
}

fn lexemes(source: &str) -> Vec<String> {
    all_tokens(source).iter().map(|t| t.lexeme.clone()).collect()
}

#[test]
fn scans_a_declaration() {
    let source = "int x = 5;";
    assert_eq!(
        kinds(source),
        vec![
            TokenType::DataType,
            TokenType::Identifier,
            TokenType::Equals,
            TokenType::Number,
            TokenType::Semi,
            TokenType::EOF
        ]
    );
    assert_eq!(lexemes(source), vec!["int", "x", "=", "5", ";", ""]);
}

#[test]
fn scans_every_punctuation_mark() {
    assert_eq!(
        kinds("= ; : , + - / * ( ) { }"),
        vec![
            TokenType::Equals,
            TokenType::Semi,
            TokenType::Colon,
            TokenType::Comma,
            TokenType::Add,
            TokenType::Sub,
            TokenType::Div,
            TokenType::Mul,
            TokenType::LParen,
            TokenType::RParen,
            TokenType::LBrace,
            TokenType::RBrace,
            TokenType::EOF
        ]
    );
}

#[test]
fn keywords_and_identifiers() {
    assert_eq!(
        kinds("int char char* return returns chars _x1 intx"),
        vec![
            TokenType::DataType,
            TokenType::DataType,
            TokenType::DataType,
            TokenType::Return,
            TokenType::Identifier,
            TokenType::Identifier,
            TokenType::Identifier,
            TokenType::Identifier,
            TokenType::EOF
        ]
    );
    assert_eq!(lexemes("char* s")[0], "char*");
    assert_eq!(lexemes("a*b"), vec!["a*b", ""]);
}

#[test]
fn a_number_is_one_token_with_its_text() {
    for literal in ["0", "5", "42", "12.5", "0.25", "1234567890.0987654321"] {
        let tokens = all_tokens(literal);
        assert_eq!(tokens.len(), 2);
        assert_eq!(tokens[0].token_type, TokenType::Number);
        assert_eq!(tokens[0].lexeme, literal);
        assert_eq!(tokens[1].token_type, TokenType::EOF);
    }
}

#[test]
fn a_point_without_a_digit_behind_it_ends_the_number() {
    let mut lexer = Lexer::new("7.");
    let number = lexer.next_token().unwrap();
    assert_eq!(number.token_type, TokenType::Number);
    assert_eq!(number.lexeme, "7");
    assert_eq!(
        lexer.next_token().unwrap_err(),
        "[twee::error] unknown character '.'"
    );
    let mut second = Lexer::new("1.5.5");
    assert_eq!(second.next_token().unwrap().lexeme, "1.5");
    assert!(second.next().is_none());
    assert_eq!(second.next_token().unwrap().lexeme, "5");
}

#[test]
fn numeric_characters_beyond_ascii_go_on_a_number() {
    let tokens = all_tokens("1\u{b2}\u{663} x");
    assert_eq!(tokens[0].token_type, TokenType::Number);
    assert_eq!(tokens[0].lexeme, "1\u{b2}\u{663}");
    assert_eq!(tokens[1].lexeme, "x");
    let point = all_tokens("1.\u{b2}");
    assert_eq!(point[0].lexeme, "1.\u{b2}");
    let mut letters = Lexer::new("1a");
    assert_eq!(letters.next_token().unwrap().lexeme, "1");
    assert_eq!(letters.next_token().unwrap().lexeme, "a");
}

#[test]
fn escapes_are_resolved() {
    let tokens = all_tokens(r#""a\nb\tc\rd\\e\'f\"g\0h""#);
    assert_eq!(tokens[0].token_type, TokenType::String);
    assert_eq!(tokens[0].lexeme, "a\nb\tc\rd\\e'f\"g\0h");
    assert_eq!(tokens[1].token_type, TokenType::EOF);
}

#[test]
fn an_unknown_escape_stays_as_written() {
    assert_eq!(all_tokens(r#""a\qb""#)[0].lexeme, "a\\qb");
}

#[test]
fn either_quote_delimits_a_string() {
    assert_eq!(all_tokens("'A'")[0].lexeme, "A");
    assert_eq!(all_tokens("'say \"hi\"'")[0].lexeme, "say \"hi\"");
    assert_eq!(all_tokens("\"it's\"")[0].lexeme, "it's");
    assert_eq!(all_tokens("\"\"")[0].lexeme, "");
}

#[test]
fn an_unterminated_string_is_an_error() {
    for source in ["\"abc", "'", "\"abc\\", "\"abc\\\"", "\"abc'"] {
        let mut lexer = Lexer::new(source);
        assert_eq!(lexer.next_token().unwrap_err(), "Unterminated string literal");
        let mut again = Lexer::new(source);
        assert!(again.next().is_none());
    }
}

#[test]
fn an_unknown_character_is_an_error_that_names_it() {
    let mut lexer = Lexer::new("a @ b");
    assert_eq!(lexer.next_token().unwrap().lexeme, "a");
    assert_eq!(
        lexer.next_token().unwrap_err(),
        "[twee::error] unknown character '@'"
    );
    assert_eq!(lexer.next_token().unwrap().lexeme, "b");
}

#[test]
fn comments_and_whitespace_are_passed_over() {
    let source = "-- a comment\n  x -- another\n\t-- last";
    assert_eq!(lexemes(source), vec!["x", ""]);
    assert_eq!(kinds("a - b"), vec![
        TokenType::Identifier,
        TokenType::Sub,
        TokenType::Identifier,
        TokenType::EOF
    ]);
    assert_eq!(lexemes("x\u{a0}\u{2003}\u{3000}y"), vec!["x", "y", ""]);
}

#[test]
fn eof_comes_again_and_again() {
    let mut lexer = Lexer::new("x");
    assert_eq!(lexer.next().unwrap().token_type, TokenType::Identifier);
    for _ in 0..3 {
        let token = lexer.next().unwrap();
        assert_eq!(token.token_type, TokenType::EOF);
        assert_eq!(token.lexeme, "");
    }
    let mut empty = Lexer::new("");
    let token = empty.next().unwrap();
    assert_eq!(token.token_type, TokenType::EOF);
    assert_eq!((token.line, token.column), (1, 1));
}

#[test]
fn tokens_carry_the_place_of_their_first_character() {
    let tokens = all_tokens("int x\n  = 5;\n\n");
    let places: Vec<(usize, usize)> = tokens.iter().map(|t| (t.line, t.column)).collect();
    assert_eq!(places, vec![(1, 1), (1, 5), (2, 3), (2, 5), (2, 6), (4, 1)]);
}

#[test]
fn a_copy_of_a_scanner_goes_its_own_way() {
    let mut lexer = Lexer::new("a b c");
    assert_eq!(lexer.next().unwrap().lexeme, "a");
    let mut copy = lexer.clone();
    assert_eq!(lexer.next().unwrap().lexeme, "b");
    assert_eq!(copy.next().unwrap().lexeme, "b");
    assert_eq!(copy.next().unwrap().lexeme, "c");
    assert_eq!(lexer.next().unwrap().lexeme, "c");
}

#[test]
fn whitespace_is_what_unicode_says() {
    for code in 0..=0x10ffffu32 {
        if let Some(c) = char::from_u32(code) {
            assert_eq!(char_is_whitespace(c), c.is_whitespace());
        }
    }
}

#[test]
fn control_characters_are_what_unicode_says() {
    for code in 0..=0x10ffffu32 {
        if let Some(c) = char::from_u32(code) {
            assert_eq!(char_is_control(c), c.is_control());
        }
    }
}

#[test]
fn numbers_are_written_in_base_ten() {
    for n in [0u64, 7, 10, 99, 100, 65535, u64::MAX] {
        let mut out = String::from("n=");
        push_decimal(&mut out, n);
        assert_eq!(out, format!("n={}", n));
    }
    for i in [0i64, -1, 1, -10, 2147483647, -2147483648, i64::MAX, i64::MIN] {
        let mut out = String::new();
        push_signed_decimal(&mut out, i);
        assert_eq!(out, format!("{}", i));
    }
    for b in [0u8, 1, 9, 10, 15, 16, 0x1f, 0x7f, 0x9f, 0xff] {
        let mut out = String::new();
        push_hex_pair(&mut out, b);
        assert_eq!(out, format!("{:02x}", b));
    }
}

#[test]
fn texts_are_compared_by_their_characters() {
    assert!(text_eq("", ""));
    assert!(text_eq("char*", "char*"));
    assert!(!text_eq("char", "char*"));
    assert!(!text_eq("int", "inu"));
    assert!(text_eq("\u{e9}\u{4e2d}", "\u{e9}\u{4e2d}"));
    assert!(!text_eq("\u{e9}", "e"));
    assert_eq!(chars_of("a\u{e9}\u{1f600}"), vec!['a', '\u{e9}', '\u{1f600}']);
}

#[test]
fn within_ascii_the_digits_are_the_numeric_characters() {
    for code in 0..128u8 {
        let c = code as char;
        let source = format!("1{}", c);
        let mut lexer = Lexer::new(&source);
        let first = lexer.next_token().unwrap();
        assert_eq!(first.token_type, TokenType::Number);
        assert_eq!(first.lexeme.len() == 2, c.is_ascii_digit());
    }
}

#[test]
fn a_string_literal_is_read_from_quote_to_quote() {
    let mut lexer = Lexer::new("\"a\\nb\\\"c'd\" x");
    assert_eq!(lexer.process_string().unwrap(), "a\nb\"c'd");
    assert_eq!(lexer.next_token().unwrap().lexeme, "x");
    let mut single = Lexer::new("'\\t\\r\\\\\\'\\0\"'");
    let value = single.process_string().unwrap();
    assert_eq!(value, "\t\r\\'\0\"");
    assert_eq!(value.chars().count(), 6);
    assert_eq!(single.next_token().unwrap().token_type, TokenType::EOF);
    let mut open = Lexer::new("\"no end\\\" 'here'");
    assert_eq!(open.process_string().unwrap_err(), "Unterminated string literal");
}
