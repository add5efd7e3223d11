use rslox::scanner::{Scanner, Token, TokenError, TOKEN};

fn scan_all(source: &str) -> Vec<Result<Token, TokenError>> {
    let mut scanner = Scanner::new(source.to_string());
    let mut out = Vec::new();
    loop {
        let r = scanner.scan_token();
        let done = match &r {
            Ok(t) => t.ty == TOKEN::EOF,
            Err(_) => true,
        };
        out.push(r);
        if done {
            return out;
        }
    }
}

fn kinds(source: &str) -> Vec<TOKEN> {
    scan_all(source).into_iter().map(|r| r.unwrap().ty).collect()
}

#[test]
fn single_punctuation_is_one_token_of_length_one() {
    let cases = [
        ("(", TOKEN::LEFT_PAREN),
        (")", TOKEN::RIGHT_PAREN),
        ("{", TOKEN::LEFT_BRACE),
        ("}", TOKEN::RIGHT_BRACE),
        (",", TOKEN::COMMA),
        (".", TOKEN::DOT),
        ("-", TOKEN::MINUS),
        ("+", TOKEN::PLUS),
        (";", TOKEN::SEMICOLON),
        ("/", TOKEN::SLASH),
        ("*", TOKEN::STAR),
    ];
    for (src, kind) in cases {
        let tokens = scan_all(src);
        assert_eq!(tokens.len(), 2, "{src}");
        let t = tokens[0].as_ref().unwrap();
        assert_eq!(t.ty, kind);
        assert_eq!(t.start, 0);
        assert_eq!(t.length, 1);
        assert_eq!(t.line, 1);
        assert_eq!(tokens[1].as_ref().unwrap().ty, TOKEN::EOF);
    }
}

#[test]
fn two_char_operators_are_one_token() {
    let cases = [
        ("!=", TOKEN::BANG_EQUAL),
        ("==", TOKEN::EQUAL_EQUAL),
        ("<=", TOKEN::LESS_EQUAL),
        (">=", TOKEN::GREATER_EQUAL),
    ];
    for (src, kind) in cases {
        let tokens = scan_all(src);
        assert_eq!(tokens.len(), 2, "{src}");
        let t = tokens[0].as_ref().unwrap();
        assert_eq!(t.ty, kind);
        assert_eq!(t.length, 2);
    }
}

#[test]
fn one_char_operators_without_equal() {
    assert_eq!(kinds("!"), vec![TOKEN::BANG, TOKEN::EOF]);
    assert_eq!(kinds("="), vec![TOKEN::EQUAL, TOKEN::EOF]);
    assert_eq!(kinds("< >"), vec![TOKEN::LESS, TOKEN::GREATER, TOKEN::EOF]);
    assert_eq!(kinds("!!="), vec![TOKEN::BANG, TOKEN::BANG_EQUAL, TOKEN::EOF]);
}

#[test]
fn unterminated_string_reports_error() {
    let tokens = scan_all("\"abc");
    let e = tokens.last().unwrap().as_ref().err().unwrap();
    assert_eq!(e.message, "Unterminated string.");
    assert_eq!(e.line, 1);
}

#[test]
fn unterminated_string_reports_its_starting_line() {
    let tokens = scan_all("\n\"ab\ncd\n");
    let e = tokens.last().unwrap().as_ref().err().unwrap();
    assert_eq!(e.message, "Unterminated string.");
    assert_eq!(e.line, 2);
}

#[test]
fn string_spans_quotes_and_counts_lines() {
    let mut scanner = Scanner::new("\"a\nb\" +".to_string());
    let t = scanner.scan_token().unwrap();
    assert_eq!(t.ty, TOKEN::STRING);
    assert_eq!(t.start, 0);
    assert_eq!(t.length, 5);
    assert_eq!(t.line, 2);
    assert_eq!(scanner.lexeme(&t), "\"a\nb\"");
    let plus = scanner.scan_token().unwrap();
    assert_eq!(plus.ty, TOKEN::PLUS);
    assert_eq!(plus.line, 2);
}

#[test]
fn keywords_are_recognised_exactly() {
    let words = [
        ("and", TOKEN::AND),
        ("class", TOKEN::CLASS),
        ("else", TOKEN::ELSE),
        ("false", TOKEN::FALSE),
        ("for", TOKEN::FOR),
        ("fun", TOKEN::FUN),
        ("if", TOKEN::IF),
        ("nil", TOKEN::NIL),
        ("or", TOKEN::OR),
        ("print", TOKEN::PRINT),
        ("return", TOKEN::RETURN),
        ("super", TOKEN::SUPER),
        ("this", TOKEN::THIS),
        ("true", TOKEN::TRUE),
        ("var", TOKEN::VAR),
        ("while", TOKEN::WHILE),
    ];
    for (w, kind) in words {
        assert_eq!(kinds(w), vec![kind, TOKEN::EOF], "{w}");
    }
}

#[test]
fn near_miss_keywords_are_identifiers() {
    for w in ["printer", "_print", "Print", "whiles", "an", "x1", "fo_r"] {
        let tokens = scan_all(w);
        let t = tokens[0].as_ref().unwrap();
        assert_eq!(t.ty, TOKEN::IDENTIFIER, "{w}");
        assert_eq!(t.length, w.len());
    }
}

#[test]
fn numbers_take_a_fraction_only_with_digits_after_the_dot() {
    let tokens = scan_all("12.5");
    assert_eq!(tokens[0].as_ref().unwrap().ty, TOKEN::NUMBER);
    assert_eq!(tokens[0].as_ref().unwrap().length, 4);
    assert_eq!(kinds("12."), vec![TOKEN::NUMBER, TOKEN::DOT, TOKEN::EOF]);
    assert_eq!(scan_all("12.")[0].as_ref().unwrap().length, 2);
    assert_eq!(kinds("1.2.3"), vec![TOKEN::NUMBER, TOKEN::DOT, TOKEN::NUMBER, TOKEN::EOF]);
}

#[test]
fn whitespace_and_comments_are_skipped_and_lines_counted() {
    let tokens = scan_all("  // a comment (\n\t+\r\n// last");
    let plus = tokens[0].as_ref().unwrap();
    assert_eq!(plus.ty, TOKEN::PLUS);
    assert_eq!(plus.line, 2);
    assert_eq!(plus.start, 18);
    let eof = tokens[1].as_ref().unwrap();
    assert_eq!(eof.ty, TOKEN::EOF);
    assert_eq!(eof.line, 3);
    assert_eq!(eof.length, 0);
}

#[test]
fn unexpected_character_is_an_error() {
    let tokens = scan_all("\n\n@");
    let e = tokens[0].as_ref().err().unwrap();
    assert_eq!(e.message, "Unexpected character.");
    assert_eq!(e.line, 3);
}

#[test]
fn eof_repeats_at_end_of_input() {
    let mut scanner = Scanner::new("x".to_string());
    assert_eq!(scanner.scan_token().unwrap().ty, TOKEN::IDENTIFIER);
    for _ in 0..3 {
        let t = scanner.scan_token().unwrap();
        assert_eq!(t.ty, TOKEN::EOF);
        assert_eq!(t.start, 1);
        assert_eq!(t.length, 0);
    }
}

#[test]
fn empty_source_gives_eof() {
    assert_eq!(kinds(""), vec![TOKEN::EOF]);
}

#[test]
fn token_names() {
    assert_eq!(TOKEN::BANG_EQUAL.name(), "BANG_EQUAL");
    assert_eq!(TOKEN::EOF.name(), "EOF");
}

#[test]
fn unterminated_string_after_earlier_tokens_reports_its_line() {
    let tokens = scan_all("a\n// note\nb \"x\ny\nz");
    assert_eq!(tokens.len(), 3);
    let e = tokens[2].as_ref().err().unwrap();
    assert_eq!(e.message, "Unterminated string.");
    assert_eq!(e.line, 3);
}
