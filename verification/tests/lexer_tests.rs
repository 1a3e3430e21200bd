use schemer::decimal::Decimal;
use schemer::lexer::{LexError, Lexer};
use schemer::tokens::{SpecialToken, Token, TokenInfo, TypeName};

fn lex(text: &str) -> Vec<TokenInfo> {
    match Lexer::new().run(text) {
        Ok(tokens) => tokens,
        Err(error) => panic!("{}", error.message()),
    }
}

fn kinds(text: &str) -> Vec<Token> {
    lex(text).iter().skip(1).map(|info| info.token().clone()).collect()
}

fn to_float(d: &Decimal) -> f64 {
    let mut a = d.mantissa as f64;
    let mut e = d.exponent;
    while e > 0 {
        a *= 10.0;
        e -= 1;
    }
    while e < 0 {
        a *= 0.1;
        e += 1;
    }
    if d.negative {
        -a
    } else {
        a
    }
}

#[test]
fn stream_starts_with_the_sentinel() {
    let tokens = lex("");
    assert_eq!(tokens.len(), 1);
    assert_eq!(*tokens[0].token(), Token::Nil);
    assert_eq!(tokens[0].position(), (0, 0));
}

#[test]
fn longest_match_keeps_identifiers_whole() {
    assert_eq!(kinds("integers"), vec![Token::Ident("integers".to_string())]);
    assert_eq!(kinds("integer"), vec![Token::Type(TypeName::TypeInteger)]);
    assert_eq!(kinds("int"), vec![Token::Ident("int".to_string())]);
    assert_eq!(kinds("enum_1"), vec![Token::Ident("enum_1".to_string())]);
    assert_eq!(kinds("true1"), vec![Token::Ident("true1".to_string())]);
    assert_eq!(kinds("enum"), vec![Token::Special(SpecialToken::Enum)]);
}

#[test]
fn number_scan_is_exact() {
    let tokens = kinds("1.5e2");
    assert_eq!(tokens.len(), 1);
    match &tokens[0] {
        Token::Floating(d) => {
            assert_eq!(*d, Decimal { negative: false, mantissa: 15, exponent: 1 });
            assert_eq!(to_float(d), 150.0);
        }
        other => panic!("not a floating token: {:?}", other),
    }
    assert_eq!(kinds("42"), vec![Token::Integer(42)]);
}

#[test]
fn trailing_dot_is_left_for_the_next_token() {
    let lexer = Lexer::new();
    match lexer.run("3.") {
        Err(error) => {
            assert_eq!(error, LexError { character: '.', line: 1, column: 2 });
            assert_eq!(error.message(), "Unexpected character '.' at 1:2");
        }
        Ok(_) => panic!("a single dot is no token"),
    }
    assert_eq!(
        kinds("3..7"),
        vec![Token::Integer(3), Token::Special(SpecialToken::Interval), Token::Integer(7)]
    );
}

#[test]
fn positions_count_lines_and_columns() {
    let tokens = lex("a\n  b: string");
    let places: Vec<(usize, usize)> = tokens.iter().map(|t| t.position()).collect();
    assert_eq!(places, vec![(0, 0), (1, 1), (2, 3), (2, 4), (2, 6)]);
}

#[test]
fn strings_process_escapes() {
    assert_eq!(kinds(r#""a\nb""#), vec![Token::String("a\nb".to_string())]);
    assert_eq!(kinds(r#""q\"q""#), vec![Token::String("q\"q".to_string())]);
    assert_eq!(kinds(r#""x\yz""#), vec![Token::String("x\\yz".to_string())]);
    assert_eq!(kinds(r#""open"#), vec![Token::String("open".to_string())]);
}

#[test]
fn comments_give_no_token() {
    assert_eq!(
        kinds("a # b c\n d"),
        vec![Token::Ident("a".to_string()), Token::Ident("d".to_string())]
    );
}

#[test]
fn characters_that_start_no_token_are_errors() {
    let lexer = Lexer::new();
    for (text, character, line, column) in
        [("a ?", '?', 1, 3), ("a\n\u{e9}", '\u{e9}', 2, 1), ("\0", '\0', 1, 1), ("x . y", '.', 1, 3)]
    {
        match lexer.run(text) {
            Err(error) => {
                assert_eq!(error, LexError { character, line, column });
                assert_eq!(error.position(), (line, column));
            }
            Ok(_) => panic!("lexed: {:?}", text),
        }
    }
}

#[test]
fn signs_and_keywords_are_tokens() {
    assert_eq!(
        kinds("( ) { } [ ] = , : ; + - .. enum null"),
        vec![
            Token::Special(SpecialToken::LParen),
            Token::Special(SpecialToken::RParen),
            Token::Special(SpecialToken::LBrace),
            Token::Special(SpecialToken::RBrace),
            Token::Special(SpecialToken::LBracket),
            Token::Special(SpecialToken::RBracket),
            Token::Special(SpecialToken::Equal),
            Token::Special(SpecialToken::Comma),
            Token::Special(SpecialToken::Colon),
            Token::Special(SpecialToken::Semicolon),
            Token::Special(SpecialToken::Plus),
            Token::Special(SpecialToken::Minus),
            Token::Special(SpecialToken::Interval),
            Token::Special(SpecialToken::Enum),
            Token::Special(SpecialToken::Null),
        ]
    );
    assert_eq!(
        kinds("string integer floating boolean object any true false"),
        vec![
            Token::Type(TypeName::TypeString),
            Token::Type(TypeName::TypeInteger),
            Token::Type(TypeName::TypeFloating),
            Token::Type(TypeName::TypeBoolean),
            Token::Type(TypeName::TypeObject),
            Token::Ident("any".to_string()),
            Token::Boolean(true),
            Token::Boolean(false),
        ]
    );
    assert_eq!(kinds("-5"), vec![Token::Special(SpecialToken::Minus), Token::Integer(5)]);
    assert_eq!(kinds("a#b"), vec![Token::Ident("a".to_string())]);
    assert_eq!(kinds("_x1 x_"), vec![Token::Ident("_x1".to_string()), Token::Ident("x_".to_string())]);
}

#[test]
fn numbers_beside_other_tokens() {
    assert_eq!(
        kinds("1e5x"),
        vec![
            Token::Floating(Decimal { negative: false, mantissa: 1, exponent: 5 }),
            Token::Ident("x".to_string())
        ]
    );
    assert_eq!(kinds("3e"), vec![Token::Integer(3), Token::Ident("e".to_string())]);
    assert_eq!(kinds("12abc"), vec![Token::Integer(12), Token::Ident("abc".to_string())]);
    assert_eq!(to_float(&Decimal { negative: false, mantissa: 15, exponent: -1 }), 15.0 * 0.1);
}
