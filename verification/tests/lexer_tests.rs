use gentzen::lexer::{lex, next_token, Token};

fn lit(s: &str) -> Token {
    Token::Literal(s.to_string())
}

#[test]
fn lex_simple_claim() {
    let toks = lex("p & q => r".to_string()).unwrap();
    assert_eq!(
        toks,
        vec![lit("p"), Token::And, lit("q"), Token::BigArrow, lit("r")]
    );
}

#[test]
fn lex_all_symbols() {
    let toks = lex("!a -> (b | c), false".to_string()).unwrap();
    assert_eq!(
        toks,
        vec![
            Token::Not,
            lit("a"),
            Token::Arrow,
            Token::LParen,
            lit("b"),
            Token::Or,
            lit("c"),
            Token::RParen,
            Token::Comma,
            Token::Bottom,
        ]
    );
}

#[test]
fn lex_greedy_identifier() {
    let toks = lex("abc_12X".to_string()).unwrap();
    assert_eq!(toks, vec![lit("abc_12X")]);
}

#[test]
fn lex_false_keyword_wins_over_identifier() {
    // `false` is matched before an identifier reading, so an identifier
    // beginning with the keyword splits.
    let toks = lex("falsey".to_string()).unwrap();
    assert_eq!(toks, vec![Token::Bottom, lit("y")]);
}

#[test]
fn lex_skips_interior_whitespace() {
    let toks = lex("  p \t &\n q".to_string()).unwrap();
    assert_eq!(toks, vec![lit("p"), Token::And, lit("q")]);
}

#[test]
fn lex_trailing_whitespace_fails() {
    // A whitespace-only remainder holds no token, so the whole input
    // fails; callers trim the end first.
    assert_eq!(lex("p ".to_string()), None);
}

#[test]
fn lex_unknown_character_fails() {
    assert_eq!(lex("p $ q".to_string()), None);
    assert_eq!(lex("p - q".to_string()), None);
    assert_eq!(lex("p = q".to_string()), None);
}

#[test]
fn lex_empty_input_is_empty() {
    assert_eq!(lex(String::new()), Some(vec![]));
}

#[test]
fn next_token_returns_tail() {
    let (tok, tail) = next_token("  p & q").unwrap();
    assert_eq!(tok, lit("p"));
    assert_eq!(tail, " & q");
    let (tok2, tail2) = next_token(&tail).unwrap();
    assert_eq!(tok2, Token::And);
    assert_eq!(tail2, " q");
}

#[test]
fn next_token_arrows() {
    let (tok, tail) = next_token("->x").unwrap();
    assert_eq!(tok, Token::Arrow);
    assert_eq!(tail, "x");
    let (tok2, tail2) = next_token("=> y").unwrap();
    assert_eq!(tok2, Token::BigArrow);
    assert_eq!(tail2, " y");
}

#[test]
fn next_token_none_on_whitespace_only() {
    assert!(next_token("   ").is_none());
    assert!(next_token("").is_none());
}
