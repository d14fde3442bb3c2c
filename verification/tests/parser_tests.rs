use gentzen::ast::{Claim, Formula};
use gentzen::lexer::lex;
use gentzen::parser::Parsable;

fn lit(s: &str) -> Formula {
    Formula::Literal(s.to_string())
}

fn not(f: Formula) -> Formula {
    Formula::Not(Box::new(f))
}

fn and(l: Formula, r: Formula) -> Formula {
    Formula::And { lhs: Box::new(l), rhs: Box::new(r) }
}

fn or(l: Formula, r: Formula) -> Formula {
    Formula::Or { lhs: Box::new(l), rhs: Box::new(r) }
}

fn imp(l: Formula, r: Formula) -> Formula {
    Formula::Implication { lhs: Box::new(l), rhs: Box::new(r) }
}

fn formula_of(s: &str) -> Formula {
    let toks = lex(s.to_string()).unwrap();
    Formula::parse(&toks).unwrap()
}

fn claim_of(s: &str) -> Claim {
    let toks = lex(s.to_string()).unwrap();
    Claim::parse(&toks).unwrap()
}

#[test]
fn parse_atoms() {
    assert_eq!(formula_of("p"), lit("p"));
    assert_eq!(formula_of("false"), Formula::Bottom);
    assert_eq!(formula_of("!p"), not(lit("p")));
    assert_eq!(formula_of("!!p"), not(not(lit("p"))));
}

#[test]
fn parse_precedence_and_over_or() {
    assert_eq!(formula_of("p & q | r"), or(and(lit("p"), lit("q")), lit("r")));
    assert_eq!(formula_of("p | q & r"), or(lit("p"), and(lit("q"), lit("r"))));
}

#[test]
fn parse_implication_weakest_and_right_associative() {
    assert_eq!(
        formula_of("p -> q -> r"),
        imp(lit("p"), imp(lit("q"), lit("r")))
    );
    assert_eq!(
        formula_of("p | q -> r & s"),
        imp(or(lit("p"), lit("q")), and(lit("r"), lit("s")))
    );
}

#[test]
fn parse_parentheses_override_precedence() {
    assert_eq!(formula_of("(p | q) & r"), and(or(lit("p"), lit("q")), lit("r")));
    assert_eq!(
        formula_of("(p -> q) -> r"),
        imp(imp(lit("p"), lit("q")), lit("r"))
    );
    assert_eq!(formula_of("!(p & q)"), not(and(lit("p"), lit("q"))));
}

#[test]
fn parse_claim_sides() {
    let c = claim_of("p, q => r");
    assert_eq!(c.lhs, vec![lit("p"), lit("q")]);
    assert_eq!(c.rhs, vec![lit("r")]);
}

#[test]
fn parse_claim_empty_sides() {
    let c = claim_of("=> p");
    assert!(c.lhs.is_empty());
    assert_eq!(c.rhs, vec![lit("p")]);
    let d = claim_of("p =>");
    assert_eq!(d.lhs, vec![lit("p")]);
    assert!(d.rhs.is_empty());
}

#[test]
fn parse_rejects_missing_arrow() {
    let toks = lex("p q => r".to_string()).unwrap();
    assert!(Claim::parse(&toks).is_none());
}

#[test]
fn parse_rejects_unbalanced_parenthesis() {
    let toks = lex("(p => q".to_string()).unwrap();
    assert!(Claim::parse(&toks).is_none());
}

#[test]
fn parse_rejects_trailing_tokens() {
    let toks = lex("p => q )".to_string()).unwrap();
    assert!(Claim::parse(&toks).is_none());
}

#[test]
fn parse_partial_leaves_suffix() {
    let toks = lex("p & q => r".to_string()).unwrap();
    let (f, rest) = Formula::parse_partial(&toks).unwrap();
    assert_eq!(f, and(lit("p"), lit("q")));
    assert_eq!(rest.len(), 2);
}

#[test]
fn parse_list_stops_before_non_formula() {
    let toks = lex("p, q => r".to_string()).unwrap();
    let (fs, rest) = Vec::<Formula>::parse_partial(&toks).unwrap();
    assert_eq!(fs, vec![lit("p"), lit("q")]);
    assert_eq!(rest.len(), 2);
}
