use gentzen::ast::{Claim, Formula, ProofTree};
use gentzen::latex::Latex;
use gentzen::lexer::lex;
use gentzen::parser::Parsable;
use gentzen::proofsearch::proof_search;

fn formula_of(s: &str) -> Formula {
    let toks = lex(s.to_string()).unwrap();
    Formula::parse(&toks).unwrap()
}

fn claim_of(s: &str) -> Claim {
    let toks = lex(s.to_string()).unwrap();
    Claim::parse(&toks).unwrap()
}

#[test]
fn latex_atoms() {
    assert_eq!(formula_of("p").latex(), "p");
    assert_eq!(formula_of("false").latex(), "\\bot");
    assert_eq!(formula_of("!p").latex(), "\\neg p");
}

#[test]
fn latex_connectives() {
    assert_eq!(formula_of("p & q").latex(), "p \\wedge q");
    assert_eq!(formula_of("p | q").latex(), "p \\vee q");
    assert_eq!(formula_of("p -> q").latex(), "p \\rightarrow q");
}

#[test]
fn latex_parenthesises_looser_operands() {
    assert_eq!(
        formula_of("(p | q) & r").latex(),
        "\\left(p \\vee q\\right) \\wedge r"
    );
    assert_eq!(
        formula_of("!(p & q)").latex(),
        "\\neg \\left(p \\wedge q\\right)"
    );
    assert_eq!(formula_of("p & q | r").latex(), "p \\wedge q \\vee r");
}

#[test]
fn latex_implication_is_right_associative() {
    // The right-nested reading needs no parentheses; a left-nested
    // implication is wrapped.
    assert_eq!(
        formula_of("p -> q -> r").latex(),
        "p \\rightarrow q \\rightarrow r"
    );
    assert_eq!(
        formula_of("(p -> q) -> r").latex(),
        "\\left(p \\rightarrow q\\right) \\rightarrow r"
    );
}

#[test]
fn latex_claim_joins_sides() {
    assert_eq!(claim_of("p, q => r").latex(), "p, q \\Rightarrow r");
    assert_eq!(claim_of("=> p").latex(), " \\Rightarrow p");
    assert_eq!(claim_of("p =>").latex(), "p \\Rightarrow ");
}

#[test]
fn latex_open_tree_is_its_claim() {
    let t = ProofTree::Open(claim_of("p => q"));
    assert_eq!(t.latex(), "p \\Rightarrow q");
}

#[test]
fn latex_closed_axiom_tree() {
    let t = proof_search(ProofTree::Open(claim_of("p => p")));
    assert_eq!(t.latex(), "\\frac{}{p \\Rightarrow p}\\quad Ax");
}

#[test]
fn latex_joins_subproofs_with_quad() {
    let t = proof_search(ProofTree::Open(claim_of("p & q => q & p")));
    assert_eq!(
        t.latex(),
        "\\frac{\\frac{\\frac{}{p, q \\Rightarrow q}\\quad Ax\\quad \\frac{}{p, q \\Rightarrow p}\\quad Ax}{p, q \\Rightarrow q \\wedge p}\\quad \\wedge R}{p \\wedge q \\Rightarrow q \\wedge p}\\quad \\wedge L"
    );
}

#[test]
fn latex_precedence_ranks() {
    assert_eq!(formula_of("p").precedence(), 0);
    assert_eq!(formula_of("!p").precedence(), 0);
    assert_eq!(formula_of("false").precedence(), 0);
    assert_eq!(formula_of("p & q").precedence(), 1);
    assert_eq!(formula_of("p | q").precedence(), 2);
    assert_eq!(formula_of("p -> q").precedence(), 3);
}
