use gentzen::ast::{Claim, ProofRule, ProofTree};
use gentzen::lexer::lex;
use gentzen::parser::Parsable;
use gentzen::proofsearch::{apply_proof_rule, proof_search};

fn claim_of(s: &str) -> Claim {
    let toks = lex(s.to_string()).unwrap();
    Claim::parse(&toks).unwrap()
}

fn search(s: &str) -> ProofTree {
    proof_search(ProofTree::Open(claim_of(s)))
}

fn has_open_leaf(t: &ProofTree) -> bool {
    match t {
        ProofTree::Open(_) => true,
        ProofTree::Complete { subproofs, .. } => subproofs.iter().any(has_open_leaf),
    }
}

#[test]
fn axiom_closes_shared_atom() {
    // `p => p` closes at once via the axiom rule, with no children.
    match search("p => p") {
        ProofTree::Complete { subproofs, rule, .. } => {
            assert_eq!(rule, ProofRule::Axiom);
            assert!(subproofs.is_empty());
        }
        ProofTree::Open(_) => panic!("expected a closed tree"),
    }
}

#[test]
fn axiom_closes_shared_compound_formula() {
    // The axiom rule compares structurally, so a shared compound formula
    // closes the claim even among other formulas.
    match search("q, p & r => s, p & r") {
        ProofTree::Complete { subproofs, rule, .. } => {
            assert_eq!(rule, ProofRule::Axiom);
            assert!(subproofs.is_empty());
        }
        ProofTree::Open(_) => panic!("expected a closed tree"),
    }
}

#[test]
fn falsity_has_priority_over_axiom() {
    // With falsity among the hypotheses the falsity rule closes the claim
    // even where the axiom rule would also apply.
    match search("false => false") {
        ProofTree::Complete { subproofs, rule, .. } => {
            assert_eq!(rule, ProofRule::LBot);
            assert!(subproofs.is_empty());
        }
        ProofTree::Open(_) => panic!("expected a closed tree"),
    }
}

#[test]
fn excluded_middle_closes_in_two_steps() {
    // `=> p | !p` closes via ROr, then RNeg, then Axiom.
    let tree = search("=> p | !p");
    match tree {
        ProofTree::Complete { subproofs, rule, .. } => {
            assert_eq!(rule, ProofRule::ROr);
            assert_eq!(subproofs.len(), 1);
            match &subproofs[0] {
                ProofTree::Complete { subproofs: inner, rule, .. } => {
                    assert_eq!(*rule, ProofRule::RNeg);
                    assert_eq!(inner.len(), 1);
                    match &inner[0] {
                        ProofTree::Complete { subproofs: leaf, rule, .. } => {
                            assert_eq!(*rule, ProofRule::Axiom);
                            assert!(leaf.is_empty());
                        }
                        ProofTree::Open(_) => panic!("expected Axiom leaf"),
                    }
                }
                ProofTree::Open(_) => panic!("expected RNeg node"),
            }
        }
        ProofTree::Open(_) => panic!("expected a closed tree"),
    }
}

#[test]
fn commuted_conjunction_branches_and_closes() {
    // `p & q => q & p` closes via LAnd, then RAnd into two branches, each
    // of which closes via Axiom.
    let tree = search("p & q => q & p");
    match tree {
        ProofTree::Complete { subproofs, rule, .. } => {
            assert_eq!(rule, ProofRule::LAnd);
            assert_eq!(subproofs.len(), 1);
            match &subproofs[0] {
                ProofTree::Complete { subproofs: branches, rule, .. } => {
                    assert_eq!(*rule, ProofRule::RAnd);
                    assert_eq!(branches.len(), 2);
                    for branch in branches {
                        match branch {
                            ProofTree::Complete { subproofs: leaf, rule, .. } => {
                                assert_eq!(*rule, ProofRule::Axiom);
                                assert!(leaf.is_empty());
                            }
                            ProofTree::Open(_) => panic!("expected Axiom leaf"),
                        }
                    }
                }
                ProofTree::Open(_) => panic!("expected RAnd node"),
            }
        }
        ProofTree::Open(_) => panic!("expected a closed tree"),
    }
}

#[test]
fn unprovable_claim_stays_open() {
    // `p => q`: no rule applies, the root remains open.
    let c = claim_of("p => q");
    match search("p => q") {
        ProofTree::Open(claim) => assert_eq!(claim, c),
        ProofTree::Complete { .. } => panic!("expected an open tree"),
    }
}

#[test]
fn hypothesis_reuse_is_beyond_the_calculus() {
    // `p -> (p -> q) => q` needs the hypothesis `p` twice, once for each
    // implication. The calculus has no contraction rule, so the search
    // leaves open leaves; this is the documented behaviour, not a defect.
    let tree = search("p -> (p -> q) => q");
    match &tree {
        ProofTree::Complete { rule, .. } => assert_eq!(*rule, ProofRule::LImpl),
        ProofTree::Open(_) => panic!("expected the root to close via LImpl"),
    }
    assert!(has_open_leaf(&tree));
}

#[test]
fn search_is_idempotent_on_concrete_trees() {
    for input in ["p => p", "=> p | !p", "p & q => q & p", "p => q", "p -> (p -> q) => q"] {
        let once = search(input);
        let twice = proof_search(once.clone());
        assert_eq!(once, twice);
    }
}

#[test]
fn complete_trees_are_left_untouched() {
    // The search operates on open roots only; a completed root comes back
    // unchanged even when its children are still open.
    let child = ProofTree::Open(claim_of("p => q"));
    let node = ProofTree::Complete {
        claim: claim_of("p, p -> q => q"),
        subproofs: vec![child],
        rule: ProofRule::LImpl,
    };
    let back = proof_search(node.clone());
    assert_eq!(back, node);
}

#[test]
fn recorded_rules_reproduce_recorded_children() {
    // Soundness by construction: at every completed node, re-applying the
    // recorded rule to the recorded claim yields the recorded subproof
    // claims again.
    fn check(t: &ProofTree) {
        if let ProofTree::Complete { claim, subproofs, rule } = t {
            match apply_proof_rule(claim, *rule) {
                ProofTree::Complete { subproofs: fresh, rule: r2, .. } => {
                    assert_eq!(r2, *rule);
                    assert_eq!(fresh.len(), subproofs.len());
                    for (fresh_child, child) in fresh.iter().zip(subproofs.iter()) {
                        let recorded = match child {
                            ProofTree::Open(c) => c,
                            ProofTree::Complete { claim, .. } => claim,
                        };
                        match fresh_child {
                            ProofTree::Open(c) => assert_eq!(c, recorded),
                            ProofTree::Complete { .. } => panic!("fresh children are open"),
                        }
                    }
                }
                ProofTree::Open(_) => panic!("recorded rule no longer applies"),
            }
            for child in subproofs {
                check(child);
            }
        }
    }
    for input in ["p => p", "=> p | !p", "p & q => q & p", "p -> (p -> q) => q", "!p | q, p => q"] {
        check(&search(input));
    }
}

#[test]
fn rules_fire_at_first_matching_position() {
    // LNeg removes the leftmost negation and appends its operand to the
    // goals.
    let c = claim_of("q, !a, !b => r");
    match apply_proof_rule(&c, ProofRule::LNeg) {
        ProofTree::Complete { subproofs, rule, claim } => {
            assert_eq!(rule, ProofRule::LNeg);
            assert_eq!(claim, c);
            assert_eq!(subproofs.len(), 1);
            match &subproofs[0] {
                ProofTree::Open(child) => {
                    assert_eq!(*child, claim_of("q, !b => r, a"));
                }
                ProofTree::Complete { .. } => panic!("children start open"),
            }
        }
        ProofTree::Open(_) => panic!("LNeg applies"),
    }
}

#[test]
fn branching_rule_orders_children_by_operand() {
    // RAnd branches: the first child replaces the conjunction by its left
    // operand, the second by its right operand, appended at the end.
    let c = claim_of("x => p & q, y");
    match apply_proof_rule(&c, ProofRule::RAnd) {
        ProofTree::Complete { subproofs, .. } => {
            assert_eq!(subproofs.len(), 2);
            assert_eq!(subproofs[0], ProofTree::Open(claim_of("x => y, p")));
            assert_eq!(subproofs[1], ProofTree::Open(claim_of("x => y, q")));
        }
        ProofTree::Open(_) => panic!("RAnd applies"),
    }
}

#[test]
fn inapplicable_rule_leaves_claim_open() {
    let c = claim_of("p => q");
    for rule in [
        ProofRule::Axiom,
        ProofRule::LBot,
        ProofRule::LNeg,
        ProofRule::RNeg,
        ProofRule::LAnd,
        ProofRule::RAnd,
        ProofRule::LOr,
        ProofRule::ROr,
        ProofRule::LImpl,
        ProofRule::RImpl,
    ] {
        match apply_proof_rule(&c, rule) {
            ProofTree::Open(back) => assert_eq!(back, c),
            ProofTree::Complete { .. } => panic!("no rule applies to p => q"),
        }
    }
}

#[test]
fn implication_rules_split_hypothesis() {
    // LImpl on `p -> q, r => s`: first child moves the antecedent to the
    // goals, second child keeps the consequent as a hypothesis.
    let c = claim_of("p -> q, r => s");
    match apply_proof_rule(&c, ProofRule::LImpl) {
        ProofTree::Complete { subproofs, .. } => {
            assert_eq!(subproofs.len(), 2);
            assert_eq!(subproofs[0], ProofTree::Open(claim_of("r => s, p")));
            assert_eq!(subproofs[1], ProofTree::Open(claim_of("r, q => s")));
        }
        ProofTree::Open(_) => panic!("LImpl applies"),
    }
}

#[test]
fn modus_ponens_closes() {
    // A derivable sequent that uses every kind of step once: both LImpl
    // branches close.
    let tree = search("p, p -> q => q");
    assert!(!has_open_leaf(&tree));
}
