//! Rendering formulas, claims, rules and derivation trees as LaTeX.
//!
//! A completed node renders as a fraction whose numerator is the joined
//! rendering of its subproofs and whose denominator is the rendered claim,
//! annotated with the closing rule's symbol. Parentheses follow the
//! precedence ranking of [`crate::ast::spec_precedence`].

use vstd::prelude::*;
use vstd::string::StringExecFns;
use crate::ast::{
    spec_precedence, spec_tree, spec_trees_from, lemma_spec_trees_from, Claim, Formula, ProofRule,
    ProofTree, SpecClaim, SpecFormula, SpecTree,
};

verus! {

/// The rendering of a formula, parenthesised by precedence: an operand is
/// wrapped exactly when it binds more loosely than its connective, and the
/// left operand of an implication also when it is itself an implication.
pub open spec fn spec_formula_latex(f: SpecFormula) -> Seq<char>
    decreases f,
{
    match f {
        SpecFormula::Bottom => "\\bot"@,
        SpecFormula::Literal(s) => s,
        SpecFormula::Not(g) => "\\neg "@ + (if spec_precedence(f) < spec_precedence(*g) {
            "\\left("@ + spec_formula_latex(*g) + "\\right)"@
        } else {
            spec_formula_latex(*g)
        }),
        SpecFormula::And { lhs, rhs } => (if spec_precedence(f) < spec_precedence(*lhs) {
            "\\left("@ + spec_formula_latex(*lhs) + "\\right)"@
        } else {
            spec_formula_latex(*lhs)
        }) + " \\wedge "@ + (if spec_precedence(f) < spec_precedence(*rhs) {
            "\\left("@ + spec_formula_latex(*rhs) + "\\right)"@
        } else {
            spec_formula_latex(*rhs)
        }),
        SpecFormula::Or { lhs, rhs } => (if spec_precedence(f) < spec_precedence(*lhs) {
            "\\left("@ + spec_formula_latex(*lhs) + "\\right)"@
        } else {
            spec_formula_latex(*lhs)
        }) + " \\vee "@ + (if spec_precedence(f) < spec_precedence(*rhs) {
            "\\left("@ + spec_formula_latex(*rhs) + "\\right)"@
        } else {
            spec_formula_latex(*rhs)
        }),
        SpecFormula::Implication { lhs, rhs } => (if spec_precedence(f) <= spec_precedence(
            *lhs,
        ) {
            "\\left("@ + spec_formula_latex(*lhs) + "\\right)"@
        } else {
            spec_formula_latex(*lhs)
        }) + " \\rightarrow "@ + (if spec_precedence(f) < spec_precedence(*rhs) {
            "\\left("@ + spec_formula_latex(*rhs) + "\\right)"@
        } else {
            spec_formula_latex(*rhs)
        }),
    }
}

/// The comma-joined rendering of one side of a claim.
pub open spec fn spec_formulas_latex(s: Seq<SpecFormula>) -> Seq<char>
    decreases s.len(),
{
    if s.len() == 0 {
        Seq::empty()
    } else if s.len() == 1 {
        spec_formula_latex(s[0])
    } else {
        spec_formula_latex(s[0]) + ", "@ + spec_formulas_latex(s.drop_first())
    }
}

/// The rendering of a claim: its sides joined by a turnstile-like arrow.
pub open spec fn spec_claim_latex(c: SpecClaim) -> Seq<char> {
    spec_formulas_latex(c.lhs) + " \\Rightarrow "@ + spec_formulas_latex(c.rhs)
}

/// The symbol of an inference rule.
pub open spec fn spec_rule_latex(r: ProofRule) -> Seq<char> {
    match r {
        ProofRule::Axiom => "Ax"@,
        ProofRule::LBot => "\\bot L"@,
        ProofRule::LNeg => "\\neg L"@,
        ProofRule::RNeg => "\\neg R"@,
        ProofRule::LAnd => "\\wedge L"@,
        ProofRule::RAnd => "\\wedge R"@,
        ProofRule::LOr => "\\vee L"@,
        ProofRule::ROr => "\\vee R"@,
        ProofRule::LImpl => "\\rightarrow L"@,
        ProofRule::RImpl => "\\rightarrow R"@,
    }
}

/// The rendering of a derivation tree: an open leaf is just its claim, a
/// completed node is a fraction annotated with its rule's symbol.
pub open spec fn spec_tree_latex(t: SpecTree) -> Seq<char>
    decreases t,
{
    match t {
        SpecTree::Open(c) => spec_claim_latex(c),
        SpecTree::Complete { claim, subproofs, rule } => "\\frac{"@ + spec_trees_latex(subproofs)
            + "}{"@ + spec_claim_latex(claim) + "}\\quad "@ + spec_rule_latex(rule),
    }
}

/// The joined rendering of a row of subproofs.
pub open spec fn spec_trees_latex(ts: Seq<SpecTree>) -> Seq<char>
    decreases ts,
{
    if ts.len() == 0 {
        Seq::empty()
    } else if ts.len() == 1 {
        spec_tree_latex(ts[0])
    } else {
        spec_tree_latex(ts[0]) + "\\quad "@ + spec_trees_latex(ts.drop_first())
    }
}

/// Rendering as LaTeX markup.
pub trait Latex {
    /// The character sequence the rendering yields.
    spec fn spec_latex(&self) -> Seq<char>;

    /// Render as LaTeX markup.
    fn latex(&self) -> (r: String)
        ensures
            r@ == self.spec_latex(),
    ;
}

/// Executable counterpart of [`spec_formula_latex`].
fn formula_latex(f: &Formula) -> (r: String)
    ensures
        r@ == spec_formula_latex(f.deep_view()),
    decreases *f,
{
    match f {
        Formula::Bottom => "\\bot".to_owned(),
        Formula::Literal(s) => s.clone(),
        Formula::Not(g) => {
            let mut r = String::new();
            r.append("\\neg ");
            let wrap = f.precedence() < g.precedence();
            if wrap {
                r.append("\\left(");
            }
            let inner = formula_latex(g);
            r.append(inner.as_str());
            if wrap {
                r.append("\\right)");
            }
            proof {
                assert(r@ =~= spec_formula_latex(f.deep_view()));
            }
            r
        },
        Formula::And { lhs, rhs } => {
            let mut r = String::new();
            let wrap_l = f.precedence() < lhs.precedence();
            if wrap_l {
                r.append("\\left(");
            }
            let l = formula_latex(lhs);
            r.append(l.as_str());
            if wrap_l {
                r.append("\\right)");
            }
            r.append(" \\wedge ");
            let wrap_r = f.precedence() < rhs.precedence();
            if wrap_r {
                r.append("\\left(");
            }
            let rr = formula_latex(rhs);
            r.append(rr.as_str());
            if wrap_r {
                r.append("\\right)");
            }
            proof {
                assert(r@ =~= spec_formula_latex(f.deep_view()));
            }
            r
        },
        Formula::Or { lhs, rhs } => {
            let mut r = String::new();
            let wrap_l = f.precedence() < lhs.precedence();
            if wrap_l {
                r.append("\\left(");
            }
            let l = formula_latex(lhs);
            r.append(l.as_str());
            if wrap_l {
                r.append("\\right)");
            }
            r.append(" \\vee ");
            let wrap_r = f.precedence() < rhs.precedence();
            if wrap_r {
                r.append("\\left(");
            }
            let rr = formula_latex(rhs);
            r.append(rr.as_str());
            if wrap_r {
                r.append("\\right)");
            }
            proof {
                assert(r@ =~= spec_formula_latex(f.deep_view()));
            }
            r
        },
        Formula::Implication { lhs, rhs } => {
            let mut r = String::new();
            let wrap_l = f.precedence() <= lhs.precedence();
            if wrap_l {
                r.append("\\left(");
            }
            let l = formula_latex(lhs);
            r.append(l.as_str());
            if wrap_l {
                r.append("\\right)");
            }
            r.append(" \\rightarrow ");
            let wrap_r = f.precedence() < rhs.precedence();
            if wrap_r {
                r.append("\\left(");
            }
            let rr = formula_latex(rhs);
            r.append(rr.as_str());
            if wrap_r {
                r.append("\\right)");
            }
            proof {
                assert(r@ =~= spec_formula_latex(f.deep_view()));
            }
            r
        },
    }
}

/// The comma-joined rendering of the formulas of `v` from position `i` on.
fn formulas_latex_from(v: &Vec<Formula>, i: usize) -> (r: String)
    requires
        i <= v.len(),
    ensures
        r@ == spec_formulas_latex(v.deep_view().skip(i as int)),
    decreases v.len() - i,
{
    let ghost s = v.deep_view().skip(i as int);
    if i == v.len() {
        proof {
            assert(s =~= Seq::<SpecFormula>::empty());
        }
        String::new()
    } else if i + 1 == v.len() {
        let r = formula_latex(&v[i]);
        proof {
            assert(s.len() == 1 && s[0] == v.deep_view()[i as int]);
        }
        r
    } else {
        let mut r = formula_latex(&v[i]);
        r.append(", ");
        let rest = formulas_latex_from(v, i + 1);
        r.append(rest.as_str());
        proof {
            assert(s.drop_first() =~= v.deep_view().skip(i + 1));
            assert(s[0] == v.deep_view()[i as int]);
            assert(r@ =~= spec_formulas_latex(s));
        }
        r
    }
}

/// Executable counterpart of [`spec_claim_latex`].
fn claim_latex(c: &Claim) -> (r: String)
    ensures
        r@ == spec_claim_latex(c.deep_view()),
{
    let mut r = formulas_latex_from(&c.lhs, 0);
    r.append(" \\Rightarrow ");
    let right = formulas_latex_from(&c.rhs, 0);
    r.append(right.as_str());
    proof {
        assert(c.lhs.deep_view().skip(0) =~= c.deep_view().lhs);
        assert(c.rhs.deep_view().skip(0) =~= c.deep_view().rhs);
        assert(r@ =~= spec_claim_latex(c.deep_view()));
    }
    r
}

/// Executable counterpart of [`spec_rule_latex`].
fn rule_latex(r: &ProofRule) -> (s: String)
    ensures
        s@ == spec_rule_latex(*r),
{
    match r {
        ProofRule::Axiom => "Ax".to_owned(),
        ProofRule::LBot => "\\bot L".to_owned(),
        ProofRule::LNeg => "\\neg L".to_owned(),
        ProofRule::RNeg => "\\neg R".to_owned(),
        ProofRule::LAnd => "\\wedge L".to_owned(),
        ProofRule::RAnd => "\\wedge R".to_owned(),
        ProofRule::LOr => "\\vee L".to_owned(),
        ProofRule::ROr => "\\vee R".to_owned(),
        ProofRule::LImpl => "\\rightarrow L".to_owned(),
        ProofRule::RImpl => "\\rightarrow R".to_owned(),
    }
}

/// Executable counterpart of [`spec_tree_latex`].
fn tree_latex(t: &ProofTree) -> (r: String)
    ensures
        r@ == spec_tree_latex(t.deep_view()),
    decreases *t, 0int,
{
    match t {
        ProofTree::Open(c) => {
            let r = claim_latex(c);
            proof {
                assert(t.deep_view() == SpecTree::Open(c.deep_view()));
            }
            r
        },
        ProofTree::Complete { claim, subproofs, rule } => {
            let mut r = String::new();
            r.append("\\frac{");
            let subs = trees_latex_from(subproofs, 0);
            r.append(subs.as_str());
            r.append("}{");
            let cl = claim_latex(claim);
            r.append(cl.as_str());
            r.append("}\\quad ");
            let rl = rule_latex(rule);
            r.append(rl.as_str());
            proof {
                assert(r@ =~= spec_tree_latex(t.deep_view()));
            }
            r
        },
    }
}

/// The joined rendering of the subproofs of `v` from position `i` on.
fn trees_latex_from(v: &Vec<ProofTree>, i: usize) -> (r: String)
    requires
        i <= v.len(),
    ensures
        r@ == spec_trees_latex(spec_trees_from(*v, i as int)),
    decreases *v, v.len() - i,
{
    proof {
        lemma_spec_trees_from(*v, i as int);
    }
    let ghost s = spec_trees_from(*v, i as int);
    if i == v.len() {
        String::new()
    } else if i + 1 == v.len() {
        let r = tree_latex(&v[i]);
        proof {
            assert(s.len() == 1 && s[0] == spec_tree(v[i as int]));
        }
        r
    } else {
        let mut r = tree_latex(&v[i]);
        r.append("\\quad ");
        let rest = trees_latex_from(v, i + 1);
        r.append(rest.as_str());
        proof {
            lemma_spec_trees_from(*v, i + 1);
            assert(s.drop_first() =~= spec_trees_from(*v, i + 1));
            assert(s[0] == spec_tree(v[i as int]));
            assert(r@ =~= spec_trees_latex(s));
        }
        r
    }
}

impl Latex for Formula {
    open spec fn spec_latex(&self) -> Seq<char> {
        spec_formula_latex(self.deep_view())
    }

    fn latex(&self) -> (r: String) {
        formula_latex(self)
    }
}

impl Latex for Claim {
    open spec fn spec_latex(&self) -> Seq<char> {
        spec_claim_latex(self.deep_view())
    }

    fn latex(&self) -> (r: String) {
        claim_latex(self)
    }
}

impl Latex for ProofRule {
    open spec fn spec_latex(&self) -> Seq<char> {
        spec_rule_latex(*self)
    }

    fn latex(&self) -> (r: String) {
        rule_latex(self)
    }
}

impl Latex for ProofTree {
    open spec fn spec_latex(&self) -> Seq<char> {
        spec_tree_latex(self.deep_view())
    }

    fn latex(&self) -> (r: String) {
        tree_latex(self)
    }
}

} // verus!
