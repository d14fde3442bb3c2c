//! The formula model: propositional formulas, two-sided sequents (claims),
//! the names of the inference rules, and derivation trees, together with
//! their specification-level counterparts and the size measure that the
//! termination arguments rest on.

use vstd::prelude::*;

verus! {

/// A propositional formula. Each connective exclusively owns its operands;
/// structural equality is deep value comparison (see [`formula_eq`]).
#[derive(Debug, PartialEq, Eq)]
pub enum Formula {
    Bottom,
    Literal(String),
    Not(Box<Formula>),
    And { lhs: Box<Formula>, rhs: Box<Formula> },
    Or { lhs: Box<Formula>, rhs: Box<Formula> },
    Implication { lhs: Box<Formula>, rhs: Box<Formula> },
}

/// The specification-level shape of a [`Formula`]: the same tree with the
/// literal names abstracted to character sequences.
pub enum SpecFormula {
    Bottom,
    Literal(Seq<char>),
    Not(Box<SpecFormula>),
    And { lhs: Box<SpecFormula>, rhs: Box<SpecFormula> },
    Or { lhs: Box<SpecFormula>, rhs: Box<SpecFormula> },
    Implication { lhs: Box<SpecFormula>, rhs: Box<SpecFormula> },
}

/// The mathematical model of a [`Formula`].
pub open spec fn spec_formula(f: Formula) -> SpecFormula
    decreases f,
{
    match f {
        Formula::Bottom => SpecFormula::Bottom,
        Formula::Literal(s) => SpecFormula::Literal(s@),
        Formula::Not(g) => SpecFormula::Not(Box::new(spec_formula(*g))),
        Formula::And { lhs, rhs } => SpecFormula::And {
            lhs: Box::new(spec_formula(*lhs)),
            rhs: Box::new(spec_formula(*rhs)),
        },
        Formula::Or { lhs, rhs } => SpecFormula::Or {
            lhs: Box::new(spec_formula(*lhs)),
            rhs: Box::new(spec_formula(*rhs)),
        },
        Formula::Implication { lhs, rhs } => SpecFormula::Implication {
            lhs: Box::new(spec_formula(*lhs)),
            rhs: Box::new(spec_formula(*rhs)),
        },
    }
}

impl DeepView for Formula {
    type V = SpecFormula;

    open spec fn deep_view(&self) -> SpecFormula {
        spec_formula(*self)
    }
}

/// A sequent: the conjunction of `lhs` entails the disjunction of `rhs`.
/// Order within each side carries no logical meaning but is preserved for
/// reproducible output; duplicates are allowed.
#[derive(Debug, PartialEq, Eq)]
pub struct Claim {
    pub lhs: Vec<Formula>,
    pub rhs: Vec<Formula>,
}

/// The specification-level counterpart of a [`Claim`].
pub struct SpecClaim {
    pub lhs: Seq<SpecFormula>,
    pub rhs: Seq<SpecFormula>,
}

impl DeepView for Claim {
    type V = SpecClaim;

    open spec fn deep_view(&self) -> SpecClaim {
        SpecClaim { lhs: self.lhs.deep_view(), rhs: self.rhs.deep_view() }
    }
}

/// The ten inference rules of the calculus.
#[derive(Debug, Clone, Copy, PartialEq, Eq, Structural)]
pub enum ProofRule {
    Axiom,
    LBot,
    LNeg,
    RNeg,
    LAnd,
    RAnd,
    LOr,
    ROr,
    LImpl,
    RImpl,
}

/// A derivation tree: either a leaf still awaiting a rule, or a claim that
/// was closed by applying `rule`, producing the ordered child derivations
/// `subproofs`.
#[derive(Debug, PartialEq)]
pub enum ProofTree {
    Open(Claim),
    Complete { claim: Claim, subproofs: Vec<ProofTree>, rule: ProofRule },
}

/// The specification-level counterpart of a [`ProofTree`].
pub enum SpecTree {
    Open(SpecClaim),
    Complete { claim: SpecClaim, subproofs: Seq<SpecTree>, rule: ProofRule },
}

/// The mathematical model of a [`ProofTree`].
pub open spec fn spec_tree(t: ProofTree) -> SpecTree
    decreases t, 1int,
{
    match t {
        ProofTree::Open(c) => SpecTree::Open(c.deep_view()),
        ProofTree::Complete { claim, subproofs, rule } => SpecTree::Complete {
            claim: claim.deep_view(),
            subproofs: spec_trees_from(subproofs, 0),
            rule,
        },
    }
}

/// The models of the trees of `ts` from position `i` on.
pub open spec fn spec_trees_from(ts: Vec<ProofTree>, i: int) -> Seq<SpecTree>
    decreases ts, ts.len() - i,
{
    if 0 <= i < ts.len() {
        seq![spec_tree(ts[i])] + spec_trees_from(ts, i + 1)
    } else {
        Seq::empty()
    }
}

/// `spec_trees_from` is pointwise `spec_tree` on the remaining elements.
pub proof fn lemma_spec_trees_from(ts: Vec<ProofTree>, i: int)
    requires
        0 <= i <= ts.len(),
    ensures
        spec_trees_from(ts, i).len() == ts.len() - i,
        forall|j: int|
            0 <= j < ts.len() - i ==> spec_trees_from(ts, i)[j] == spec_tree(ts[i + j]),
    decreases ts.len() - i,
{
    if i < ts.len() {
        lemma_spec_trees_from(ts, i + 1);
    }
}

impl DeepView for ProofTree {
    type V = SpecTree;

    open spec fn deep_view(&self) -> SpecTree {
        spec_tree(*self)
    }
}

/// Precedence rank used only by the printer to decide parenthesisation:
/// atoms and negation bind tightest, implication weakest.
pub open spec fn spec_precedence(f: SpecFormula) -> u8 {
    match f {
        SpecFormula::Bottom => 0,
        SpecFormula::Literal(_) => 0,
        SpecFormula::Not(_) => 0,
        SpecFormula::And { .. } => 1,
        SpecFormula::Or { .. } => 2,
        SpecFormula::Implication { .. } => 3,
    }
}

impl Formula {
    pub fn precedence(&self) -> (r: u8)
        ensures
            r == spec_precedence(self.deep_view()),
    {
        match self {
            Formula::Bottom => 0,
            Formula::Literal(_) => 0,
            Formula::Not(_) => 0,
            Formula::And { lhs: _, rhs: _ } => 1,
            Formula::Or { lhs: _, rhs: _ } => 2,
            Formula::Implication { lhs: _, rhs: _ } => 3,
        }
    }
}

/// Deep structural equality of formulas: the shapes and the literal names
/// must match recursively. This is the comparison the `Axiom` rule uses.
pub fn formula_eq(x: &Formula, y: &Formula) -> (r: bool)
    ensures
        r == (x.deep_view() == y.deep_view()),
    decreases *x,
{
    match (x, y) {
        (Formula::Bottom, Formula::Bottom) => true,
        (Formula::Literal(a), Formula::Literal(b)) => *a == *b,
        (Formula::Not(a), Formula::Not(b)) => formula_eq(a, b),
        (Formula::And { lhs: a1, rhs: a2 }, Formula::And { lhs: b1, rhs: b2 }) => {
            formula_eq(a1, b1) && formula_eq(a2, b2)
        },
        (Formula::Or { lhs: a1, rhs: a2 }, Formula::Or { lhs: b1, rhs: b2 }) => {
            formula_eq(a1, b1) && formula_eq(a2, b2)
        },
        (
            Formula::Implication { lhs: a1, rhs: a2 },
            Formula::Implication { lhs: b1, rhs: b2 },
        ) => {
            formula_eq(a1, b1) && formula_eq(a2, b2)
        },
        _ => false,
    }
}

/// A fresh copy of a formula with the same model.
pub fn dup_formula(f: &Formula) -> (r: Formula)
    ensures
        r.deep_view() == f.deep_view(),
    decreases *f,
{
    match f {
        Formula::Bottom => Formula::Bottom,
        Formula::Literal(s) => Formula::Literal(s.clone()),
        Formula::Not(g) => Formula::Not(Box::new(dup_formula(g))),
        Formula::And { lhs, rhs } => Formula::And {
            lhs: Box::new(dup_formula(lhs)),
            rhs: Box::new(dup_formula(rhs)),
        },
        Formula::Or { lhs, rhs } => Formula::Or {
            lhs: Box::new(dup_formula(lhs)),
            rhs: Box::new(dup_formula(rhs)),
        },
        Formula::Implication { lhs, rhs } => Formula::Implication {
            lhs: Box::new(dup_formula(lhs)),
            rhs: Box::new(dup_formula(rhs)),
        },
    }
}

/// A fresh copy of a formula sequence with the same model.
pub fn dup_formulas(v: &Vec<Formula>) -> (r: Vec<Formula>)
    ensures
        r.deep_view() == v.deep_view(),
{
    let mut r: Vec<Formula> = Vec::new();
    let mut i: usize = 0;
    while i < v.len()
        invariant
            i <= v.len(),
            r.len() == i,
            forall|j: int| 0 <= j < i ==> r[j].deep_view() == v[j].deep_view(),
        decreases v.len() - i,
    {
        r.push(dup_formula(&v[i]));
        i = i + 1;
    }
    proof {
        assert(r.deep_view() =~= v.deep_view());
    }
    r
}

impl Clone for Formula {
    /// The copy has the same model as the original.
    fn clone(&self) -> (r: Self)
        ensures
            r.deep_view() == self.deep_view(),
    {
        dup_formula(self)
    }
}

impl Clone for Claim {
    /// The copy has the same model as the original.
    fn clone(&self) -> (r: Self)
        ensures
            r.deep_view() == self.deep_view(),
    {
        Claim { lhs: dup_formulas(&self.lhs), rhs: dup_formulas(&self.rhs) }
    }
}

/// A fresh copy of a derivation tree with the same model.
#[verifier::loop_isolation(false)]
pub fn dup_tree(t: &ProofTree) -> (r: ProofTree)
    ensures
        r.deep_view() == t.deep_view(),
    decreases *t,
{
    match t {
        ProofTree::Open(c) => ProofTree::Open(c.clone()),
        ProofTree::Complete { claim, subproofs, rule } => {
            let mut subs: Vec<ProofTree> = Vec::new();
            let mut i: usize = 0;
            while i < subproofs.len()
                invariant
                    i <= subproofs.len(),
                    subs.len() == i,
                    forall|j: int| 0 <= j < i ==> spec_tree(subs[j]) == spec_tree(subproofs[j]),
                decreases subproofs.len() - i,
            {
                subs.push(dup_tree(&subproofs[i]));
                i = i + 1;
            }
            let r = ProofTree::Complete { claim: claim.clone(), subproofs: subs, rule: *rule };
            proof {
                if let ProofTree::Complete { subproofs: s2, .. } = &r {
                    lemma_spec_trees_from(*s2, 0);
                    lemma_spec_trees_from(*subproofs, 0);
                    assert(spec_trees_from(*s2, 0) =~= spec_trees_from(*subproofs, 0));
                }
            }
            r
        },
    }
}

impl Clone for ProofTree {
    /// The copy has the same model as the original.
    fn clone(&self) -> (r: Self)
        ensures
            r.deep_view() == self.deep_view(),
    {
        dup_tree(self)
    }
}

/// The number of nodes of a formula: the well-founded measure that every
/// decomposing rule strictly shrinks.
pub open spec fn formula_size(f: SpecFormula) -> nat
    decreases f,
{
    match f {
        SpecFormula::Bottom => 1,
        SpecFormula::Literal(_) => 1,
        SpecFormula::Not(g) => 1 + formula_size(*g),
        SpecFormula::And { lhs, rhs } => 1 + formula_size(*lhs) + formula_size(*rhs),
        SpecFormula::Or { lhs, rhs } => 1 + formula_size(*lhs) + formula_size(*rhs),
        SpecFormula::Implication { lhs, rhs } => 1 + formula_size(*lhs) + formula_size(*rhs),
    }
}

/// The summed size of a sequence of formulas.
pub open spec fn formulas_size(s: Seq<SpecFormula>) -> nat
    decreases s.len(),
{
    if s.len() == 0 {
        0
    } else {
        formula_size(s.first()) + formulas_size(s.drop_first())
    }
}

/// The summed size of both sides of a claim.
pub open spec fn claim_size(c: SpecClaim) -> nat {
    formulas_size(c.lhs) + formulas_size(c.rhs)
}

} // verus!
