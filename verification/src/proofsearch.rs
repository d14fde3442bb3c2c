//! The rule engine and the search strategy.
//!
//! [`apply_proof_rule`] attempts one named rule against a claim, at the
//! first matching position of the designated side, and either closes the
//! claim (producing zero, one or two child claims) or leaves it open.
//! [`proof_search`] tries the rules in a fixed priority order and recurses
//! into every child claim until no rule applies.

use vstd::prelude::*;
use crate::ast::{
    claim_size, dup_formula, dup_formulas, formula_eq, formula_size, formulas_size,
    lemma_spec_trees_from, spec_tree, spec_trees_from, Claim, Formula, ProofRule, ProofTree,
    SpecClaim, SpecFormula, SpecTree,
};

verus! {

/// Does formula `f` have the shape that decomposing rule `r` looks for?
pub open spec fn rule_matches(f: SpecFormula, r: ProofRule) -> bool {
    match r {
        ProofRule::LNeg | ProofRule::RNeg => f is Not,
        ProofRule::LAnd | ProofRule::RAnd => f is And,
        ProofRule::LOr | ProofRule::ROr => f is Or,
        ProofRule::LImpl | ProofRule::RImpl => f is Implication,
        ProofRule::Axiom | ProofRule::LBot => false,
    }
}

/// The first position at or after `i` where rule `r` finds its shape.
pub open spec fn first_match_from(s: Seq<SpecFormula>, r: ProofRule, i: int) -> Option<int>
    decreases s.len() - i,
{
    if 0 <= i < s.len() {
        if rule_matches(s[i], r) {
            Some(i)
        } else {
            first_match_from(s, r, i + 1)
        }
    } else {
        None
    }
}

/// The lowest position where rule `r` finds its shape, if any.
pub open spec fn first_match(s: Seq<SpecFormula>, r: ProofRule) -> Option<int> {
    first_match_from(s, r, 0)
}

/// Which side of the claim a rule inspects.
pub open spec fn rule_side(c: SpecClaim, r: ProofRule) -> Seq<SpecFormula> {
    match r {
        ProofRule::LNeg | ProofRule::LAnd | ProofRule::LOr | ProofRule::LImpl => c.lhs,
        _ => c.rhs,
    }
}

/// Whether rule `r` applies to claim `c` at all.
pub open spec fn rule_applies(c: SpecClaim, r: ProofRule) -> bool {
    match r {
        ProofRule::Axiom => exists|i: int, j: int|
            0 <= i < c.lhs.len() && 0 <= j < c.rhs.len() && c.lhs[i] == c.rhs[j],
        ProofRule::LBot => exists|i: int| 0 <= i < c.lhs.len() && c.lhs[i] is Bottom,
        _ => first_match(rule_side(c, r), r) is Some,
    }
}

/// The child claims produced when rule `r` closes claim `c`: the matched
/// formula is removed from its side and its operands are appended as the
/// rule prescribes. Empty when the rule does not apply or closes the claim
/// without children.
pub open spec fn rule_children(c: SpecClaim, r: ProofRule) -> Seq<SpecClaim> {
    match r {
        ProofRule::Axiom => Seq::empty(),
        ProofRule::LBot => Seq::empty(),
        ProofRule::LNeg => match first_match(c.lhs, r) {
            Some(i) => match c.lhs[i] {
                SpecFormula::Not(f) => seq![
                    SpecClaim { lhs: c.lhs.remove(i), rhs: c.rhs.push(*f) },
                ],
                _ => Seq::empty(),
            },
            None => Seq::empty(),
        },
        ProofRule::RNeg => match first_match(c.rhs, r) {
            Some(i) => match c.rhs[i] {
                SpecFormula::Not(f) => seq![
                    SpecClaim { lhs: c.lhs.push(*f), rhs: c.rhs.remove(i) },
                ],
                _ => Seq::empty(),
            },
            None => Seq::empty(),
        },
        ProofRule::LAnd => match first_match(c.lhs, r) {
            Some(i) => match c.lhs[i] {
                SpecFormula::And { lhs: a, rhs: b } => seq![
                    SpecClaim { lhs: c.lhs.remove(i).push(*a).push(*b), rhs: c.rhs },
                ],
                _ => Seq::empty(),
            },
            None => Seq::empty(),
        },
        ProofRule::RAnd => match first_match(c.rhs, r) {
            Some(i) => match c.rhs[i] {
                SpecFormula::And { lhs: a, rhs: b } => seq![
                    SpecClaim { lhs: c.lhs, rhs: c.rhs.remove(i).push(*a) },
                    SpecClaim { lhs: c.lhs, rhs: c.rhs.remove(i).push(*b) },
                ],
                _ => Seq::empty(),
            },
            None => Seq::empty(),
        },
        ProofRule::LOr => match first_match(c.lhs, r) {
            Some(i) => match c.lhs[i] {
                SpecFormula::Or { lhs: a, rhs: b } => seq![
                    SpecClaim { lhs: c.lhs.remove(i).push(*a), rhs: c.rhs },
                    SpecClaim { lhs: c.lhs.remove(i).push(*b), rhs: c.rhs },
                ],
                _ => Seq::empty(),
            },
            None => Seq::empty(),
        },
        ProofRule::ROr => match first_match(c.rhs, r) {
            Some(i) => match c.rhs[i] {
                SpecFormula::Or { lhs: a, rhs: b } => seq![
                    SpecClaim { lhs: c.lhs, rhs: c.rhs.remove(i).push(*a).push(*b) },
                ],
                _ => Seq::empty(),
            },
            None => Seq::empty(),
        },
        ProofRule::LImpl => match first_match(c.lhs, r) {
            Some(i) => match c.lhs[i] {
                SpecFormula::Implication { lhs: a, rhs: b } => seq![
                    SpecClaim { lhs: c.lhs.remove(i), rhs: c.rhs.push(*a) },
                    SpecClaim { lhs: c.lhs.remove(i).push(*b), rhs: c.rhs },
                ],
                _ => Seq::empty(),
            },
            None => Seq::empty(),
        },
        ProofRule::RImpl => match first_match(c.rhs, r) {
            Some(i) => match c.rhs[i] {
                SpecFormula::Implication { lhs: a, rhs: b } => seq![
                    SpecClaim { lhs: c.lhs.push(*a), rhs: c.rhs.remove(i).push(*b) },
                ],
                _ => Seq::empty(),
            },
            None => Seq::empty(),
        },
    }
}

/// What one attempt of rule `r` against claim `c` yields: the closed node
/// with fresh open children when the rule applies, the unchanged open
/// claim otherwise.
pub open spec fn apply_rule_spec(c: SpecClaim, r: ProofRule) -> SpecTree {
    if rule_applies(c, r) {
        SpecTree::Complete {
            claim: c,
            subproofs: rule_children(c, r).map_values(|cc: SpecClaim| SpecTree::Open(cc)),
            rule: r,
        }
    } else {
        SpecTree::Open(c)
    }
}

/// Appending a formula adds its size to the summed size of the side.
pub proof fn lemma_formulas_size_push(s: Seq<SpecFormula>, f: SpecFormula)
    ensures
        formulas_size(s.push(f)) == formulas_size(s) + formula_size(f),
    decreases s.len(),
{
    assert(s.push(f).len() == s.len() + 1);
    assert(formulas_size(s.push(f)) == formula_size(s.push(f).first()) + formulas_size(
        s.push(f).drop_first(),
    ));
    if s.len() == 0 {
        assert(s.push(f)[0] == f);
        assert(s.push(f).drop_first() =~= Seq::<SpecFormula>::empty());
    } else {
        assert(s.push(f)[0] == s[0]);
        assert(s.push(f).drop_first() =~= s.drop_first().push(f));
        lemma_formulas_size_push(s.drop_first(), f);
    }
}

/// Removing a formula subtracts its size from the summed size of the side.
pub proof fn lemma_formulas_size_remove(s: Seq<SpecFormula>, i: int)
    requires
        0 <= i < s.len(),
    ensures
        formulas_size(s.remove(i)) + formula_size(s[i]) == formulas_size(s),
    decreases i,
{
    if i == 0 {
        assert(s.remove(0) =~= s.drop_first());
    } else {
        assert(s.remove(i).drop_first() =~= s.drop_first().remove(i - 1));
        lemma_formulas_size_remove(s.drop_first(), i - 1);
    }
}

/// Every child claim of a decomposing rule is strictly smaller than the
/// claim it came from: the well-founded measure behind termination.
pub proof fn lemma_children_smaller(c: SpecClaim, r: ProofRule)
    requires
        rule_applies(c, r),
    ensures
        forall|k: int|
            0 <= k < rule_children(c, r).len() ==> claim_size(
                #[trigger] rule_children(c, r)[k],
            ) < claim_size(c),
{
    match r {
        ProofRule::Axiom => {},
        ProofRule::LBot => {},
        _ => {
            let s = rule_side(c, r);
            let i = first_match(s, r)->Some_0;
            lemma_first_match_in_range(s, r, 0);
            lemma_formulas_size_remove(s, i);
            let cs = rule_children(c, r);
            assert forall|k: int| 0 <= k < cs.len() implies claim_size(#[trigger] cs[k])
                < claim_size(c) by {
                match s[i] {
                    SpecFormula::Not(f) => {
                        lemma_formulas_size_push(c.lhs, *f);
                        lemma_formulas_size_push(c.rhs, *f);
                    },
                    SpecFormula::And { lhs: a, rhs: b } => {
                        lemma_formulas_size_push(s.remove(i), *a);
                        lemma_formulas_size_push(s.remove(i).push(*a), *b);
                        lemma_formulas_size_push(s.remove(i), *b);
                    },
                    SpecFormula::Or { lhs: a, rhs: b } => {
                        lemma_formulas_size_push(s.remove(i), *a);
                        lemma_formulas_size_push(s.remove(i).push(*a), *b);
                        lemma_formulas_size_push(s.remove(i), *b);
                    },
                    SpecFormula::Implication { lhs: a, rhs: b } => {
                        lemma_formulas_size_push(c.lhs, *a);
                        lemma_formulas_size_push(c.rhs, *a);
                        lemma_formulas_size_push(c.lhs.remove(i), *b);
                        lemma_formulas_size_push(c.lhs.push(*a), *b);
                        lemma_formulas_size_push(c.rhs.remove(i), *b);
                    },
                    _ => {},
                }
            }
        },
    }
}

/// If nothing before position `k` matches, the first match from the start
/// is the first match from `k`.
pub proof fn lemma_first_match_prefix(s: Seq<SpecFormula>, r: ProofRule, k: int)
    requires
        0 <= k <= s.len(),
        forall|j: int| 0 <= j < k ==> !rule_matches(s[j], r),
    ensures
        first_match(s, r) == first_match_from(s, r, k),
    decreases k,
{
    if k > 0 {
        lemma_first_match_prefix(s, r, k - 1);
    }
}

/// A found first match lies in range and matches, and nothing before it does.
pub proof fn lemma_first_match_in_range(s: Seq<SpecFormula>, r: ProofRule, i: int)
    requires
        0 <= i,
        first_match_from(s, r, i) is Some,
    ensures
        i <= first_match_from(s, r, i)->Some_0 < s.len(),
        rule_matches(s[first_match_from(s, r, i)->Some_0], r),
        forall|j: int|
            i <= j < first_match_from(s, r, i)->Some_0 ==> !rule_matches(s[j], r),
    decreases s.len() - i,
{
    if i < s.len() && !rule_matches(s[i], r) {
        lemma_first_match_in_range(s, r, i + 1);
    }
}

/// A copy of `v` with the formula at `i` removed.
fn removed(v: &Vec<Formula>, i: usize) -> (r: Vec<Formula>)
    requires
        i < v.len(),
    ensures
        r.deep_view() == v.deep_view().remove(i as int),
{
    let mut r = dup_formulas(v);
    proof {
        assert(r.deep_view().len() == r.len());
        assert(v.deep_view().len() == v.len());
    }
    r.remove(i);
    proof {
        assert(r.deep_view() =~= v.deep_view().remove(i as int));
    }
    r
}

/// Append one formula, tracked at the model level.
fn push_formula(v: &mut Vec<Formula>, f: Formula)
    ensures
        final(v).deep_view() == old(v).deep_view().push(f.deep_view()),
{
    let ghost fd = f.deep_view();
    v.push(f);
    proof {
        assert(v.deep_view() =~= old(v).deep_view().push(fd));
    }
}

/// A leaf that closes `claim` by `rule` with no children.
fn closed_leaf(claim: &Claim, rule: ProofRule) -> (r: ProofTree)
    ensures
        r.deep_view() == (SpecTree::Complete {
            claim: claim.deep_view(),
            subproofs: Seq::empty(),
            rule,
        }),
{
    let r = ProofTree::Complete { claim: claim.clone(), subproofs: Vec::new(), rule };
    proof {
        if let ProofTree::Complete { claim: c2, subproofs: s2, rule: r2 } = &r {
            lemma_spec_trees_from(*s2, 0);
            assert(spec_trees_from(*s2, 0) =~= Seq::<SpecTree>::empty());
        }
    }
    r
}

/// A node that closes `claim` by `rule` with one fresh open child.
fn complete_one(claim: &Claim, child: Claim, rule: ProofRule) -> (r: ProofTree)
    ensures
        r.deep_view() == (SpecTree::Complete {
            claim: claim.deep_view(),
            subproofs: seq![SpecTree::Open(child.deep_view())],
            rule,
        }),
{
    let ghost cd = child.deep_view();
    let subs = vec![ProofTree::Open(child)];
    let r = ProofTree::Complete { claim: claim.clone(), subproofs: subs, rule };
    proof {
        if let ProofTree::Complete { claim: c2, subproofs: s2, rule: r2 } = &r {
            lemma_spec_trees_from(*s2, 0);
            assert(spec_trees_from(*s2, 0) =~= seq![SpecTree::Open(cd)]);
        }
    }
    r
}

/// A node that closes `claim` by `rule` with two fresh open children.
fn complete_two(claim: &Claim, child1: Claim, child2: Claim, rule: ProofRule) -> (r: ProofTree)
    ensures
        r.deep_view() == (SpecTree::Complete {
            claim: claim.deep_view(),
            subproofs: seq![
                SpecTree::Open(child1.deep_view()),
                SpecTree::Open(child2.deep_view()),
            ],
            rule,
        }),
{
    let ghost cd1 = child1.deep_view();
    let ghost cd2 = child2.deep_view();
    let subs = vec![ProofTree::Open(child1), ProofTree::Open(child2)];
    let r = ProofTree::Complete { claim: claim.clone(), subproofs: subs, rule };
    proof {
        if let ProofTree::Complete { claim: c2, subproofs: s2, rule: r2 } = &r {
            lemma_spec_trees_from(*s2, 0);
            assert(spec_trees_from(*s2, 0) =~= seq![SpecTree::Open(cd1), SpecTree::Open(cd2)]);
        }
    }
    r
}

/// Executable counterpart of [`rule_matches`].
fn shape_matches(f: &Formula, rule: ProofRule) -> (r: bool)
    ensures
        r == rule_matches(f.deep_view(), rule),
{
    match rule {
        ProofRule::LNeg | ProofRule::RNeg => matches!(f, Formula::Not(_)),
        ProofRule::LAnd | ProofRule::RAnd => matches!(f, Formula::And { .. }),
        ProofRule::LOr | ProofRule::ROr => matches!(f, Formula::Or { .. }),
        ProofRule::LImpl | ProofRule::RImpl => matches!(f, Formula::Implication { .. }),
        ProofRule::Axiom | ProofRule::LBot => false,
    }
}

/// The lowest position of `side` whose formula has the shape `rule` wants.
fn find_first_shape(side: &Vec<Formula>, rule: ProofRule) -> (r: Option<usize>)
    ensures
        match r {
            Some(i) => i < side.len() && first_match(side.deep_view(), rule) == Some(i as int),
            None => first_match(side.deep_view(), rule) is None,
        },
{
    let mut i: usize = 0;
    while i < side.len()
        invariant
            i <= side.len(),
            forall|j: int| 0 <= j < i ==> !rule_matches(side.deep_view()[j], rule),
        decreases side.len() - i,
    {
        if shape_matches(&side[i], rule) {
            proof {
                lemma_first_match_prefix(side.deep_view(), rule, i as int);
            }
            return Some(i);
        }
        i = i + 1;
    }
    proof {
        lemma_first_match_prefix(side.deep_view(), rule, side.len() as int);
    }
    None
}

/// The operand of a negation.
fn not_operand(f: &Formula) -> (r: Formula)
    requires
        f.deep_view() is Not,
    ensures
        f.deep_view() matches SpecFormula::Not(g) && r.deep_view() == *g,
{
    match f {
        Formula::Not(g) => dup_formula(g),
        _ => unreached(),
    }
}

/// The two operands of a conjunction.
fn and_operands(f: &Formula) -> (r: (Formula, Formula))
    requires
        f.deep_view() is And,
    ensures
        f.deep_view() matches SpecFormula::And { lhs, rhs } && r.0.deep_view() == *lhs
            && r.1.deep_view() == *rhs,
{
    match f {
        Formula::And { lhs, rhs } => (dup_formula(lhs), dup_formula(rhs)),
        _ => unreached(),
    }
}

/// The two operands of a disjunction.
fn or_operands(f: &Formula) -> (r: (Formula, Formula))
    requires
        f.deep_view() is Or,
    ensures
        f.deep_view() matches SpecFormula::Or { lhs, rhs } && r.0.deep_view() == *lhs
            && r.1.deep_view() == *rhs,
{
    match f {
        Formula::Or { lhs, rhs } => (dup_formula(lhs), dup_formula(rhs)),
        _ => unreached(),
    }
}

/// The two operands of an implication.
fn impl_operands(f: &Formula) -> (r: (Formula, Formula))
    requires
        f.deep_view() is Implication,
    ensures
        f.deep_view() matches SpecFormula::Implication { lhs, rhs } && r.0.deep_view() == *lhs
            && r.1.deep_view() == *rhs,
{
    match f {
        Formula::Implication { lhs, rhs } => (dup_formula(lhs), dup_formula(rhs)),
        _ => unreached(),
    }
}

/// The still-open leaf for a claim no rule attempt changed.
fn open_leaf(claim: &Claim) -> (r: ProofTree)
    ensures
        r.deep_view() == SpecTree::Open(claim.deep_view()),
{
    ProofTree::Open(claim.clone())
}

/// Attempt rule `rule` once against `claim`: at the first matching position
/// of the designated side the claim is closed and the successor claims are
/// produced as fresh open leaves; when no formula matches, the unchanged
/// claim is returned still open.
#[verifier::loop_isolation(false)]
pub fn apply_proof_rule(claim: &Claim, rule: ProofRule) -> (r: ProofTree)
    ensures
        r.deep_view() == apply_rule_spec(claim.deep_view(), rule),
{
    let ghost cv = claim.deep_view();
    match rule {
        ProofRule::Axiom => {
            let mut i: usize = 0;
            while i < claim.lhs.len()
                invariant
                    i <= claim.lhs.len(),
                    cv == claim.deep_view(),
                    forall|a: int, b: int|
                        0 <= a < i && 0 <= b < cv.rhs.len() ==> cv.lhs[a] != cv.rhs[b],
                decreases claim.lhs.len() - i,
            {
                let mut j: usize = 0;
                while j < claim.rhs.len()
                    invariant
                        i < claim.lhs.len(),
                        j <= claim.rhs.len(),
                        cv == claim.deep_view(),
                        forall|b: int| 0 <= b < j ==> cv.lhs[i as int] != cv.rhs[b],
                    decreases claim.rhs.len() - j,
                {
                    if formula_eq(&claim.lhs[i], &claim.rhs[j]) {
                        proof {
                            assert(0 <= i < cv.lhs.len() && 0 <= j < cv.rhs.len()
                                && cv.lhs[i as int] == cv.rhs[j as int]);
                            assert(rule_applies(cv, rule));
                        }
                        let r = closed_leaf(claim, rule);
                        proof {

                            assert(apply_rule_spec(cv, rule) matches SpecTree::Complete {
                                claim: sc,
                                subproofs: sp,
                                rule: sr,
                            } && sc == cv && sr == rule && sp =~= Seq::<SpecTree>::empty());
                        }
                        return r;
                    }
                    j = j + 1;
                }
                i = i + 1;
            }
            open_leaf(claim)
        },
        ProofRule::LBot => {
            let mut i: usize = 0;
            while i < claim.lhs.len()
                invariant
                    i <= claim.lhs.len(),
                    cv == claim.deep_view(),
                    forall|a: int| 0 <= a < i ==> !(cv.lhs[a] is Bottom),
                decreases claim.lhs.len() - i,
            {
                if matches!(&claim.lhs[i], Formula::Bottom) {
                    let r = closed_leaf(claim, rule);
                    proof {
                        assert(0 <= i < cv.lhs.len() && cv.lhs[i as int] is Bottom);
                        assert(rule_applies(cv, rule));
                        assert(apply_rule_spec(cv, rule) matches SpecTree::Complete {
                            claim: sc,
                            subproofs: sp,
                            rule: sr,
                        } && sc == cv && sr == rule && sp =~= Seq::<SpecTree>::empty());
                    }
                    return r;
                }
                i = i + 1;
            }
            open_leaf(claim)
        },
        ProofRule::LNeg => match find_first_shape(&claim.lhs, rule) {
            None => open_leaf(claim),
            Some(i) => {
                proof {
                    lemma_first_match_in_range(cv.lhs, rule, 0);
                }
                let inner = not_operand(&claim.lhs[i]);
                let new_lhs = removed(&claim.lhs, i);
                let mut new_rhs = dup_formulas(&claim.rhs);
                push_formula(&mut new_rhs, inner);
                let child = Claim { lhs: new_lhs, rhs: new_rhs };
                let ghost chv = child.deep_view();
                let r = complete_one(claim, child, rule);
                proof {
                    assert(apply_rule_spec(cv, rule) matches SpecTree::Complete {
                        claim: sc,
                        subproofs: sp,
                        rule: sr,
                    } && sc == cv && sr == rule && sp =~= seq![SpecTree::Open(chv)]);
                }
                r
            },
        },
        ProofRule::RNeg => match find_first_shape(&claim.rhs, rule) {
            None => open_leaf(claim),
            Some(i) => {
                proof {
                    lemma_first_match_in_range(cv.rhs, rule, 0);
                }
                let inner = not_operand(&claim.rhs[i]);
                let new_rhs = removed(&claim.rhs, i);
                let mut new_lhs = dup_formulas(&claim.lhs);
                push_formula(&mut new_lhs, inner);
                let child = Claim { lhs: new_lhs, rhs: new_rhs };
                let ghost chv = child.deep_view();
                let r = complete_one(claim, child, rule);
                proof {
                    assert(apply_rule_spec(cv, rule) matches SpecTree::Complete {
                        claim: sc,
                        subproofs: sp,
                        rule: sr,
                    } && sc == cv && sr == rule && sp =~= seq![SpecTree::Open(chv)]);
                }
                r
            },
        },
        ProofRule::LAnd => match find_first_shape(&claim.lhs, rule) {
            None => open_leaf(claim),
            Some(i) => {
                proof {
                    lemma_first_match_in_range(cv.lhs, rule, 0);
                }
                let (a, b) = and_operands(&claim.lhs[i]);
                let mut new_lhs = removed(&claim.lhs, i);
                push_formula(&mut new_lhs, a);
                push_formula(&mut new_lhs, b);
                let child = Claim { lhs: new_lhs, rhs: dup_formulas(&claim.rhs) };
                let ghost chv = child.deep_view();
                let r = complete_one(claim, child, rule);
                proof {
                    assert(apply_rule_spec(cv, rule) matches SpecTree::Complete {
                        claim: sc,
                        subproofs: sp,
                        rule: sr,
                    } && sc == cv && sr == rule && sp =~= seq![SpecTree::Open(chv)]);
                }
                r
            },
        },
        ProofRule::RAnd => match find_first_shape(&claim.rhs, rule) {
            None => open_leaf(claim),
            Some(i) => {
                proof {
                    lemma_first_match_in_range(cv.rhs, rule, 0);
                }
                let (a, b) = and_operands(&claim.rhs[i]);
                let mut rhs1 = removed(&claim.rhs, i);
                push_formula(&mut rhs1, a);
                let mut rhs2 = removed(&claim.rhs, i);
                push_formula(&mut rhs2, b);
                let child1 = Claim { lhs: dup_formulas(&claim.lhs), rhs: rhs1 };
                let child2 = Claim { lhs: dup_formulas(&claim.lhs), rhs: rhs2 };
                let ghost chv1 = child1.deep_view();
                let ghost chv2 = child2.deep_view();
                let r = complete_two(claim, child1, child2, rule);
                proof {
                    assert(apply_rule_spec(cv, rule) matches SpecTree::Complete {
                        claim: sc,
                        subproofs: sp,
                        rule: sr,
                    } && sc == cv && sr == rule && sp =~= seq![
                        SpecTree::Open(chv1),
                        SpecTree::Open(chv2),
                    ]);
                }
                r
            },
        },
        ProofRule::LOr => match find_first_shape(&claim.lhs, rule) {
            None => open_leaf(claim),
            Some(i) => {
                proof {
                    lemma_first_match_in_range(cv.lhs, rule, 0);
                }
                let (a, b) = or_operands(&claim.lhs[i]);
                let mut lhs1 = removed(&claim.lhs, i);
                push_formula(&mut lhs1, a);
                let mut lhs2 = removed(&claim.lhs, i);
                push_formula(&mut lhs2, b);
                let child1 = Claim { lhs: lhs1, rhs: dup_formulas(&claim.rhs) };
                let child2 = Claim { lhs: lhs2, rhs: dup_formulas(&claim.rhs) };
                let ghost chv1 = child1.deep_view();
                let ghost chv2 = child2.deep_view();
                let r = complete_two(claim, child1, child2, rule);
                proof {
                    assert(apply_rule_spec(cv, rule) matches SpecTree::Complete {
                        claim: sc,
                        subproofs: sp,
                        rule: sr,
                    } && sc == cv && sr == rule && sp =~= seq![
                        SpecTree::Open(chv1),
                        SpecTree::Open(chv2),
                    ]);
                }
                r
            },
        },
        ProofRule::ROr => match find_first_shape(&claim.rhs, rule) {
            None => open_leaf(claim),
            Some(i) => {
                proof {
                    lemma_first_match_in_range(cv.rhs, rule, 0);
                }
                let (a, b) = or_operands(&claim.rhs[i]);
                let mut new_rhs = removed(&claim.rhs, i);
                push_formula(&mut new_rhs, a);
                push_formula(&mut new_rhs, b);
                let child = Claim { lhs: dup_formulas(&claim.lhs), rhs: new_rhs };
                let ghost chv = child.deep_view();
                let r = complete_one(claim, child, rule);
                proof {
                    assert(apply_rule_spec(cv, rule) matches SpecTree::Complete {
                        claim: sc,
                        subproofs: sp,
                        rule: sr,
                    } && sc == cv && sr == rule && sp =~= seq![SpecTree::Open(chv)]);
                }
                r
            },
        },
        ProofRule::LImpl => match find_first_shape(&claim.lhs, rule) {
            None => open_leaf(claim),
            Some(i) => {
                proof {
                    lemma_first_match_in_range(cv.lhs, rule, 0);
                }
                let (a, b) = impl_operands(&claim.lhs[i]);
                let lhs1 = removed(&claim.lhs, i);
                let mut rhs1 = dup_formulas(&claim.rhs);
                push_formula(&mut rhs1, a);
                let mut lhs2 = removed(&claim.lhs, i);
                push_formula(&mut lhs2, b);
                let child1 = Claim { lhs: lhs1, rhs: rhs1 };
                let child2 = Claim { lhs: lhs2, rhs: dup_formulas(&claim.rhs) };
                let ghost chv1 = child1.deep_view();
                let ghost chv2 = child2.deep_view();
                let r = complete_two(claim, child1, child2, rule);
                proof {
                    assert(apply_rule_spec(cv, rule) matches SpecTree::Complete {
                        claim: sc,
                        subproofs: sp,
                        rule: sr,
                    } && sc == cv && sr == rule && sp =~= seq![
                        SpecTree::Open(chv1),
                        SpecTree::Open(chv2),
                    ]);
                }
                r
            },
        },
        ProofRule::RImpl => match find_first_shape(&claim.rhs, rule) {
            None => open_leaf(claim),
            Some(i) => {
                proof {
                    lemma_first_match_in_range(cv.rhs, rule, 0);
                }
                let (a, b) = impl_operands(&claim.rhs[i]);
                let mut new_lhs = dup_formulas(&claim.lhs);
                push_formula(&mut new_lhs, a);
                let mut new_rhs = removed(&claim.rhs, i);
                push_formula(&mut new_rhs, b);
                let child = Claim { lhs: new_lhs, rhs: new_rhs };
                let ghost chv = child.deep_view();
                let r = complete_one(claim, child, rule);
                proof {
                    assert(apply_rule_spec(cv, rule) matches SpecTree::Complete {
                        claim: sc,
                        subproofs: sp,
                        rule: sr,
                    } && sc == cv && sr == rule && sp =~= seq![SpecTree::Open(chv)]);
                }
                r
            },
        },
    }
}

/// The fixed priority order in which rules are tried: closing rules first,
/// then non-branching rules, then branching rules. The order only shapes
/// the produced tree; it has no bearing on soundness.
pub open spec fn rule_order() -> Seq<ProofRule> {
    seq![
        ProofRule::LBot,
        ProofRule::Axiom,
        ProofRule::LNeg,
        ProofRule::RNeg,
        ProofRule::LAnd,
        ProofRule::ROr,
        ProofRule::RImpl,
        ProofRule::RAnd,
        ProofRule::LOr,
        ProofRule::LImpl,
    ]
}

/// The first rule at or after priority `k` that applies to `c`.
pub open spec fn first_rule_from(c: SpecClaim, k: int) -> Option<ProofRule>
    decreases rule_order().len() - k,
{
    if 0 <= k < rule_order().len() {
        if rule_applies(c, rule_order()[k]) {
            Some(rule_order()[k])
        } else {
            first_rule_from(c, k + 1)
        }
    } else {
        None
    }
}

/// The highest-priority rule that applies to `c`, if any.
pub open spec fn first_rule(c: SpecClaim) -> Option<ProofRule> {
    first_rule_from(c, 0)
}

/// A rule selected by `first_rule_from` does apply.
pub proof fn lemma_first_rule_applies(c: SpecClaim, k: int)
    ensures
        first_rule_from(c, k) matches Some(r) ==> rule_applies(c, r),
    decreases rule_order().len() - k,
{
    if 0 <= k < rule_order().len() && !rule_applies(c, rule_order()[k]) {
        lemma_first_rule_applies(c, k + 1);
    }
}

/// If no rule of priority below `k` applies, rule selection starts at `k`.
pub proof fn lemma_first_rule_prefix(c: SpecClaim, k: int)
    requires
        0 <= k <= rule_order().len(),
        forall|j: int| 0 <= j < k ==> !rule_applies(c, rule_order()[j]),
    ensures
        first_rule(c) == first_rule_from(c, k),
    decreases k,
{
    if k > 0 {
        lemma_first_rule_prefix(c, k - 1);
    }
}

/// A rule application never produces more than two child claims.
pub proof fn lemma_children_count(c: SpecClaim, r: ProofRule)
    ensures
        rule_children(c, r).len() <= 2,
{
}

/// The result of the search on a single open claim: the highest-priority
/// applicable rule closes it and the search recurses into every child;
/// when no rule applies the claim stays open.
pub open spec fn search_claim(c: SpecClaim) -> SpecTree
    decreases claim_size(c),
{
    match first_rule(c) {
        None => SpecTree::Open(c),
        Some(r) => {
            proof {
                lemma_first_rule_applies(c, 0);
                lemma_children_smaller(c, r);
            }
            let cs = rule_children(c, r);
            SpecTree::Complete {
                claim: c,
                subproofs: if cs.len() == 0 {
                    Seq::empty()
                } else if cs.len() == 1 {
                    seq![search_claim(cs[0])]
                } else {
                    seq![search_claim(cs[0]), search_claim(cs[1])]
                },
                rule: r,
            }
        },
    }
}

/// What the search yields on any tree: an open root is searched, a
/// completed root is returned unchanged.
pub open spec fn search_spec(t: SpecTree) -> SpecTree {
    match t {
        SpecTree::Open(c) => search_claim(c),
        SpecTree::Complete { .. } => t,
    }
}

/// The bound on the remaining search work for a tree.
pub open spec fn search_measure(t: SpecTree) -> nat {
    match t {
        SpecTree::Open(c) => 1 + claim_size(c),
        SpecTree::Complete { .. } => 0,
    }
}

/// The rule of priority `k`.
fn rule_at(k: usize) -> (r: ProofRule)
    requires
        k < rule_order().len(),
    ensures
        r == rule_order()[k as int],
{
    if k == 0 {
        ProofRule::LBot
    } else if k == 1 {
        ProofRule::Axiom
    } else if k == 2 {
        ProofRule::LNeg
    } else if k == 3 {
        ProofRule::RNeg
    } else if k == 4 {
        ProofRule::LAnd
    } else if k == 5 {
        ProofRule::ROr
    } else if k == 6 {
        ProofRule::RImpl
    } else if k == 7 {
        ProofRule::RAnd
    } else if k == 8 {
        ProofRule::LOr
    } else {
        ProofRule::LImpl
    }
}

/// Search a derivation tree to its fixed point: try the rules in priority
/// order against an open root, close it with the first rule that applies,
/// and recurse into every child claim. A completed root is returned
/// unchanged. Termination rests on [`lemma_children_smaller`]: every child
/// claim is strictly smaller than the claim it came from.
#[verifier::loop_isolation(false)]
pub fn proof_search(tree: ProofTree) -> (r: ProofTree)
    ensures
        r.deep_view() == search_spec(tree.deep_view()),
    decreases search_measure(tree.deep_view()),
{
    if let ProofTree::Open(claim) = &tree {
        let ghost cv = claim.deep_view();
        let mut k: usize = 0;
        while k < 10
            invariant
                k <= 10,
                forall|j: int| 0 <= j < k ==> !rule_applies(cv, rule_order()[j]),
            decreases 10 - k,
        {
            let rule = rule_at(k);
            let attempt = apply_proof_rule(claim, rule);
            let ghost av = attempt.deep_view();
            match attempt {
                ProofTree::Complete { claim: closed_claim, subproofs: children, rule: r2 } => {
                    let ghost cs = rule_children(cv, rule);
                    proof {
                        assert(rule_applies(cv, rule));
                        lemma_first_rule_prefix(cv, k as int);
                        assert(first_rule(cv) == Some(rule));
                        lemma_children_smaller(cv, rule);
                        lemma_children_count(cv, rule);
                        lemma_spec_trees_from(children, 0);
                        assert(closed_claim.deep_view() == cv);
                        assert(r2 == rule);
                        assert(spec_trees_from(children, 0) == cs.map_values(
                            |cc: SpecClaim| SpecTree::Open(cc),
                        ));
                        assert(children.len() == cs.len());
                        assert forall|j: int|
                            0 <= j < children.len() implies spec_tree(children[j])
                            == SpecTree::Open(cs[j]) by {
                            assert(spec_trees_from(children, 0)[j] == spec_tree(children[j]));
                            assert(cs.map_values(|cc: SpecClaim| SpecTree::Open(cc))[j]
                                == SpecTree::Open(cs[j]));
                        }
                    }
                    let mut children = children;
                    let mut results: Vec<ProofTree> = Vec::new();
                    while children.len() > 0
                        invariant
                            results.len() + children.len() == cs.len(),
                            forall|j: int|
                                0 <= j < results.len() ==> spec_tree(results[j]) == search_claim(
                                    cs[j],
                                ),
                            forall|j: int|
                                0 <= j < children.len() ==> spec_tree(children[j])
                                    == SpecTree::Open(cs[results.len() + j]),
                        decreases children.len(),
                    {
                        let ghost done = results.len() as int;
                        let child = children.remove(0);
                        proof {
                            assert(spec_tree(child) == SpecTree::Open(cs[done]));
                            assert(claim_size(cs[done]) < claim_size(cv));
                        }
                        let sub = proof_search(child);
                        results.push(sub);
                        proof {
                            assert(forall|j: int|
                                0 <= j < children.len() ==> spec_tree(children[j])
                                    == SpecTree::Open(cs[results.len() + j]));
                        }
                    }
                    let out = ProofTree::Complete {
                        claim: closed_claim,
                        subproofs: results,
                        rule: r2,
                    };
                    proof {
                        if let ProofTree::Complete { subproofs: s2, .. } = &out {
                            lemma_spec_trees_from(*s2, 0);
                            if cs.len() == 0 {
                                assert(spec_trees_from(*s2, 0) =~= Seq::<SpecTree>::empty());
                            } else if cs.len() == 1 {
                                assert(spec_trees_from(*s2, 0) =~= seq![search_claim(cs[0])]);
                            } else {
                                assert(cs.len() == 2);
                                assert(spec_trees_from(*s2, 0) =~= seq![
                                    search_claim(cs[0]),
                                    search_claim(cs[1]),
                                ]);
                            }
                        }
                        assert(out.deep_view() == search_claim(cv));
                    }
                    return out;
                },
                ProofTree::Open(_) => {
                    proof {
                        assert(av is Open);
                        assert(!rule_applies(cv, rule));
                    }
                },
            }
            k = k + 1;
        }
        proof {
            lemma_first_rule_prefix(cv, 10);
            assert(search_spec(tree.deep_view()) == SpecTree::Open(cv));
        }
    }
    tree
}

/// The claim a derivation tree is about.
pub open spec fn tree_claim(t: SpecTree) -> SpecClaim {
    match t {
        SpecTree::Open(c) => c,
        SpecTree::Complete { claim, .. } => claim,
    }
}

/// Soundness by construction: at every completed node, re-applying the
/// recorded rule to the recorded claim yields exactly the recorded
/// subproof claims, and the subproofs are sound in turn.
pub open spec fn tree_sound(t: SpecTree) -> bool
    decreases t,
{
    match t {
        SpecTree::Open(_) => true,
        SpecTree::Complete { claim, subproofs, rule } => {
            &&& rule_applies(claim, rule)
            &&& subproofs.len() == rule_children(claim, rule).len()
            &&& forall|j: int|
                0 <= j < subproofs.len() ==> tree_claim(#[trigger] subproofs[j]) == rule_children(
                    claim,
                    rule,
                )[j] && tree_sound(subproofs[j])
        },
    }
}

/// The root claim of a searched claim is that claim itself.
pub proof fn lemma_search_claim_root(c: SpecClaim)
    ensures
        tree_claim(search_claim(c)) == c,
{
}

/// Searching an open claim yields a sound derivation tree.
pub proof fn lemma_search_claim_sound(c: SpecClaim)
    ensures
        tree_sound(search_claim(c)),
    decreases claim_size(c),
{
    match first_rule(c) {
        None => {},
        Some(r) => {
            lemma_first_rule_applies(c, 0);
            lemma_children_smaller(c, r);
            let cs = rule_children(c, r);
            if cs.len() >= 1 {
                lemma_search_claim_sound(cs[0]);
                lemma_search_claim_root(cs[0]);
            }
            if cs.len() >= 2 {
                lemma_search_claim_sound(cs[1]);
                lemma_search_claim_root(cs[1]);
            }
        },
    }
}

/// The search preserves soundness: a sound tree searches to a sound tree.
/// In particular every tree the search grows from an open leaf is sound.
pub proof fn lemma_search_sound(t: SpecTree)
    requires
        tree_sound(t),
    ensures
        tree_sound(search_spec(t)),
{
    match t {
        SpecTree::Open(c) => lemma_search_claim_sound(c),
        SpecTree::Complete { .. } => {},
    }
}

/// Every open leaf of the tree is stuck: no rule of the fixed order
/// applies to its claim.
pub open spec fn tree_stuck(t: SpecTree) -> bool
    decreases t,
{
    match t {
        SpecTree::Open(c) => first_rule(c) is None,
        SpecTree::Complete { subproofs, .. } => forall|j: int|
            0 <= j < subproofs.len() ==> tree_stuck(#[trigger] subproofs[j]),
    }
}

/// Searching an open claim reaches a fixed point: every leaf that is
/// still open afterwards is stuck, so a further pass can change nothing.
pub proof fn lemma_search_claim_stuck(c: SpecClaim)
    ensures
        tree_stuck(search_claim(c)),
    decreases claim_size(c),
{
    match first_rule(c) {
        None => {},
        Some(r) => {
            lemma_first_rule_applies(c, 0);
            lemma_children_smaller(c, r);
            let cs = rule_children(c, r);
            if cs.len() >= 1 {
                lemma_search_claim_stuck(cs[0]);
            }
            if cs.len() >= 2 {
                lemma_search_claim_stuck(cs[1]);
            }
        },
    }
}

/// The search is idempotent: searching an already searched tree changes
/// nothing.
pub proof fn lemma_search_idempotent(t: SpecTree)
    ensures
        search_spec(search_spec(t)) == search_spec(t),
{
    match t {
        SpecTree::Open(c) => {
            match first_rule(c) {
                None => {
                    assert(search_claim(c) == SpecTree::Open(c));
                },
                Some(r) => {
                    assert(search_claim(c) is Complete);
                },
            }
        },
        SpecTree::Complete { .. } => {},
    }
}

/// Axiom correctness: where some formula occurs on both sides of the claim
/// and falsity is not among the hypotheses, the search closes the claim at
/// once by the axiom rule, with no children. (With falsity among the
/// hypotheses the claim also closes with no children, but the falsity rule
/// is recorded, having higher priority.)
pub proof fn lemma_axiom_closes(c: SpecClaim)
    requires
        exists|i: int, j: int|
            0 <= i < c.lhs.len() && 0 <= j < c.rhs.len() && c.lhs[i] == c.rhs[j],
        forall|i: int| 0 <= i < c.lhs.len() ==> !((#[trigger] c.lhs[i]) is Bottom),
    ensures
        search_claim(c) == (SpecTree::Complete {
            claim: c,
            subproofs: Seq::<SpecTree>::empty(),
            rule: ProofRule::Axiom,
        }),
{
    assert(!rule_applies(c, ProofRule::LBot));
    assert(rule_applies(c, ProofRule::Axiom));
    assert(first_rule_from(c, 1) == Some(ProofRule::Axiom));
    assert(first_rule(c) == Some(ProofRule::Axiom));
}

} // verus!
