//! Recursive-descent parsing of formulas and claims from token slices.
//!
//! Grammar, tightest first: a primary is an atom, `false`, a negation or a
//! parenthesised formula; conjunction binds tighter than disjunction,
//! which binds tighter than right-associative implication. A formula list
//! is comma-separated; a claim is two formula lists around `=>`.

use vstd::prelude::*;
use vstd::slice::slice_subrange;
use crate::ast::{Claim, Formula, SpecClaim, SpecFormula};
use crate::lexer::{SpecToken, Token};

verus! {

/// A partial parse of a primary: an atom, `false`, a negation of a
/// primary, or a parenthesised formula.
pub open spec fn spec_parse_primary(ts: Seq<SpecToken>) -> Option<(SpecFormula, Seq<SpecToken>)>
    decreases ts.len(), 0int,
{
    if ts.len() == 0 {
        None
    } else {
        match ts[0] {
            SpecToken::Bottom => Some((SpecFormula::Bottom, ts.drop_first())),
            SpecToken::Literal(name) => Some((SpecFormula::Literal(name), ts.drop_first())),
            SpecToken::Not => match spec_parse_primary(ts.drop_first()) {
                None => None,
                Some((f, t)) => Some((SpecFormula::Not(Box::new(f)), t)),
            },
            SpecToken::LParen => match spec_parse_formula(ts.drop_first()) {
                None => None,
                Some((f, t)) => {
                    if t.len() > 0 && t[0] is RParen {
                        Some((f, t.drop_first()))
                    } else {
                        None
                    }
                },
            },
            _ => None,
        }
    }
}

/// A partial parse of a conjunction: a primary, possibly `&` a conjunction.
pub open spec fn spec_parse_conj(ts: Seq<SpecToken>) -> Option<(SpecFormula, Seq<SpecToken>)>
    decreases ts.len(), 1int,
{
    match spec_parse_primary(ts) {
        None => None,
        Some((f, t)) => {
            if t.len() > 0 && t[0] is And && t.len() < ts.len() {
                match spec_parse_conj(t.drop_first()) {
                    None => None,
                    Some((g, t2)) => Some(
                        (SpecFormula::And { lhs: Box::new(f), rhs: Box::new(g) }, t2),
                    ),
                }
            } else {
                Some((f, t))
            }
        },
    }
}

/// A partial parse of a disjunction: a conjunction, possibly `|` a
/// disjunction.
pub open spec fn spec_parse_disj(ts: Seq<SpecToken>) -> Option<(SpecFormula, Seq<SpecToken>)>
    decreases ts.len(), 2int,
{
    match spec_parse_conj(ts) {
        None => None,
        Some((f, t)) => {
            if t.len() > 0 && t[0] is Or && t.len() < ts.len() {
                match spec_parse_disj(t.drop_first()) {
                    None => None,
                    Some((g, t2)) => Some(
                        (SpecFormula::Or { lhs: Box::new(f), rhs: Box::new(g) }, t2),
                    ),
                }
            } else {
                Some((f, t))
            }
        },
    }
}

/// A partial parse of an implication: a disjunction, possibly `->` an
/// implication (so `->` associates to the right).
pub open spec fn spec_parse_impl(ts: Seq<SpecToken>) -> Option<(SpecFormula, Seq<SpecToken>)>
    decreases ts.len(), 3int,
{
    match spec_parse_disj(ts) {
        None => None,
        Some((f, t)) => {
            if t.len() > 0 && t[0] is Arrow && t.len() < ts.len() {
                match spec_parse_impl(t.drop_first()) {
                    None => None,
                    Some((g, t2)) => Some(
                        (SpecFormula::Implication { lhs: Box::new(f), rhs: Box::new(g) }, t2),
                    ),
                }
            } else {
                Some((f, t))
            }
        },
    }
}

/// A partial parse of a formula: an implication, the weakest level.
pub open spec fn spec_parse_formula(ts: Seq<SpecToken>) -> Option<(SpecFormula, Seq<SpecToken>)>
    decreases ts.len(), 4int,
{
    spec_parse_impl(ts)
}

/// A partial parse of a comma-separated formula list. It cannot fail:
/// where no formula can be read the list is empty and no token is
/// consumed. After a trailing comma the list simply ends.
pub open spec fn spec_parse_list(ts: Seq<SpecToken>) -> (Seq<SpecFormula>, Seq<SpecToken>)
    decreases ts.len(),
{
    match spec_parse_formula(ts) {
        None => (Seq::empty(), ts),
        Some((f, t)) => {
            if t.len() > 0 && t[0] is Comma && t.len() < ts.len() {
                let (rest, t2) = spec_parse_list(t.drop_first());
                (seq![f] + rest, t2)
            } else {
                (seq![f], t)
            }
        },
    }
}

/// A partial parse of a claim: a formula list, `=>`, a formula list.
pub open spec fn spec_parse_claim(ts: Seq<SpecToken>) -> Option<(SpecClaim, Seq<SpecToken>)> {
    let (lhs, t) = spec_parse_list(ts);
    if t.len() > 0 && t[0] is BigArrow {
        let (rhs, t2) = spec_parse_list(t.drop_first());
        Some((SpecClaim { lhs, rhs }, t2))
    } else {
        None
    }
}

/// Parsing from a token slice, for the types the claim grammar builds.
pub trait Parsable: Sized + DeepView {
    /// What a partial parse of this type yields on given tokens.
    spec fn spec_parse_partial(ts: Seq<SpecToken>) -> Option<(Self::V, Seq<SpecToken>)>;

    /// Parse a prefix of `tokens`, returning the parsed value and the
    /// unconsumed suffix.
    fn parse_partial<'a>(tokens: &'a [Token]) -> (r: Option<(Self, &'a [Token])>)
        ensures
            match r {
                Some(p) => Self::spec_parse_partial(tokens.deep_view()) == Some(
                    (p.0.deep_view(), p.1.deep_view()),
                ) && p.1@.len() <= tokens@.len(),
                None => Self::spec_parse_partial(tokens.deep_view()) is None,
            },
    ;

    /// Parse the whole of `tokens`: the partial parse must consume every
    /// token, else nothing is returned.
    fn parse(tokens: &[Token]) -> (r: Option<Self>)
        ensures
            match Self::spec_parse_partial(tokens.deep_view()) {
                Some(p) => if p.1.len() == 0 {
                    r matches Some(v) && v.deep_view() == p.0
                } else {
                    r is None
                },
                None => r is None,
            },
    {
        match Self::parse_partial(tokens) {
            None => None,
            Some((f, t)) => {
                if t.len() == 0 {
                    proof {
                        assert(t.deep_view().len() == t@.len());
                    }
                    Some(f)
                } else {
                    proof {
                        assert(t.deep_view().len() == t@.len());
                    }
                    None
                }
            },
        }
    }
}

/// The tail of a token slice, from position `i` on.
fn slice_from<'a>(tokens: &'a [Token], i: usize) -> (r: &'a [Token])
    requires
        i <= tokens@.len(),
    ensures
        r@ == tokens@.skip(i as int),
        r.deep_view() == tokens.deep_view().skip(i as int),
{
    let r = slice_subrange(tokens, i, tokens.len());
    proof {
        assert(r@ =~= tokens@.skip(i as int));
        assert(r.deep_view() =~= tokens.deep_view().skip(i as int));
    }
    r
}

/// Executable counterpart of [`spec_parse_primary`].
fn parse_primary<'a>(tokens: &'a [Token]) -> (r: Option<(Formula, &'a [Token])>)
    ensures
        match r {
            Some(p) => spec_parse_primary(tokens.deep_view()) == Some(
                (p.0.deep_view(), p.1.deep_view()),
            ) && p.1@.len() < tokens@.len(),
            None => spec_parse_primary(tokens.deep_view()) is None,
        },
    decreases tokens@.len(), 0int,
{
    if tokens.len() == 0 {
        return None;
    }
    proof {
        assert(tokens.deep_view().drop_first() =~= tokens.deep_view().skip(1));
    }
    match &tokens[0] {
        Token::Bottom => Some((Formula::Bottom, slice_from(tokens, 1))),
        Token::Literal(s) => Some((Formula::Literal(s.clone()), slice_from(tokens, 1))),
        Token::Not => match parse_primary(slice_from(tokens, 1)) {
            None => None,
            Some((f, t)) => Some((Formula::Not(Box::new(f)), t)),
        },
        Token::LParen => match parse_formula(slice_from(tokens, 1)) {
            None => None,
            Some((f, t)) => {
                if t.len() > 0 && matches!(&t[0], Token::RParen) {
                    proof {
                        assert(t.deep_view().drop_first() =~= t.deep_view().skip(1));
                    }
                    Some((f, slice_from(t, 1)))
                } else {
                    None
                }
            },
        },
        _ => None,
    }
}

/// Executable counterpart of [`spec_parse_conj`].
fn parse_conj<'a>(tokens: &'a [Token]) -> (r: Option<(Formula, &'a [Token])>)
    ensures
        match r {
            Some(p) => spec_parse_conj(tokens.deep_view()) == Some(
                (p.0.deep_view(), p.1.deep_view()),
            ) && p.1@.len() < tokens@.len(),
            None => spec_parse_conj(tokens.deep_view()) is None,
        },
    decreases tokens@.len(), 1int,
{
    match parse_primary(tokens) {
        None => None,
        Some((f, t)) => {
            if t.len() > 0 && matches!(&t[0], Token::And) {
                proof {
                    assert(t.deep_view().drop_first() =~= t.deep_view().skip(1));
                }
                match parse_conj(slice_from(t, 1)) {
                    None => None,
                    Some((g, t2)) => Some(
                        (Formula::And { lhs: Box::new(f), rhs: Box::new(g) }, t2),
                    ),
                }
            } else {
                Some((f, t))
            }
        },
    }
}

/// Executable counterpart of [`spec_parse_disj`].
fn parse_disj<'a>(tokens: &'a [Token]) -> (r: Option<(Formula, &'a [Token])>)
    ensures
        match r {
            Some(p) => spec_parse_disj(tokens.deep_view()) == Some(
                (p.0.deep_view(), p.1.deep_view()),
            ) && p.1@.len() < tokens@.len(),
            None => spec_parse_disj(tokens.deep_view()) is None,
        },
    decreases tokens@.len(), 2int,
{
    match parse_conj(tokens) {
        None => None,
        Some((f, t)) => {
            if t.len() > 0 && matches!(&t[0], Token::Or) {
                proof {
                    assert(t.deep_view().drop_first() =~= t.deep_view().skip(1));
                }
                match parse_disj(slice_from(t, 1)) {
                    None => None,
                    Some((g, t2)) => Some(
                        (Formula::Or { lhs: Box::new(f), rhs: Box::new(g) }, t2),
                    ),
                }
            } else {
                Some((f, t))
            }
        },
    }
}

/// Executable counterpart of [`spec_parse_impl`].
fn parse_impl<'a>(tokens: &'a [Token]) -> (r: Option<(Formula, &'a [Token])>)
    ensures
        match r {
            Some(p) => spec_parse_impl(tokens.deep_view()) == Some(
                (p.0.deep_view(), p.1.deep_view()),
            ) && p.1@.len() < tokens@.len(),
            None => spec_parse_impl(tokens.deep_view()) is None,
        },
    decreases tokens@.len(), 3int,
{
    match parse_disj(tokens) {
        None => None,
        Some((f, t)) => {
            if t.len() > 0 && matches!(&t[0], Token::Arrow) {
                proof {
                    assert(t.deep_view().drop_first() =~= t.deep_view().skip(1));
                }
                match parse_impl(slice_from(t, 1)) {
                    None => None,
                    Some((g, t2)) => Some(
                        (Formula::Implication { lhs: Box::new(f), rhs: Box::new(g) }, t2),
                    ),
                }
            } else {
                Some((f, t))
            }
        },
    }
}

/// Executable counterpart of [`spec_parse_formula`].
fn parse_formula<'a>(tokens: &'a [Token]) -> (r: Option<(Formula, &'a [Token])>)
    ensures
        match r {
            Some(p) => spec_parse_formula(tokens.deep_view()) == Some(
                (p.0.deep_view(), p.1.deep_view()),
            ) && p.1@.len() < tokens@.len(),
            None => spec_parse_formula(tokens.deep_view()) is None,
        },
    decreases tokens@.len(), 4int,
{
    parse_impl(tokens)
}

/// Executable counterpart of [`spec_parse_list`].
fn parse_list<'a>(tokens: &'a [Token]) -> (r: (Vec<Formula>, &'a [Token]))
    ensures
        spec_parse_list(tokens.deep_view()) == (r.0.deep_view(), r.1.deep_view()),
        r.1@.len() <= tokens@.len(),
    decreases tokens@.len(),
{
    match parse_formula(tokens) {
        None => (Vec::new(), tokens),
        Some((f, t)) => {
            let ghost fv = f.deep_view();
            if t.len() > 0 && matches!(&t[0], Token::Comma) {
                proof {
                    assert(t.deep_view().drop_first() =~= t.deep_view().skip(1));
                }
                let (mut rest, t2) = parse_list(slice_from(t, 1));
                let ghost restv = rest.deep_view();
                rest.insert(0, f);
                proof {
                    assert(rest.deep_view() =~= seq![fv] + restv);
                }
                (rest, t2)
            } else {
                let one = vec![f];
                proof {
                    assert(one.deep_view() =~= seq![fv]);
                }
                (one, t)
            }
        },
    }
}

impl Parsable for Formula {
    open spec fn spec_parse_partial(ts: Seq<SpecToken>) -> Option<(SpecFormula, Seq<SpecToken>)> {
        spec_parse_formula(ts)
    }

    fn parse_partial<'a>(tokens: &'a [Token]) -> (r: Option<(Formula, &'a [Token])>) {
        parse_formula(tokens)
    }
}

impl Parsable for Vec<Formula> {
    open spec fn spec_parse_partial(ts: Seq<SpecToken>) -> Option<
        (Seq<SpecFormula>, Seq<SpecToken>),
    > {
        Some(spec_parse_list(ts))
    }

    fn parse_partial<'a>(tokens: &'a [Token]) -> (r: Option<(Vec<Formula>, &'a [Token])>) {
        Some(parse_list(tokens))
    }
}

impl Parsable for Claim {
    open spec fn spec_parse_partial(ts: Seq<SpecToken>) -> Option<(SpecClaim, Seq<SpecToken>)> {
        spec_parse_claim(ts)
    }

    fn parse_partial<'a>(tokens: &'a [Token]) -> (r: Option<(Claim, &'a [Token])>) {
        let (lhs, t) = parse_list(tokens);
        if t.len() > 0 && matches!(&t[0], Token::BigArrow) {
            proof {
                assert(t.deep_view().drop_first() =~= t.deep_view().skip(1));
            }
            let (rhs, t2) = parse_list(slice_from(t, 1));
            Some((Claim { lhs, rhs }, t2))
        } else {
            None
        }
    }
}

} // verus!
