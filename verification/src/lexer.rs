//! The tokenizer for the claim grammar: ASCII text, whitespace-insensitive.
//!
//! The keyword `false` is recognised before identifiers, so an identifier
//! may not begin with `false`; identifiers are otherwise read greedily.

use vstd::prelude::*;
use vstd::string::StrSliceExecFns;

verus! {

/// One lexical token of the claim grammar.
#[derive(Debug, PartialEq, Eq)]
pub enum Token {
    Bottom,
    Literal(String),
    Not,
    And,
    Or,
    Arrow,
    BigArrow,
    Comma,
    LParen,
    RParen,
}

/// The specification-level shape of a [`Token`].
pub enum SpecToken {
    Bottom,
    Literal(Seq<char>),
    Not,
    And,
    Or,
    Arrow,
    BigArrow,
    Comma,
    LParen,
    RParen,
}

impl DeepView for Token {
    type V = SpecToken;

    open spec fn deep_view(&self) -> SpecToken {
        match self {
            Token::Bottom => SpecToken::Bottom,
            Token::Literal(s) => SpecToken::Literal(s@),
            Token::Not => SpecToken::Not,
            Token::And => SpecToken::And,
            Token::Or => SpecToken::Or,
            Token::Arrow => SpecToken::Arrow,
            Token::BigArrow => SpecToken::BigArrow,
            Token::Comma => SpecToken::Comma,
            Token::LParen => SpecToken::LParen,
            Token::RParen => SpecToken::RParen,
        }
    }
}

/// Whitespace between tokens.
pub open spec fn is_space_char(c: char) -> bool {
    c == ' ' || c == '\t' || c == '\n' || c == '\r'
}

/// The leading character of an identifier.
pub open spec fn is_alpha_char(c: char) -> bool {
    ('a' as u32) <= (c as u32) && (c as u32) <= ('z' as u32) || ('A' as u32) <= (c as u32) && (
    c as u32) <= ('Z' as u32)
}

/// A continuation character of an identifier.
pub open spec fn is_ident_char(c: char) -> bool {
    is_alpha_char(c) || ('0' as u32) <= (c as u32) && (c as u32) <= ('9' as u32) || c == '_'
}

/// The input with its leading whitespace dropped.
pub open spec fn skip_spaces(s: Seq<char>) -> Seq<char>
    decreases s.len(),
{
    if s.len() > 0 && is_space_char(s[0]) {
        skip_spaces(s.drop_first())
    } else {
        s
    }
}

/// The end of the identifier that starts at position `i`.
pub open spec fn ident_end(s: Seq<char>, i: int) -> int
    decreases s.len() - i,
{
    if 0 <= i < s.len() && is_ident_char(s[i]) {
        ident_end(s, i + 1)
    } else {
        i
    }
}

/// Does the input start with the keyword `false`?
pub open spec fn starts_false(t: Seq<char>) -> bool {
    t.len() >= 5 && t[0] == 'f' && t[1] == 'a' && t[2] == 'l' && t[3] == 's' && t[4] == 'e'
}

/// The first token of the input, if any, and the remaining input: leading
/// whitespace is skipped, the keyword `false` is preferred over an
/// identifier reading, and identifiers are read greedily.
pub open spec fn spec_next_token(s: Seq<char>) -> Option<(SpecToken, Seq<char>)> {
    let t = skip_spaces(s);
    if starts_false(t) {
        Some((SpecToken::Bottom, t.skip(5)))
    } else if t.len() > 0 && is_alpha_char(t[0]) {
        Some((SpecToken::Literal(t.take(ident_end(t, 0))), t.skip(ident_end(t, 0))))
    } else if t.len() > 0 && t[0] == '!' {
        Some((SpecToken::Not, t.skip(1)))
    } else if t.len() > 0 && t[0] == '&' {
        Some((SpecToken::And, t.skip(1)))
    } else if t.len() > 0 && t[0] == '|' {
        Some((SpecToken::Or, t.skip(1)))
    } else if t.len() >= 2 && t[0] == '-' && t[1] == '>' {
        Some((SpecToken::Arrow, t.skip(2)))
    } else if t.len() > 0 && t[0] == ',' {
        Some((SpecToken::Comma, t.skip(1)))
    } else if t.len() > 0 && t[0] == '(' {
        Some((SpecToken::LParen, t.skip(1)))
    } else if t.len() > 0 && t[0] == ')' {
        Some((SpecToken::RParen, t.skip(1)))
    } else if t.len() >= 2 && t[0] == '=' && t[1] == '>' {
        Some((SpecToken::BigArrow, t.skip(2)))
    } else {
        None
    }
}

/// The token sequence of the whole input: tokens are read until the input
/// is exhausted; any unreadable remainder fails the whole input, a
/// whitespace-only remainder included.
pub open spec fn spec_lex(s: Seq<char>) -> Option<Seq<SpecToken>>
    decreases s.len(),
{
    if s.len() == 0 {
        Some(Seq::empty())
    } else {
        match spec_next_token(s) {
            None => None,
            Some((tok, rest)) => {
                if rest.len() < s.len() {
                    match spec_lex(rest) {
                        None => None,
                        Some(toks) => Some(seq![tok] + toks),
                    }
                } else {
                    None
                }
            },
        }
    }
}

/// Whitespace skipping stops exactly at the first non-space position.
proof fn lemma_skip_spaces_at(s: Seq<char>, i: int)
    requires
        0 <= i <= s.len(),
        forall|j: int| 0 <= j < i ==> is_space_char(s[j]),
        i == s.len() || !is_space_char(s[i]),
    ensures
        skip_spaces(s) == s.skip(i),
    decreases i,
{
    if i == 0 {
        assert(s.skip(0) =~= s);
    } else {
        assert(s.drop_first() =~= s.skip(1));
        assert(s.skip(1).skip(i - 1) =~= s.skip(i));
        lemma_skip_spaces_at(s.skip(1), i - 1);
    }
}

/// Identifier reading stops exactly at the first non-identifier position.
proof fn lemma_ident_end(t: Seq<char>, i: int, k: int)
    requires
        0 <= i <= k <= t.len(),
        forall|j: int| i <= j < k ==> is_ident_char(t[j]),
        k == t.len() || !is_ident_char(t[k]),
    ensures
        ident_end(t, i) == k,
    decreases k - i,
{
    if i < k {
        lemma_ident_end(t, i + 1, k);
    }
}

/// Whitespace test for one character.
fn is_space(c: char) -> (r: bool)
    ensures
        r == is_space_char(c),
{
    c == ' ' || c == '\t' || c == '\n' || c == '\r'
}

/// Identifier-start test for one character.
fn is_alpha(c: char) -> (r: bool)
    ensures
        r == is_alpha_char(c),
{
    let u = c as u32;
    ('a' as u32) <= u && u <= ('z' as u32) || ('A' as u32) <= u && u <= ('Z' as u32)
}

/// Identifier-continuation test for one character.
fn is_ident(c: char) -> (r: bool)
    ensures
        r == is_ident_char(c),
{
    let u = c as u32;
    is_alpha(c) || ('0' as u32) <= u && u <= ('9' as u32) || c == '_'
}

/// The suffix of `s` from character position `j` on, as an owned string.
fn tail_from(s: &str, j: usize, n: usize) -> (r: String)
    requires
        j <= n == s@.len(),
    ensures
        r@ == s@.skip(j as int),
{
    let r = s.substring_char(j, n).to_owned();
    proof {
        assert(r@ =~= s@.skip(j as int));
    }
    r
}

/// The first token of `s` and the remaining input, or nothing when no
/// token of the grammar starts the (whitespace-trimmed) input.
#[verifier::loop_isolation(false)]
pub fn next_token(s: &str) -> (r: Option<(Token, String)>)
    ensures
        match r {
            Some(p) => spec_next_token(s@) == Some((p.0.deep_view(), p.1@)) && p.1@.len()
                < s@.len(),
            None => spec_next_token(s@) is None,
        },
{
    let n = s.unicode_len();
    let mut i: usize = 0;
    while i < n && is_space(s.get_char(i))
        invariant
            0 <= i <= n,
            forall|j: int| 0 <= j < i ==> is_space_char(s@[j]),
        decreases n - i,
    {
        i = i + 1;
    }
    proof {
        lemma_skip_spaces_at(s@, i as int);
    }
    let ghost t = skip_spaces(s@);
    if n - i >= 5 && s.get_char(i) == 'f' && s.get_char(i + 1) == 'a' && s.get_char(i + 2) == 'l'
        && s.get_char(i + 3) == 's' && s.get_char(i + 4) == 'e' {
        proof {
            assert(t =~= s@.skip(i as int));
            assert(starts_false(t));
            assert(s@.skip(i + 5) =~= t.skip(5));
        }
        return Some((Token::Bottom, tail_from(s, i + 5, n)));
    }
    if i < n && is_alpha(s.get_char(i)) {
        let mut j: usize = i + 1;
        while j < n && is_ident(s.get_char(j))
            invariant
                i < j <= n,
                forall|k: int| i < k < j ==> is_ident_char(s@[k]),
            decreases n - j,
        {
            j = j + 1;
        }
        proof {
            assert(!starts_false(t));
            assert(forall|k: int| 0 < k < j - i ==> is_ident_char(t[k]));
            assert(is_ident_char(t[0]));
            lemma_ident_end(t, 0, j - i);
            assert(t.take(j - i) =~= s@.subrange(i as int, j as int));
            assert(t.skip(j - i) =~= s@.skip(j as int));
        }
        let name = s.substring_char(i, j).to_owned();
        return Some((Token::Literal(name), tail_from(s, j, n)));
    }
    if i < n {
        let c = s.get_char(i);
        proof {
            assert(t =~= s@.skip(i as int));
            assert(t[0] == s@[i as int]);
            assert(s@.skip(i + 1) =~= t.skip(1));
        }
        if c == '!' {
            return Some((Token::Not, tail_from(s, i + 1, n)));
        }
        if c == '&' {
            return Some((Token::And, tail_from(s, i + 1, n)));
        }
        if c == '|' {
            return Some((Token::Or, tail_from(s, i + 1, n)));
        }
        if c == '-' && n - i >= 2 && s.get_char(i + 1) == '>' {
            proof {
                assert(s@.skip(i + 2) =~= t.skip(2));
            }
            return Some((Token::Arrow, tail_from(s, i + 2, n)));
        }
        if c == ',' {
            return Some((Token::Comma, tail_from(s, i + 1, n)));
        }
        if c == '(' {
            return Some((Token::LParen, tail_from(s, i + 1, n)));
        }
        if c == ')' {
            return Some((Token::RParen, tail_from(s, i + 1, n)));
        }
        if c == '=' && n - i >= 2 && s.get_char(i + 1) == '>' {
            proof {
                assert(s@.skip(i + 2) =~= t.skip(2));
            }
            return Some((Token::BigArrow, tail_from(s, i + 2, n)));
        }
    }
    proof {
        assert(t =~= s@.skip(i as int));
    }
    None
}

/// Tokenize a whole input string, or nothing when the input cannot be
/// read to its end.
#[verifier::loop_isolation(false)]
pub fn lex(s: String) -> (r: Option<Vec<Token>>)
    ensures
        match r {
            Some(toks) => spec_lex(s@) == Some(toks.deep_view()),
            None => spec_lex(s@) is None,
        },
{
    let ghost sv = s@;
    let mut res: Vec<Token> = Vec::new();
    let mut tail: String = s;
    proof {
        assert(res.deep_view() =~= Seq::<SpecToken>::empty());
        match spec_lex(sv) {
            Some(ts) => {
                assert(res.deep_view() + ts =~= ts);
            },
            None => {},
        }
    }
    while !tail.as_str().is_empty()
        invariant
            spec_lex(sv) == (match spec_lex(tail@) {
                None => None::<Seq<SpecToken>>,
                Some(ts) => Some(res.deep_view() + ts),
            }),
        decreases tail@.len(),
    {
        match next_token(tail.as_str()) {
            None => {
                return None;
            },
            Some((token, newtail)) => {
                let ghost old_res = res.deep_view();
                let ghost tokv = token.deep_view();
                res.push(token);
                proof {
                    assert(res.deep_view() =~= old_res.push(tokv));
                    match spec_lex(newtail@) {
                        Some(ts2) => {
                            assert(old_res + (seq![tokv] + ts2) =~= res.deep_view() + ts2);
                        },
                        None => {},
                    }
                }
                tail = newtail;
            },
        }
    }
    proof {
        assert(spec_lex(tail@) == Some(Seq::<SpecToken>::empty()));
        assert(res.deep_view() + Seq::<SpecToken>::empty() =~= res.deep_view());
    }
    Some(res)
}

} // verus!
