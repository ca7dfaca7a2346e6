//! Recursive-descent parsing of a pattern string into a syntax tree.
//!
//! Grammar, lowest precedence first: an alternation is a `|`-separated
//! list of concatenations (right-nested, left operand first); a
//! concatenation is a possibly empty run of repeatable atoms; an atom is
//! a literal symbol, a `\`-escaped symbol, or a parenthesised
//! alternation, optionally followed by one `*`, `+` or `?`.

use vstd::prelude::*;

use crate::ast::AST;
use crate::ast::SpecAst;
use crate::ast::ast_view_list;

verus! {

broadcast use {
    crate::ast::lemma_view_char,
    crate::ast::lemma_view_plus,
    crate::ast::lemma_view_star,
    crate::ast::lemma_view_question,
    crate::ast::lemma_view_or,
    crate::ast::lemma_view_concat,
};


/// Errors of the parsing stage.
///
/// `NoOperand` marks a repetition operator or separator with nothing to
/// apply to, `InvalidEscape` a trailing `\`, `UnclosedParen` a `(` whose
/// group never closes, and `UnmatchedParen` a `)` that closes nothing.
#[derive(Debug, Clone, Copy, PartialEq, Eq)]
pub enum ParseError {
    NoOperand,
    InvalidEscape,
    UnclosedParen,
    UnmatchedParen,
}

/// Parses one atom of `s` at position `i`: a literal symbol, an escaped
/// symbol, or a parenthesised alternation.
pub open spec fn parse_atom_spec(s: Seq<char>, i: nat) -> Result<(SpecAst, nat), ParseError>
    decreases s.len() - i, 0int,
{
    if i >= s.len() {
        Err(ParseError::NoOperand)
    } else if s[i as int] == '(' {
        match parse_alt_spec(s, i + 1) {
            Err(e) => Err(e),
            Ok((a, j)) => if j < s.len() && s[j as int] == ')' {
                Ok((a, j + 1))
            } else {
                Err(ParseError::UnclosedParen)
            },
        }
    } else if s[i as int] == ')' || s[i as int] == '|' || s[i as int] == '*' || s[i as int] == '+'
        || s[i as int] == '?' {
        Err(ParseError::NoOperand)
    } else if s[i as int] == '\\' {
        if i + 1 < s.len() {
            Ok((SpecAst::Char(s[i + 1int]), i + 2))
        } else {
            Err(ParseError::InvalidEscape)
        }
    } else {
        Ok((SpecAst::Char(s[i as int]), i + 1))
    }
}

/// Parses one atom and at most one repetition operator after it.
pub open spec fn parse_rep_spec(s: Seq<char>, i: nat) -> Result<(SpecAst, nat), ParseError>
    decreases s.len() - i, 1int,
{
    match parse_atom_spec(s, i) {
        Err(e) => Err(e),
        Ok((a, j)) => if j < s.len() && s[j as int] == '*' {
            Ok((SpecAst::Star(Box::new(a)), j + 1))
        } else if j < s.len() && s[j as int] == '+' {
            Ok((SpecAst::Plus(Box::new(a)), j + 1))
        } else if j < s.len() && s[j as int] == '?' {
            Ok((SpecAst::Question(Box::new(a)), j + 1))
        } else {
            Ok((a, j))
        },
    }
}

/// Parses a run of repeatable atoms until the end of input, a `|`, or a
/// `)`; an empty run is allowed and yields the empty list.
pub open spec fn parse_concat_spec(s: Seq<char>, i: nat) -> Result<
    (Seq<SpecAst>, nat),
    ParseError,
>
    decreases s.len() - i, 2int,
{
    if i >= s.len() || s[i as int] == '|' || s[i as int] == ')' {
        Ok((Seq::empty(), i))
    } else {
        match parse_rep_spec(s, i) {
            Err(e) => Err(e),
            Ok((a, j)) => {
                let k: nat = if j <= i {
                    i + 1
                } else if j > s.len() {
                    s.len()
                } else {
                    j
                };
                match parse_concat_spec(s, k) {
                    Err(e) => Err(e),
                    Ok((rest, m)) => Ok((seq![a] + rest, m)),
                }
            },
        }
    }
}

/// Parses a `|`-separated alternation of concatenations, nesting to the
/// right, the left operand attempted first.
pub open spec fn parse_alt_spec(s: Seq<char>, i: nat) -> Result<(SpecAst, nat), ParseError>
    decreases s.len() - i, 3int,
{
    match parse_concat_spec(s, i) {
        Err(e) => Err(e),
        Ok((items, j)) => {
            let left = SpecAst::Concat(items);
            if j < s.len() && s[j as int] == '|' {
                let k: nat = if j + 1 > i {
                    j + 1
                } else {
                    i + 1
                };
                if k <= s.len() {
                    match parse_alt_spec(s, k) {
                        Err(e) => Err(e),
                        Ok((right, m)) => Ok((SpecAst::Or(Box::new(left), Box::new(right)), m)),
                    }
                } else {
                    Ok((left, j))
                }
            } else {
                Ok((left, j))
            }
        },
    }
}

/// The tree that the whole pattern parses to, or the first parse error.
pub open spec fn parse_spec(s: Seq<char>) -> Result<SpecAst, ParseError> {
    match parse_alt_spec(s, 0) {
        Err(e) => Err(e),
        Ok((a, j)) => if j == s.len() {
            Ok(a)
        } else {
            Err(ParseError::UnmatchedParen)
        },
    }
}

/// A successful atom ends past where it started and within the input.
pub proof fn lemma_atom_bounds(s: Seq<char>, i: nat)
    requires
        i <= s.len(),
    ensures
        match parse_atom_spec(s, i) {
            Ok((_, j)) => i < j <= s.len(),
            Err(_) => true,
        },
    decreases s.len() - i, 0int,
{
    if i < s.len() && s[i as int] == '(' {
        lemma_alt_bounds(s, i + 1);
    }
}

/// A successful repeatable atom ends past where it started and within
/// the input.
pub proof fn lemma_rep_bounds(s: Seq<char>, i: nat)
    requires
        i <= s.len(),
    ensures
        match parse_rep_spec(s, i) {
            Ok((_, j)) => i < j <= s.len(),
            Err(_) => true,
        },
    decreases s.len() - i, 1int,
{
    lemma_atom_bounds(s, i);
}

/// A successful concatenation ends at or past where it started, within
/// the input.
pub proof fn lemma_concat_bounds(s: Seq<char>, i: nat)
    requires
        i <= s.len(),
    ensures
        match parse_concat_spec(s, i) {
            Ok((_, j)) => i <= j <= s.len(),
            Err(_) => true,
        },
    decreases s.len() - i, 2int,
{
    if i >= s.len() || s[i as int] == '|' || s[i as int] == ')' {
    } else {
        lemma_rep_bounds(s, i);
        if let Ok((_, j)) = parse_rep_spec(s, i) {
            let k: nat = if j <= i {
                i + 1
            } else if j > s.len() {
                s.len()
            } else {
                j
            };
            lemma_concat_bounds(s, k);
        }
    }
}

/// A successful alternation ends at or past where it started, within
/// the input.
pub proof fn lemma_alt_bounds(s: Seq<char>, i: nat)
    requires
        i <= s.len(),
    ensures
        match parse_alt_spec(s, i) {
            Ok((_, j)) => i <= j <= s.len(),
            Err(_) => true,
        },
    decreases s.len() - i, 3int,
{
    lemma_concat_bounds(s, i);
    if let Ok((_, j)) = parse_concat_spec(s, i) {
        if j < s.len() && s[j as int] == '|' {
            let k: nat = if j + 1 > i {
                j + 1
            } else {
                i + 1
            };
            if k <= s.len() {
                lemma_alt_bounds(s, k);
            }
        }
    }
}

/// An exec node result agrees with a spec node result.
pub open spec fn node_result_matches(
    r: Result<(AST, usize), ParseError>,
    m: Result<(SpecAst, nat), ParseError>,
) -> bool {
    match (r, m) {
        (Ok((a, j)), Ok((b, k))) => a@ == b && j == k,
        (Err(e1), Err(e2)) => e1 == e2,
        _ => false,
    }
}

/// An exec list result agrees with a spec list result.
pub open spec fn list_result_matches(
    r: Result<(Vec<AST>, usize), ParseError>,
    m: Result<(Seq<SpecAst>, nat), ParseError>,
) -> bool {
    match (r, m) {
        (Ok((v, j)), Ok((l, k))) => ast_view_list(v@) == l && j == k,
        (Err(e1), Err(e2)) => e1 == e2,
        _ => false,
    }
}

/// Consing an element onto a list conses its model.
proof fn lemma_view_list_cons(x: AST, l: Seq<AST>)
    ensures
        ast_view_list(seq![x] + l) == seq![x@] + ast_view_list(l),
{
    let c = seq![x] + l;
    assert(c.len() == l.len() + 1);
    assert(c[0] == x);
    assert(c.drop_first() =~= l);
}

/// Parses one atom at `i`.
fn parse_atom(s: &Vec<char>, i: usize) -> (r: Result<(AST, usize), ParseError>)
    requires
        i <= s@.len(),
    ensures
        node_result_matches(r, parse_atom_spec(s@, i as nat)),
    decreases s@.len() - i, 0int,
{
    if i >= s.len() {
        return Err(ParseError::NoOperand);
    }
    let c = s[i];
    if c == '(' {
        let (a, j) = match parse_alt(s, i + 1) {
            Ok(p) => p,
            Err(e) => {
                return Err(e);
            },
        };
        proof {
            lemma_alt_bounds(s@, i as nat + 1);
        }
        if j < s.len() && s[j] == ')' {
            return Ok((a, j + 1));
        }
        return Err(ParseError::UnclosedParen);
    }
    if c == ')' || c == '|' || c == '*' || c == '+' || c == '?' {
        return Err(ParseError::NoOperand);
    }
    if c == '\\' {
        if i + 1 < s.len() {
            return Ok((AST::Char(s[i + 1]), i + 2));
        }
        return Err(ParseError::InvalidEscape);
    }
    Ok((AST::Char(c), i + 1))
}

/// Parses one atom and at most one repetition operator after it.
fn parse_rep(s: &Vec<char>, i: usize) -> (r: Result<(AST, usize), ParseError>)
    requires
        i <= s@.len(),
    ensures
        node_result_matches(r, parse_rep_spec(s@, i as nat)),
    decreases s@.len() - i, 1int,
{
    let (a, j) = match parse_atom(s, i) {
        Ok(p) => p,
        Err(e) => {
            return Err(e);
        },
    };
    proof {
        lemma_atom_bounds(s@, i as nat);
    }
    if j < s.len() && s[j] == '*' {
        Ok((AST::Star(Box::new(a)), j + 1))
    } else if j < s.len() && s[j] == '+' {
        Ok((AST::Plus(Box::new(a)), j + 1))
    } else if j < s.len() && s[j] == '?' {
        Ok((AST::Question(Box::new(a)), j + 1))
    } else {
        Ok((a, j))
    }
}

/// Parses a run of repeatable atoms until the end, a `|`, or a `)`.
fn parse_concat(s: &Vec<char>, i: usize) -> (r: Result<(Vec<AST>, usize), ParseError>)
    requires
        i <= s@.len(),
    ensures
        list_result_matches(r, parse_concat_spec(s@, i as nat)),
    decreases s@.len() - i, 2int,
{
    if i >= s.len() || s[i] == '|' || s[i] == ')' {
        let out: Vec<AST> = Vec::new();
        return Ok((out, i));
    }
    let (a, j) = match parse_rep(s, i) {
        Ok(p) => p,
        Err(e) => {
            return Err(e);
        },
    };
    proof {
        lemma_rep_bounds(s@, i as nat);
    }
    let (rest, m) = match parse_concat(s, j) {
        Ok(p) => p,
        Err(e) => {
            return Err(e);
        },
    };
    let ghost a_spec = a@;
    let ghost rest_spec = ast_view_list(rest@);
    let mut out: Vec<AST> = Vec::new();
    out.push(a);
    let mut rest_mut = rest;
    out.append(&mut rest_mut);
    proof {
        assert(out@ =~= seq![out@[0]] + rest@);
        lemma_view_list_cons(out@[0], rest@);
        assert(ast_view_list(out@) =~= seq![a_spec] + rest_spec);
    }
    Ok((out, m))
}

/// Parses a `|`-separated alternation of concatenations.
fn parse_alt(s: &Vec<char>, i: usize) -> (r: Result<(AST, usize), ParseError>)
    requires
        i <= s@.len(),
    ensures
        node_result_matches(r, parse_alt_spec(s@, i as nat)),
    decreases s@.len() - i, 3int,
{
    let (items, j) = match parse_concat(s, i) {
        Ok(p) => p,
        Err(e) => {
            return Err(e);
        },
    };
    proof {
        lemma_concat_bounds(s@, i as nat);
    }
    let left = AST::Concat(items);
    if j < s.len() && s[j] == '|' {
        let (right, m) = match parse_alt(s, j + 1) {
            Ok(p) => p,
            Err(e) => {
                return Err(e);
            },
        };
        Ok((AST::Or(Box::new(left), Box::new(right)), m))
    } else {
        Ok((left, j))
    }
}

/// Parses a whole pattern string into a syntax tree.
///
/// Returns exactly what `parse_spec` yields for the pattern's characters:
/// the tree when the whole input is consumed, and the first parse error
/// otherwise.
pub fn parse(expr: &str) -> (r: Result<AST, ParseError>)
    ensures
        match (r, parse_spec(expr@)) {
            (Ok(a), Ok(b)) => a@ == b,
            (Err(e1), Err(e2)) => e1 == e2,
            _ => false,
        },
{
    let chars = str_chars(expr);
    match parse_alt(&chars, 0) {
        Err(e) => Err(e),
        Ok((a, j)) => if j == chars.len() {
            Ok(a)
        } else {
            Err(ParseError::UnmatchedParen)
        },
    }
}

/// The characters of `s`, in order, as a vector.
pub fn str_chars(s: &str) -> (r: Vec<char>)
    ensures
        r@ == s@,
{
    let n = s.unicode_len();
    let mut r: Vec<char> = Vec::new();
    let mut i: usize = 0;
    while i < n
        invariant
            n == s@.len(),
            i <= n,
            r@ == s@.take(i as int),
        decreases n - i,
    {
        let c = s.get_char(i);
        r.push(c);
        proof {
            assert(r@ =~= s@.take(i + 1));
        }
        i = i + 1;
    }
    proof {
        assert(s@.take(n as int) =~= s@);
    }
    r
}

} // verus!
