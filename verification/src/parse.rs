//! The parser and its expression tree: recursive descent with one token of
//! lookahead over the lexer's stream.
//!
//! The grammar, lowest to highest precedence, each level left-associative
//! except power, which is right-associative:
//!
//! ```text
//! expression := term (('+' | '-') term)*
//! term       := factor (('*' | '/' | '%') factor)*
//! factor     := primary ('^' factor)?
//! primary    := NUMBER | '(' expression ')' | '-' term
//! ```
//!
//! Unary negation takes a term as its operand: it binds more loosely than
//! `^` (so `-5^2` negates the whole power) but does not swallow a following
//! `+` or `-` (so `-5+5` is a sum).
//!
//! Running out of tokens where the grammar demands one is [`CalcErr::Incomplete`],
//! the signal that more input lines may complete the expression; every other
//! failure is [`CalcErr::Lex`] with the character position at which it arose.

use vstd::prelude::*;

use crate::lex;
use crate::lex::{LexStepG, Lexer, TokG, Token, next_token_spec};

verus! {

/// An arithmetic operation of the expression tree; `Neg` is the only unary
/// one.
#[derive(Debug, PartialEq, Eq, Clone, Copy)]
pub enum Operator {
    Add,
    Sub,
    Mul,
    Div,
    Mod,
    Pow,
    Neg,
}

/// The expression tree. Each node owns its children; a leaf holds the
/// characters of its numeric literal.
#[derive(Debug, PartialEq)]
pub enum Expr {
    Unary(Operator, Box<Expr>),
    Binary(Operator, Box<Expr>, Box<Expr>),
    Num(Vec<char>),
}

/// The mathematical model of an [`Expr`].
pub ghost enum ExprG {
    Unary(Operator, Box<ExprG>),
    Binary(Operator, Box<ExprG>, Box<ExprG>),
    Num(Seq<char>),
}

impl View for Expr {
    type V = ExprG;

    open spec fn view(&self) -> ExprG
        decreases self,
    {
        match self {
            Expr::Unary(op, e) => ExprG::Unary(*op, Box::new((**e)@)),
            Expr::Binary(op, l, r) => ExprG::Binary(*op, Box::new((**l)@), Box::new((**r)@)),
            Expr::Num(lit) => ExprG::Num(lit@),
        }
    }
}

/// A well-formed tree, as the parser builds them: `Unary` carries only
/// `Neg`, and `Binary` carries everything but `Neg`.
pub open spec fn wf_expr(e: ExprG) -> bool
    decreases e,
{
    match e {
        ExprG::Num(_) => true,
        ExprG::Unary(op, x) => op == Operator::Neg && wf_expr(*x),
        ExprG::Binary(op, l, r) => op != Operator::Neg && wf_expr(*l) && wf_expr(*r),
    }
}

pub const UNEXPECTED_TOKEN: &'static str = "not expected here";

/// Why an evaluation failed: a lexical or syntactic problem at a character
/// position, or an input that ended before the grammar was satisfied and may
/// be completed by further lines.
#[derive(Debug, PartialEq, Eq)]
pub enum CalcErr {
    Lex(lex::LexErr),
    Incomplete,
}

/// The mathematical model of a [`CalcErr`].
pub ghost enum ErrG {
    Lex(int, Seq<char>),
    Incomplete,
}

impl View for CalcErr {
    type V = ErrG;

    open spec fn view(&self) -> ErrG {
        match self {
            CalcErr::Lex((p, m)) => ErrG::Lex(*p as int, m@),
            CalcErr::Incomplete => ErrG::Incomplete,
        }
    }
}

/// What a grammar rule yields at character position `i`: the parsed tree
/// with the position it stopped at, or an error.
pub type SpParsed = Result<(ExprG, int), ErrG>;

/// The `primary` rule: a number, a parenthesised expression, unary negation
/// of a term, nothing left ([`ErrG::Incomplete`]), or an unusable token.
pub open spec fn sp_primary(s: Seq<char>, i: int) -> SpParsed
    decreases s.len() - i, 1int,
{
    match next_token_spec(s, i) {
        LexStepG::End => Err(ErrG::Incomplete),
        LexStepG::Fail { pos } => Err(ErrG::Lex(pos, "unknown symbol"@)),
        LexStepG::Tok { pos, tok, next } => match tok {
            TokG::Number(lit) => Ok((ExprG::Num(lit), next)),
            TokG::LParen => if i < next <= s.len() {
                sp_paren(s, next)
            } else {
                Err(ErrG::Incomplete)
            },
            TokG::Dash => if i < next <= s.len() {
                match sp_term(s, next) {
                    Ok((e, j)) => Ok((ExprG::Unary(Operator::Neg, Box::new(e)), j)),
                    Err(er) => Err(er),
                }
            } else {
                Err(ErrG::Incomplete)
            },
            _ => Err(ErrG::Lex(pos, "not expected here"@)),
        },
    }
}

/// The rest of a parenthesised expression, after the `(`: a full expression,
/// then the closing `)`; anything else in its place is [`ErrG::Incomplete`],
/// except a lexical failure, which is reported as such.
pub open spec fn sp_paren(s: Seq<char>, i: int) -> SpParsed
    decreases s.len() - i, 5int,
{
    match sp_expr(s, i) {
        Err(er) => Err(er),
        Ok((e, j)) => match next_token_spec(s, j) {
            LexStepG::Tok { pos, tok, next } => if tok is RParen {
                Ok((e, next))
            } else {
                Err(ErrG::Incomplete)
            },
            LexStepG::Fail { pos } => Err(ErrG::Lex(pos, "unknown symbol"@)),
            LexStepG::End => Err(ErrG::Incomplete),
        },
    }
}

/// The `factor` rule: a primary, optionally raised by `^` to a factor, so
/// that chained powers nest to the right.
pub open spec fn sp_factor(s: Seq<char>, i: int) -> SpParsed
    decreases s.len() - i, 2int,
{
    match sp_primary(s, i) {
        Err(er) => Err(er),
        Ok((e, j)) => match next_token_spec(s, j) {
            LexStepG::Tok { pos, tok, next } => if tok is Caret && i < next <= s.len() {
                match sp_factor(s, next) {
                    Ok((e2, k)) => Ok(
                        (ExprG::Binary(Operator::Pow, Box::new(e), Box::new(e2)), k),
                    ),
                    Err(er) => Err(er),
                }
            } else {
                Ok((e, j))
            },
            _ => Ok((e, j)),
        },
    }
}

/// The `term` rule: a factor, followed by any number of `*`, `/` or `%`
/// factors, folded to the left.
pub open spec fn sp_term(s: Seq<char>, i: int) -> SpParsed
    decreases s.len() - i, 3int,
{
    match sp_factor(s, i) {
        Err(er) => Err(er),
        Ok((e, j)) => if i < j <= s.len() {
            sp_term_rest(s, e, j)
        } else {
            Ok((e, j))
        },
    }
}

/// The left fold of `term`: with `acc` parsed so far, each further
/// `*`, `/` or `%` factor becomes a binary node whose left child is the fold
/// of everything before it.
pub open spec fn sp_term_rest(s: Seq<char>, acc: ExprG, i: int) -> SpParsed
    decreases s.len() - i, 6int,
{
    match next_token_spec(s, i) {
        LexStepG::Tok { pos, tok, next } => if (tok is Star || tok is Slash || tok is Percent)
            && i < next <= s.len() {
            let op = if tok is Star {
                Operator::Mul
            } else if tok is Slash {
                Operator::Div
            } else {
                Operator::Mod
            };
            match sp_factor(s, next) {
                Ok((e2, k)) => {
                    let acc2 = ExprG::Binary(op, Box::new(acc), Box::new(e2));
                    if i < k <= s.len() {
                        sp_term_rest(s, acc2, k)
                    } else {
                        Ok((acc2, k))
                    }
                },
                Err(er) => Err(er),
            }
        } else {
            Ok((acc, i))
        },
        _ => Ok((acc, i)),
    }
}

/// The `expression` rule: a term, followed by any number of `+` or `-`
/// terms, folded to the left.
pub open spec fn sp_expr(s: Seq<char>, i: int) -> SpParsed
    decreases s.len() - i, 4int,
{
    match sp_term(s, i) {
        Err(er) => Err(er),
        Ok((e, j)) => if i < j <= s.len() {
            sp_expr_rest(s, e, j)
        } else {
            Ok((e, j))
        },
    }
}

/// The left fold of `expression`: with `acc` parsed so far, each further
/// `+` or `-` term becomes a binary node whose left child is the fold of
/// everything before it.
pub open spec fn sp_expr_rest(s: Seq<char>, acc: ExprG, i: int) -> SpParsed
    decreases s.len() - i, 6int,
{
    match next_token_spec(s, i) {
        LexStepG::Tok { pos, tok, next } => if (tok is Plus || tok is Dash) && i < next <= s.len() {
            let op = if tok is Plus {
                Operator::Add
            } else {
                Operator::Sub
            };
            match sp_term(s, next) {
                Ok((e2, k)) => {
                    let acc2 = ExprG::Binary(op, Box::new(acc), Box::new(e2));
                    if i < k <= s.len() {
                        sp_expr_rest(s, acc2, k)
                    } else {
                        Ok((acc2, k))
                    }
                },
                Err(er) => Err(er),
            }
        } else {
            Ok((acc, i))
        },
        _ => Ok((acc, i)),
    }
}

/// A whole input: one expression, after which the token sequence must be
/// exhausted; a leftover token is `not expected here` at its position, and a
/// leftover lexical failure is reported as such.
pub open spec fn sp_complete(s: Seq<char>, i: int) -> Result<ExprG, ErrG> {
    match sp_expr(s, i) {
        Err(er) => Err(er),
        Ok((e, j)) => match next_token_spec(s, j) {
            LexStepG::End => Ok(e),
            LexStepG::Fail { pos } => Err(ErrG::Lex(pos, "unknown symbol"@)),
            LexStepG::Tok { pos, tok, next } => Err(ErrG::Lex(pos, "not expected here"@)),
        },
    }
}

/// What parsing an input text yields: the expression tree of the grammar
/// above, or the error the text earns. This pins the parser's result as a
/// function of the text alone.
pub open spec fn parse_spec(s: Seq<char>) -> Result<ExprG, ErrG> {
    sp_complete(s, 0)
}

proof fn lemma_sp_primary_bounds(s: Seq<char>, i: int)
    requires
        0 <= i <= s.len(),
    ensures
        match sp_primary(s, i) {
            Ok((e, j)) => i < j <= s.len() && wf_expr(e),
            Err(er) => match er {
                ErrG::Lex(p, _) => 0 <= p < s.len(),
                ErrG::Incomplete => true,
            },
        },
    decreases s.len() - i, 1int,
{
    lex::lemma_next_token_bounds(s, i);
    match next_token_spec(s, i) {
        LexStepG::End => {},
        LexStepG::Fail { pos } => {},
        LexStepG::Tok { pos, tok, next } => match tok {
            TokG::LParen => if i < next <= s.len() {
                lemma_sp_paren_bounds(s, next);
            },
            TokG::Dash => if i < next <= s.len() {
                lemma_sp_term_bounds(s, next);
            },
            _ => {},
        },
    }
}

proof fn lemma_sp_paren_bounds(s: Seq<char>, i: int)
    requires
        0 <= i <= s.len(),
    ensures
        match sp_paren(s, i) {
            Ok((e, j)) => i < j <= s.len() && wf_expr(e),
            Err(er) => match er {
                ErrG::Lex(p, _) => 0 <= p < s.len(),
                ErrG::Incomplete => true,
            },
        },
    decreases s.len() - i, 5int,
{
    lemma_sp_expr_bounds(s, i);
    match sp_expr(s, i) {
        Err(_) => {},
        Ok((e, j)) => {
            lex::lemma_next_token_bounds(s, j);
        },
    }
}

proof fn lemma_sp_factor_bounds(s: Seq<char>, i: int)
    requires
        0 <= i <= s.len(),
    ensures
        match sp_factor(s, i) {
            Ok((e, j)) => i < j <= s.len() && wf_expr(e),
            Err(er) => match er {
                ErrG::Lex(p, _) => 0 <= p < s.len(),
                ErrG::Incomplete => true,
            },
        },
    decreases s.len() - i, 2int,
{
    lemma_sp_primary_bounds(s, i);
    match sp_primary(s, i) {
        Err(_) => {},
        Ok((e, j)) => {
            lex::lemma_next_token_bounds(s, j);
            match next_token_spec(s, j) {
                LexStepG::Tok { pos, tok, next } => if tok is Caret && i < next <= s.len() {
                    lemma_sp_factor_bounds(s, next);
                },
                _ => {},
            }
        },
    }
}

proof fn lemma_sp_term_bounds(s: Seq<char>, i: int)
    requires
        0 <= i <= s.len(),
    ensures
        match sp_term(s, i) {
            Ok((e, j)) => i < j <= s.len() && wf_expr(e),
            Err(er) => match er {
                ErrG::Lex(p, _) => 0 <= p < s.len(),
                ErrG::Incomplete => true,
            },
        },
    decreases s.len() - i, 3int,
{
    lemma_sp_factor_bounds(s, i);
    match sp_factor(s, i) {
        Err(_) => {},
        Ok((e, j)) => if i < j <= s.len() {
            lemma_sp_term_rest_bounds(s, e, j);
        },
    }
}

proof fn lemma_sp_term_rest_bounds(s: Seq<char>, acc: ExprG, i: int)
    requires
        0 <= i <= s.len(),
        wf_expr(acc),
    ensures
        match sp_term_rest(s, acc, i) {
            Ok((e, j)) => i <= j <= s.len() && wf_expr(e),
            Err(er) => match er {
                ErrG::Lex(p, _) => 0 <= p < s.len(),
                ErrG::Incomplete => true,
            },
        },
    decreases s.len() - i, 6int,
{
    lex::lemma_next_token_bounds(s, i);
    match next_token_spec(s, i) {
        LexStepG::Tok { pos, tok, next } => if (tok is Star || tok is Slash || tok is Percent)
            && i < next <= s.len() {
            let op = if tok is Star {
                Operator::Mul
            } else if tok is Slash {
                Operator::Div
            } else {
                Operator::Mod
            };
            lemma_sp_factor_bounds(s, next);
            match sp_factor(s, next) {
                Ok((e2, k)) => {
                    let acc2 = ExprG::Binary(op, Box::new(acc), Box::new(e2));
                    if i < k <= s.len() {
                        lemma_sp_term_rest_bounds(s, acc2, k);
                    }
                },
                Err(_) => {},
            }
        },
        _ => {},
    }
}

proof fn lemma_sp_expr_bounds(s: Seq<char>, i: int)
    requires
        0 <= i <= s.len(),
    ensures
        match sp_expr(s, i) {
            Ok((e, j)) => i < j <= s.len() && wf_expr(e),
            Err(er) => match er {
                ErrG::Lex(p, _) => 0 <= p < s.len(),
                ErrG::Incomplete => true,
            },
        },
    decreases s.len() - i, 4int,
{
    lemma_sp_term_bounds(s, i);
    match sp_term(s, i) {
        Err(_) => {},
        Ok((e, j)) => if i < j <= s.len() {
            lemma_sp_expr_rest_bounds(s, e, j);
        },
    }
}

proof fn lemma_sp_expr_rest_bounds(s: Seq<char>, acc: ExprG, i: int)
    requires
        0 <= i <= s.len(),
        wf_expr(acc),
    ensures
        match sp_expr_rest(s, acc, i) {
            Ok((e, j)) => i <= j <= s.len() && wf_expr(e),
            Err(er) => match er {
                ErrG::Lex(p, _) => 0 <= p < s.len(),
                ErrG::Incomplete => true,
            },
        },
    decreases s.len() - i, 6int,
{
    lex::lemma_next_token_bounds(s, i);
    match next_token_spec(s, i) {
        LexStepG::Tok { pos, tok, next } => if (tok is Plus || tok is Dash) && i < next
            <= s.len() {
            let op = if tok is Plus {
                Operator::Add
            } else {
                Operator::Sub
            };
            lemma_sp_term_bounds(s, next);
            match sp_term(s, next) {
                Ok((e2, k)) => {
                    let acc2 = ExprG::Binary(op, Box::new(acc), Box::new(e2));
                    if i < k <= s.len() {
                        lemma_sp_expr_rest_bounds(s, acc2, k);
                    }
                },
                Err(_) => {},
            }
        },
        _ => {},
    }
}

/// Every failure other than `Incomplete` carries a 0-based character offset
/// that lies inside the input text, so a caret can be aligned under it in
/// the original, unmodified input.
pub proof fn lemma_error_offset_in_input(s: Seq<char>)
    ensures
        match parse_spec(s) {
            Ok(_) => true,
            Err(er) => match er {
                ErrG::Lex(p, _) => 0 <= p < s.len(),
                ErrG::Incomplete => true,
            },
        },
{
    lemma_sp_expr_bounds(s, 0);
    match sp_expr(s, 0) {
        Err(_) => {},
        Ok((e, j)) => {
            lex::lemma_next_token_bounds(s, j);
        },
    }
}

/// A tree the parser yields is well-formed: negation is the only unary
/// node, and no binary node carries it.
pub proof fn lemma_parse_tree_wf(s: Seq<char>)
    ensures
        match parse_spec(s) {
            Ok(e) => wf_expr(e),
            Err(_) => true,
        },
{
    lemma_sp_expr_bounds(s, 0);
}

/// An input of whitespace alone (the empty input included) holds no tokens,
/// so the parser asks for more input rather than failing.
pub proof fn lemma_ws_only_is_incomplete(s: Seq<char>)
    requires
        forall|k: int| 0 <= k < s.len() ==> lex::is_ws_char(s[k]),
    ensures
        parse_spec(s) == Err::<ExprG, ErrG>(ErrG::Incomplete),
{
    lex::lemma_ws_only_end(s, 0);
    assert(sp_primary(s, 0) == Err::<(ExprG, int), ErrG>(ErrG::Incomplete));
    assert(sp_factor(s, 0) == Err::<(ExprG, int), ErrG>(ErrG::Incomplete));
    assert(sp_term(s, 0) == Err::<(ExprG, int), ErrG>(ErrG::Incomplete));
    assert(sp_expr(s, 0) == Err::<(ExprG, int), ErrG>(ErrG::Incomplete));
}

fn parse_primary(input: &mut Lexer) -> (r: Result<Expr, CalcErr>)
    requires
        old(input).wf(),
    ensures
        final(input).wf(),
        final(input)@.text == old(input)@.text,
        old(input)@.pos <= final(input)@.pos,
        match sp_primary(old(input)@.text, old(input)@.pos) {
            Ok((e, j)) => match r {
                Ok(ex) => ex@ == e && final(input)@.pos == j && old(input)@.pos < j,
                Err(_) => false,
            },
            Err(er) => match r {
                Err(c) => c@ == er,
                Ok(_) => false,
            },
        },
    decreases old(input)@.text.len() - old(input)@.pos, 1int,
{
    match input.next() {
        None => Err(CalcErr::Incomplete),
        Some(Err(e)) => Err(CalcErr::Lex(e)),
        Some(Ok((pos, tok))) => match tok {
            Token::Number(lit) => Ok(Expr::Num(lit)),
            Token::LParen => parse_parenthesised(input),
            Token::Dash => match parse_term(input) {
                Ok(e) => Ok(Expr::Unary(Operator::Neg, Box::new(e))),
                Err(er) => Err(er),
            },
            _ => Err(CalcErr::Lex((pos, UNEXPECTED_TOKEN))),
        },
    }
}

fn parse_parenthesised(input: &mut Lexer) -> (r: Result<Expr, CalcErr>)
    requires
        old(input).wf(),
    ensures
        final(input).wf(),
        final(input)@.text == old(input)@.text,
        old(input)@.pos <= final(input)@.pos,
        match sp_paren(old(input)@.text, old(input)@.pos) {
            Ok((e, j)) => match r {
                Ok(ex) => ex@ == e && final(input)@.pos == j,
                Err(_) => false,
            },
            Err(er) => match r {
                Err(c) => c@ == er,
                Ok(_) => false,
            },
        },
    decreases old(input)@.text.len() - old(input)@.pos, 5int,
{
    let e = match parse_expr(input) {
        Ok(e) => e,
        Err(er) => {
            return Err(er);
        },
    };
    match input.next() {
        Some(Ok((_p, Token::RParen))) => Ok(e),
        Some(Err(er)) => Err(CalcErr::Lex(er)),
        _ => Err(CalcErr::Incomplete),
    }
}

fn parse_factor(input: &mut Lexer) -> (r: Result<Expr, CalcErr>)
    requires
        old(input).wf(),
    ensures
        final(input).wf(),
        final(input)@.text == old(input)@.text,
        old(input)@.pos <= final(input)@.pos,
        match sp_factor(old(input)@.text, old(input)@.pos) {
            Ok((e, j)) => match r {
                Ok(ex) => ex@ == e && final(input)@.pos == j && old(input)@.pos < j,
                Err(_) => false,
            },
            Err(er) => match r {
                Err(c) => c@ == er,
                Ok(_) => false,
            },
        },
    decreases old(input)@.text.len() - old(input)@.pos, 2int,
{
    let e = match parse_primary(input) {
        Ok(e) => e,
        Err(er) => {
            return Err(er);
        },
    };
    match input.peek() {
        Some(Ok((_p, Token::Caret))) => {
            let _ = input.next();
            match parse_factor(input) {
                Ok(e2) => Ok(Expr::Binary(Operator::Pow, Box::new(e), Box::new(e2))),
                Err(er) => Err(er),
            }
        },
        _ => Ok(e),
    }
}

fn parse_term(input: &mut Lexer) -> (r: Result<Expr, CalcErr>)
    requires
        old(input).wf(),
    ensures
        final(input).wf(),
        final(input)@.text == old(input)@.text,
        old(input)@.pos <= final(input)@.pos,
        match sp_term(old(input)@.text, old(input)@.pos) {
            Ok((e, j)) => match r {
                Ok(ex) => ex@ == e && final(input)@.pos == j && old(input)@.pos < j,
                Err(_) => false,
            },
            Err(er) => match r {
                Err(c) => c@ == er,
                Ok(_) => false,
            },
        },
    decreases old(input)@.text.len() - old(input)@.pos, 3int,
{
    let e = match parse_factor(input) {
        Ok(e) => e,
        Err(er) => {
            return Err(er);
        },
    };
    parse_term_rest(input, e)
}

fn parse_term_rest(input: &mut Lexer, acc: Expr) -> (r: Result<Expr, CalcErr>)
    requires
        old(input).wf(),
    ensures
        final(input).wf(),
        final(input)@.text == old(input)@.text,
        old(input)@.pos <= final(input)@.pos,
        match sp_term_rest(old(input)@.text, acc@, old(input)@.pos) {
            Ok((e, j)) => match r {
                Ok(ex) => ex@ == e && final(input)@.pos == j,
                Err(_) => false,
            },
            Err(er) => match r {
                Err(c) => c@ == er,
                Ok(_) => false,
            },
        },
    decreases old(input)@.text.len() - old(input)@.pos, 6int,
{
    let op = match input.peek() {
        Some(Ok((_p, Token::Star))) => Operator::Mul,
        Some(Ok((_p, Token::Slash))) => Operator::Div,
        Some(Ok((_p, Token::Percent))) => Operator::Mod,
        _ => {
            return Ok(acc);
        },
    };
    let _ = input.next();
    let e2 = match parse_factor(input) {
        Ok(e) => e,
        Err(er) => {
            return Err(er);
        },
    };
    let acc2 = Expr::Binary(op, Box::new(acc), Box::new(e2));
    parse_term_rest(input, acc2)
}

fn parse_expr(input: &mut Lexer) -> (r: Result<Expr, CalcErr>)
    requires
        old(input).wf(),
    ensures
        final(input).wf(),
        final(input)@.text == old(input)@.text,
        old(input)@.pos <= final(input)@.pos,
        match sp_expr(old(input)@.text, old(input)@.pos) {
            Ok((e, j)) => match r {
                Ok(ex) => ex@ == e && final(input)@.pos == j && old(input)@.pos < j,
                Err(_) => false,
            },
            Err(er) => match r {
                Err(c) => c@ == er,
                Ok(_) => false,
            },
        },
    decreases old(input)@.text.len() - old(input)@.pos, 4int,
{
    let e = match parse_term(input) {
        Ok(e) => e,
        Err(er) => {
            return Err(er);
        },
    };
    parse_expr_rest(input, e)
}

fn parse_expr_rest(input: &mut Lexer, acc: Expr) -> (r: Result<Expr, CalcErr>)
    requires
        old(input).wf(),
    ensures
        final(input).wf(),
        final(input)@.text == old(input)@.text,
        old(input)@.pos <= final(input)@.pos,
        match sp_expr_rest(old(input)@.text, acc@, old(input)@.pos) {
            Ok((e, j)) => match r {
                Ok(ex) => ex@ == e && final(input)@.pos == j,
                Err(_) => false,
            },
            Err(er) => match r {
                Err(c) => c@ == er,
                Ok(_) => false,
            },
        },
    decreases old(input)@.text.len() - old(input)@.pos, 6int,
{
    let op = match input.peek() {
        Some(Ok((_p, Token::Plus))) => Operator::Add,
        Some(Ok((_p, Token::Dash))) => Operator::Sub,
        _ => {
            return Ok(acc);
        },
    };
    let _ = input.next();
    let e2 = match parse_term(input) {
        Ok(e) => e,
        Err(er) => {
            return Err(er);
        },
    };
    let acc2 = Expr::Binary(op, Box::new(acc), Box::new(e2));
    parse_expr_rest(input, acc2)
}

fn parse_complete_expr(input: &mut Lexer) -> (r: Result<Expr, CalcErr>)
    requires
        old(input).wf(),
    ensures
        match sp_complete(old(input)@.text, old(input)@.pos) {
            Ok(e) => match r {
                Ok(ex) => ex@ == e,
                Err(_) => false,
            },
            Err(er) => match r {
                Err(c) => c@ == er,
                Ok(_) => false,
            },
        },
{
    let e = match parse_expr(input) {
        Ok(e) => e,
        Err(er) => {
            return Err(er);
        },
    };
    match input.next() {
        None => Ok(e),
        Some(Err(er)) => Err(CalcErr::Lex(er)),
        Some(Ok((pos, _t))) => Err(CalcErr::Lex((pos, UNEXPECTED_TOKEN))),
    }
}

/// Parses one complete expression from `input` and returns its tree, or the
/// error the text earns: [`parse_spec`] says which, for every input. Two
/// calls on equal texts therefore return equal results. The tree is
/// well-formed, and every error but `Incomplete` points inside the input.
pub fn parse(input: &str) -> (r: Result<Expr, CalcErr>)
    ensures
        match parse_spec(input@) {
            Ok(e) => match r {
                Ok(ex) => ex@ == e,
                Err(_) => false,
            },
            Err(er) => match r {
                Err(c) => c@ == er,
                Ok(_) => false,
            },
        },
        match r {
            Ok(ex) => wf_expr(ex@),
            Err(c) => match c@ {
                ErrG::Lex(p, _) => 0 <= p < input@.len(),
                ErrG::Incomplete => true,
            },
        },
{
    proof {
        lemma_parse_tree_wf(input@);
        lemma_error_offset_in_input(input@);
    }
    let mut lexer = Lexer::new(input);
    parse_complete_expr(&mut lexer)
}

} // verus!
