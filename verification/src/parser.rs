//! The parser: positioned tokens to an untyped syntax tree, by recursive
//! descent with the usual C precedence. Every function consumes tokens from
//! the current position; the first mismatch stops parsing with a
//! `ParseError` holding the offending position, what was expected, and
//! what stood there.
//!
//! This file also defines the expression grammar as a parse function
//! over the token stream: `spec_munch_expr` and its companions compute,
//! over `SpecExpr` models, the tree and end position each production
//! yields, or the exact error it reports. Every executable expression
//! function is proved to return exactly what its model computes, on
//! success and on failure. The statement and top-level functions state
//! the cursor discipline — the token stream is never changed, the
//! cursor never passes the end, success consumes at least one token, a
//! whole-program parse consumes every token — the exact error values
//! (`spec_err`), and the exact token spelling of types and declarators;
//! the trees they produce are fixed by the expression model below them
//! and exercised by the tests.
use vstd::prelude::*;

use crate::errors::ExpectedItem;
use crate::errors::ParseError;
use crate::expr::Expr;
use crate::token::PositionedToken;
use crate::token::SpecToken;
use crate::token::Token;
use crate::top_level::TopLevel;
use crate::types::Type;
use crate::statement::Statement;

verus! {

/// The type `k` asterisks after `int` denote: a `k`-deep pointer to `int`.
pub open spec fn pointer_depth_type(k: nat) -> Type
    decreases k,
{
    if k == 0 {
        Type::IntTyp
    } else {
        Type::Pointer(Box::new(pointer_depth_type((k - 1) as nat)))
    }
}

/// The mathematical model of an expression: identifiers carry their
/// character sequences, argument lists are sequences.
pub enum SpecExpr {
    Add(Box<SpecExpr>, Box<SpecExpr>),
    Sub(Box<SpecExpr>, Box<SpecExpr>),
    Mul(Box<SpecExpr>, Box<SpecExpr>),
    Div(Box<SpecExpr>, Box<SpecExpr>),
    Num(int),
    LessThan(Box<SpecExpr>, Box<SpecExpr>),
    LessEqual(Box<SpecExpr>, Box<SpecExpr>),
    Equal(Box<SpecExpr>, Box<SpecExpr>),
    NotEqual(Box<SpecExpr>, Box<SpecExpr>),
    GreaterThan(Box<SpecExpr>, Box<SpecExpr>),
    GreaterEqual(Box<SpecExpr>, Box<SpecExpr>),
    Assign(Box<SpecExpr>, Box<SpecExpr>),
    Variable(Seq<char>),
    FunctionCall(Seq<char>, Seq<SpecExpr>),
    Address(Box<SpecExpr>),
    Dereference(Box<SpecExpr>),
    Sizeof(Box<SpecExpr>),
}

/// The model of an expression tree.
pub open spec fn expr_view(e: Expr) -> SpecExpr
    decreases e,
{
    match e {
        Expr::Add(l, r) => SpecExpr::Add(Box::new(expr_view(*l)), Box::new(expr_view(*r))),
        Expr::Sub(l, r) => SpecExpr::Sub(Box::new(expr_view(*l)), Box::new(expr_view(*r))),
        Expr::Mul(l, r) => SpecExpr::Mul(Box::new(expr_view(*l)), Box::new(expr_view(*r))),
        Expr::Div(l, r) => SpecExpr::Div(Box::new(expr_view(*l)), Box::new(expr_view(*r))),
        Expr::Num(n) => SpecExpr::Num(n as int),
        Expr::LessThan(l, r) => SpecExpr::LessThan(
            Box::new(expr_view(*l)),
            Box::new(expr_view(*r)),
        ),
        Expr::LessEqual(l, r) => SpecExpr::LessEqual(
            Box::new(expr_view(*l)),
            Box::new(expr_view(*r)),
        ),
        Expr::Equal(l, r) => SpecExpr::Equal(Box::new(expr_view(*l)), Box::new(expr_view(*r))),
        Expr::NotEqual(l, r) => SpecExpr::NotEqual(
            Box::new(expr_view(*l)),
            Box::new(expr_view(*r)),
        ),
        Expr::GreaterThan(l, r) => SpecExpr::GreaterThan(
            Box::new(expr_view(*l)),
            Box::new(expr_view(*r)),
        ),
        Expr::GreaterEqual(l, r) => SpecExpr::GreaterEqual(
            Box::new(expr_view(*l)),
            Box::new(expr_view(*r)),
        ),
        Expr::Assign(l, r) => SpecExpr::Assign(Box::new(expr_view(*l)), Box::new(expr_view(*r))),
        Expr::Variable(name) => SpecExpr::Variable(name@),
        Expr::FunctionCall(name, args) => SpecExpr::FunctionCall(name@, exprs_view(args@)),
        Expr::Address(x) => SpecExpr::Address(Box::new(expr_view(*x))),
        Expr::Dereference(x) => SpecExpr::Dereference(Box::new(expr_view(*x))),
        Expr::Sizeof(x) => SpecExpr::Sizeof(Box::new(expr_view(*x))),
    }
}

/// The models of an expression sequence, element by element.
pub open spec fn exprs_view(s: Seq<Expr>) -> Seq<SpecExpr>
    decreases s,
{
    if s.len() == 0 {
        Seq::empty()
    } else {
        exprs_view(s.drop_last()).push(expr_view(s.last()))
    }
}


/// The error the parser reports at `pos`: the position and token that
/// stood there (the last token's position when the input ended early).
pub open spec fn spec_err(
    toks: Seq<PositionedToken>,
    pos: int,
    expected: ExpectedItem,
) -> ParseError {
    ParseError {
        pos: if 0 <= pos < toks.len() {
            toks[pos].1.0
        } else if toks.len() > 0 {
            toks[toks.len() - 1].1.0
        } else {
            0
        },
        expected,
        got: if 0 <= pos < toks.len() {
            Some(toks[pos].0)
        } else {
            None
        },
    }
}


/// What an expression parse yields from `pos`: the tree's model and the
/// cursor past it, or the error reported.
pub open spec fn spec_munch_expr(t: Seq<PositionedToken>, p: int) -> Result<
    (SpecExpr, int),
    ParseError,
>
    decreases t.len() - p, 11int,
{
    spec_munch_assign(t, p)
}

/// `assign := equality ( "=" assign )?`, folding to the right.
pub open spec fn spec_munch_assign(t: Seq<PositionedToken>, p: int) -> Result<
    (SpecExpr, int),
    ParseError,
>
    decreases t.len() - p, 10int,
{
    match spec_munch_equality(t, p) {
        Err(e) => Err(e),
        Ok(pr) => {
            if pr.1 < t.len() && t[pr.1].0 is Assign && p < pr.1 + 1 && pr.1 + 1 <= t.len() {
                match spec_munch_assign(t, pr.1 + 1) {
                    Err(e) => Err(e),
                    Ok(pr2) => Ok(
                        (SpecExpr::Assign(Box::new(pr.0), Box::new(pr2.0)), pr2.1),
                    ),
                }
            } else {
                Ok(pr)
            }
        },
    }
}

/// `equality := relational ( ("==" | "!=") relational )*`
pub open spec fn spec_munch_equality(t: Seq<PositionedToken>, p: int) -> Result<
    (SpecExpr, int),
    ParseError,
>
    decreases t.len() - p, 9int,
{
    match spec_munch_relational(t, p) {
        Err(e) => Err(e),
        Ok(pr) => {
            if p < pr.1 && pr.1 <= t.len() {
                spec_eq_tail(t, pr.1, pr.0)
            } else {
                Err(spec_err(t, p, ExpectedItem::Primary))
            }
        },
    }
}

/// The fold of further `==`/`!=` operands onto `acc`.
pub open spec fn spec_eq_tail(t: Seq<PositionedToken>, p: int, acc: SpecExpr) -> Result<
    (SpecExpr, int),
    ParseError,
>
    decreases t.len() - p, 2int,
{
    if 0 <= p < t.len() && (t[p].0 is Equality || t[p].0 is Inequality) {
        match spec_munch_relational(t, p + 1) {
            Err(e) => Err(e),
            Ok(pr) => {
                let joined = if t[p].0 is Equality {
                    SpecExpr::Equal(Box::new(acc), Box::new(pr.0))
                } else {
                    SpecExpr::NotEqual(Box::new(acc), Box::new(pr.0))
                };
                if p < pr.1 && pr.1 <= t.len() {
                    spec_eq_tail(t, pr.1, joined)
                } else {
                    Err(spec_err(t, p, ExpectedItem::Primary))
                }
            },
        }
    } else {
        Ok((acc, p))
    }
}

/// `relational := add ( ("<" | "<=" | ">" | ">=") add )*`
pub open spec fn spec_munch_relational(t: Seq<PositionedToken>, p: int) -> Result<
    (SpecExpr, int),
    ParseError,
>
    decreases t.len() - p, 8int,
{
    match spec_munch_add(t, p) {
        Err(e) => Err(e),
        Ok(pr) => {
            if p < pr.1 && pr.1 <= t.len() {
                spec_rel_tail(t, pr.1, pr.0)
            } else {
                Err(spec_err(t, p, ExpectedItem::Primary))
            }
        },
    }
}

/// The fold of further comparison operands onto `acc`.
pub open spec fn spec_rel_tail(t: Seq<PositionedToken>, p: int, acc: SpecExpr) -> Result<
    (SpecExpr, int),
    ParseError,
>
    decreases t.len() - p, 2int,
{
    if 0 <= p < t.len() && (t[p].0 is LessThan || t[p].0 is LessThanOrEqual || t[p].0
        is GreaterThan || t[p].0 is GreaterThanOrEqual) {
        match spec_munch_add(t, p + 1) {
            Err(e) => Err(e),
            Ok(pr) => {
                let joined = if t[p].0 is LessThan {
                    SpecExpr::LessThan(Box::new(acc), Box::new(pr.0))
                } else if t[p].0 is LessThanOrEqual {
                    SpecExpr::LessEqual(Box::new(acc), Box::new(pr.0))
                } else if t[p].0 is GreaterThan {
                    SpecExpr::GreaterThan(Box::new(acc), Box::new(pr.0))
                } else {
                    SpecExpr::GreaterEqual(Box::new(acc), Box::new(pr.0))
                };
                if p < pr.1 && pr.1 <= t.len() {
                    spec_rel_tail(t, pr.1, joined)
                } else {
                    Err(spec_err(t, p, ExpectedItem::Primary))
                }
            },
        }
    } else {
        Ok((acc, p))
    }
}

/// `add := mul ( ("+" | "-") mul )*`
pub open spec fn spec_munch_add(t: Seq<PositionedToken>, p: int) -> Result<
    (SpecExpr, int),
    ParseError,
>
    decreases t.len() - p, 7int,
{
    match spec_munch_mul(t, p) {
        Err(e) => Err(e),
        Ok(pr) => {
            if p < pr.1 && pr.1 <= t.len() {
                spec_add_tail(t, pr.1, pr.0)
            } else {
                Err(spec_err(t, p, ExpectedItem::Primary))
            }
        },
    }
}

/// The fold of further `+`/`-` operands onto `acc`.
pub open spec fn spec_add_tail(t: Seq<PositionedToken>, p: int, acc: SpecExpr) -> Result<
    (SpecExpr, int),
    ParseError,
>
    decreases t.len() - p, 2int,
{
    if 0 <= p < t.len() && (t[p].0 is Plus || t[p].0 is Minus) {
        match spec_munch_mul(t, p + 1) {
            Err(e) => Err(e),
            Ok(pr) => {
                let joined = if t[p].0 is Plus {
                    SpecExpr::Add(Box::new(acc), Box::new(pr.0))
                } else {
                    SpecExpr::Sub(Box::new(acc), Box::new(pr.0))
                };
                if p < pr.1 && pr.1 <= t.len() {
                    spec_add_tail(t, pr.1, joined)
                } else {
                    Err(spec_err(t, p, ExpectedItem::Primary))
                }
            },
        }
    } else {
        Ok((acc, p))
    }
}

/// `mul := unary ( ("*" | "/") unary )*`
pub open spec fn spec_munch_mul(t: Seq<PositionedToken>, p: int) -> Result<
    (SpecExpr, int),
    ParseError,
>
    decreases t.len() - p, 6int,
{
    match spec_munch_unary(t, p) {
        Err(e) => Err(e),
        Ok(pr) => {
            if p < pr.1 && pr.1 <= t.len() {
                spec_mul_tail(t, pr.1, pr.0)
            } else {
                Err(spec_err(t, p, ExpectedItem::Primary))
            }
        },
    }
}

/// The fold of further `*`/`/` operands onto `acc`.
pub open spec fn spec_mul_tail(t: Seq<PositionedToken>, p: int, acc: SpecExpr) -> Result<
    (SpecExpr, int),
    ParseError,
>
    decreases t.len() - p, 2int,
{
    if 0 <= p < t.len() && (t[p].0 is Asterisk || t[p].0 is Slash) {
        match spec_munch_unary(t, p + 1) {
            Err(e) => Err(e),
            Ok(pr) => {
                let joined = if t[p].0 is Asterisk {
                    SpecExpr::Mul(Box::new(acc), Box::new(pr.0))
                } else {
                    SpecExpr::Div(Box::new(acc), Box::new(pr.0))
                };
                if p < pr.1 && pr.1 <= t.len() {
                    spec_mul_tail(t, pr.1, joined)
                } else {
                    Err(spec_err(t, p, ExpectedItem::Primary))
                }
            },
        }
    } else {
        Ok((acc, p))
    }
}

/// `unary := ("+" | "-" | "&" | "*") array_access | array_access`;
/// `-x` becomes `0 - x`.
pub open spec fn spec_munch_unary(t: Seq<PositionedToken>, p: int) -> Result<
    (SpecExpr, int),
    ParseError,
>
    decreases t.len() - p, 5int,
{
    if 0 <= p < t.len() && (t[p].0 is Plus || t[p].0 is Minus || t[p].0 is Ampersand || t[p].0
        is Asterisk) {
        match spec_munch_array_access(t, p + 1) {
            Err(e) => Err(e),
            Ok(pr) => {
                if t[p].0 is Plus {
                    Ok(pr)
                } else if t[p].0 is Minus {
                    Ok(
                        (
                            SpecExpr::Sub(Box::new(SpecExpr::Num(0)), Box::new(pr.0)),
                            pr.1,
                        ),
                    )
                } else if t[p].0 is Ampersand {
                    Ok((SpecExpr::Address(Box::new(pr.0)), pr.1))
                } else {
                    Ok((SpecExpr::Dereference(Box::new(pr.0)), pr.1))
                }
            },
        }
    } else {
        spec_munch_array_access(t, p)
    }
}

/// `array_access := primary ( "[" expr "]" )*`; `a[i]` becomes `*(a + i)`.
pub open spec fn spec_munch_array_access(t: Seq<PositionedToken>, p: int) -> Result<
    (SpecExpr, int),
    ParseError,
>
    decreases t.len() - p, 4int,
{
    match spec_munch_primary(t, p) {
        Err(e) => Err(e),
        Ok(pr) => {
            if p < pr.1 && pr.1 <= t.len() {
                spec_array_tail(t, pr.1, pr.0)
            } else {
                Err(spec_err(t, p, ExpectedItem::Primary))
            }
        },
    }
}

/// The fold of further `[ expr ]` subscripts onto `acc`.
pub open spec fn spec_array_tail(t: Seq<PositionedToken>, p: int, acc: SpecExpr) -> Result<
    (SpecExpr, int),
    ParseError,
>
    decreases t.len() - p, 2int,
{
    if 0 <= p < t.len() && t[p].0 is LBracket {
        match spec_munch_expr(t, p + 1) {
            Err(e) => Err(e),
            Ok(pr) => {
                if pr.1 < t.len() && t[pr.1].0 is RBracket {
                    let joined = SpecExpr::Dereference(
                        Box::new(SpecExpr::Add(Box::new(acc), Box::new(pr.0))),
                    );
                    if p < pr.1 + 1 && pr.1 + 1 <= t.len() {
                        spec_array_tail(t, pr.1 + 1, joined)
                    } else {
                        Err(spec_err(t, p, ExpectedItem::Primary))
                    }
                } else {
                    Err(spec_err(t, pr.1, ExpectedItem::Tok(Token::RBracket)))
                }
            },
        }
    } else {
        Ok((acc, p))
    }
}

/// `primary := NUM | "sizeof" "(" expr ")" | identifier "(" args ")" |
/// identifier | "(" expr ")"`
pub open spec fn spec_munch_primary(t: Seq<PositionedToken>, p: int) -> Result<
    (SpecExpr, int),
    ParseError,
>
    decreases t.len() - p, 3int,
{
    if !(0 <= p < t.len()) {
        Err(spec_err(t, p, ExpectedItem::Primary))
    } else {
        match t[p].0 {
            Token::Num(n) => Ok((SpecExpr::Num(n as int), p + 1)),
            Token::Identifier(name) => {
                if p + 1 < t.len() && t[p + 1].0 is LParen {
                    match spec_call_args(t, p + 2, Seq::empty()) {
                        Err(e) => Err(e),
                        Ok(pr) => Ok((SpecExpr::FunctionCall(name@, pr.0), pr.1)),
                    }
                } else {
                    Ok((SpecExpr::Variable(name@), p + 1))
                }
            },
            Token::Sizeof => {
                if p + 1 < t.len() && t[p + 1].0 is LParen {
                    match spec_munch_expr(t, p + 2) {
                        Err(e) => Err(e),
                        Ok(pr) => {
                            if pr.1 < t.len() && t[pr.1].0 is RParen {
                                Ok((SpecExpr::Sizeof(Box::new(pr.0)), pr.1 + 1))
                            } else {
                                Err(spec_err(t, pr.1, ExpectedItem::Tok(Token::RParen)))
                            }
                        },
                    }
                } else {
                    Err(spec_err(t, p, ExpectedItem::Primary))
                }
            },
            Token::LParen => match spec_munch_expr(t, p + 1) {
                Err(e) => Err(e),
                Ok(pr) => {
                    if pr.1 < t.len() && t[pr.1].0 is RParen {
                        Ok((pr.0, pr.1 + 1))
                    } else {
                        Err(spec_err(t, pr.1, ExpectedItem::Tok(Token::RParen)))
                    }
                },
            },
            _ => Err(spec_err(t, p, ExpectedItem::Primary)),
        }
    }
}

/// The fold of call arguments onto `acc`, up to and past the closing
/// parenthesis.
pub open spec fn spec_call_args(t: Seq<PositionedToken>, p: int, acc: Seq<SpecExpr>) -> Result<
    (Seq<SpecExpr>, int),
    ParseError,
>
    decreases t.len() - p, 12int,
{
    if !(0 <= p <= t.len()) {
        Err(spec_err(t, p, ExpectedItem::ArgumentSeparator))
    } else if p < t.len() && t[p].0 is RParen {
        Ok((acc, p + 1))
    } else {
        match spec_munch_expr(t, p) {
            Err(e) => Err(e),
            Ok(pr) => {
                if pr.1 < t.len() && t[pr.1].0 is Comma {
                    if p < pr.1 + 1 && pr.1 + 1 <= t.len() {
                        spec_call_args(t, pr.1 + 1, acc.push(pr.0))
                    } else {
                        Err(spec_err(t, p, ExpectedItem::ArgumentSeparator))
                    }
                } else if pr.1 < t.len() && t[pr.1].0 is RParen {
                    Ok((acc.push(pr.0), pr.1 + 1))
                } else {
                    Err(spec_err(t, pr.1, ExpectedItem::ArgumentSeparator))
                }
            },
        }
    }
}



proof fn lemma_exprs_view_push(s: Seq<Expr>, x: Expr)
    ensures
        exprs_view(s.push(x)) == exprs_view(s).push(expr_view(x)),
{
    assert(s.push(x).drop_last() =~= s);
    assert(s.push(x).last() == x);
}

proof fn lemma_view_subscript(a: Expr, b: Expr)
    ensures
        expr_view(Expr::Dereference(Box::new(Expr::Add(Box::new(a), Box::new(b)))))
            == SpecExpr::Dereference(
            Box::new(SpecExpr::Add(Box::new(expr_view(a)), Box::new(expr_view(b)))),
        ),
{
    assert(expr_view(Expr::Add(Box::new(a), Box::new(b))) == SpecExpr::Add(
        Box::new(expr_view(a)),
        Box::new(expr_view(b)),
    ));
}

proof fn lemma_view_negate(x: Expr)
    ensures
        expr_view(Expr::Sub(Box::new(Expr::Num(0)), Box::new(x))) == SpecExpr::Sub(
            Box::new(SpecExpr::Num(0)),
            Box::new(expr_view(x)),
        ),
{
    assert(expr_view(Expr::Num(0)) == SpecExpr::Num(0));
}

proof fn lemma_unary_ok(t: Seq<PositionedToken>, p: int, v: SpecExpr, p2: int)
    requires
        0 <= p < t.len(),
        t[p].0 is Plus || t[p].0 is Minus || t[p].0 is Ampersand || t[p].0 is Asterisk,
        spec_munch_array_access(t, p + 1) == Ok::<_, ParseError>((v, p2)),
    ensures
        t[p].0 is Plus ==> spec_munch_unary(t, p) == Ok::<_, ParseError>((v, p2)),
        t[p].0 is Minus ==> spec_munch_unary(t, p) == Ok::<_, ParseError>(
            (SpecExpr::Sub(Box::new(SpecExpr::Num(0)), Box::new(v)), p2),
        ),
        t[p].0 is Ampersand ==> spec_munch_unary(t, p) == Ok::<_, ParseError>(
            (SpecExpr::Address(Box::new(v)), p2),
        ),
        t[p].0 is Asterisk ==> spec_munch_unary(t, p) == Ok::<_, ParseError>(
            (SpecExpr::Dereference(Box::new(v)), p2),
        ),
{
}

proof fn lemma_unary_err(t: Seq<PositionedToken>, p: int, e: ParseError)
    requires
        0 <= p < t.len(),
        t[p].0 is Plus || t[p].0 is Minus || t[p].0 is Ampersand || t[p].0 is Asterisk,
        spec_munch_array_access(t, p + 1) == Err::<(SpecExpr, int), _>(e),
    ensures
        spec_munch_unary(t, p) == Err::<(SpecExpr, int), _>(e),
{
}

proof fn lemma_unary_pass(t: Seq<PositionedToken>, p: int)
    requires
        !(0 <= p < t.len() && (t[p].0 is Plus || t[p].0 is Minus || t[p].0 is Ampersand || t[p].0
            is Asterisk)),
    ensures
        spec_munch_unary(t, p) == spec_munch_array_access(t, p),
{
}

proof fn lemma_array_tail_step(
    t: Seq<PositionedToken>,
    p: int,
    acc: SpecExpr,
    idx: SpecExpr,
    p2: int,
)
    requires
        0 <= p < t.len(),
        t[p].0 is LBracket,
        spec_munch_expr(t, p + 1) == Ok::<_, ParseError>((idx, p2)),
        p2 < t.len(),
        t[p2].0 is RBracket,
        p < p2 + 1 <= t.len(),
    ensures
        spec_array_tail(t, p, acc) == spec_array_tail(
            t,
            p2 + 1,
            SpecExpr::Dereference(Box::new(SpecExpr::Add(Box::new(acc), Box::new(idx)))),
        ),
{
}

proof fn lemma_array_tail_err(t: Seq<PositionedToken>, p: int, acc: SpecExpr, e: ParseError)
    requires
        0 <= p < t.len(),
        t[p].0 is LBracket,
        ({
            ||| spec_munch_expr(t, p + 1) == Err::<(SpecExpr, int), _>(e)
            ||| (spec_munch_expr(t, p + 1) matches Ok(pr) && !(pr.1 < t.len() && t[pr.1].0
                is RBracket) && e == spec_err(t, pr.1, ExpectedItem::Tok(Token::RBracket)))
        }),
    ensures
        spec_array_tail(t, p, acc) == Err::<(SpecExpr, int), _>(e),
{
}

proof fn lemma_call_args_cont(
    t: Seq<PositionedToken>,
    p: int,
    acc: Seq<SpecExpr>,
    a: SpecExpr,
    p2: int,
)
    requires
        0 <= p <= t.len(),
        !(p < t.len() && t[p].0 is RParen),
        spec_munch_expr(t, p) == Ok::<_, ParseError>((a, p2)),
        p2 < t.len(),
        t[p2].0 is Comma,
        p < p2 + 1 <= t.len(),
    ensures
        spec_call_args(t, p, acc) == spec_call_args(t, p2 + 1, acc.push(a)),
{
}

proof fn lemma_call_args_done(
    t: Seq<PositionedToken>,
    p: int,
    acc: Seq<SpecExpr>,
    a: SpecExpr,
    p2: int,
)
    requires
        0 <= p <= t.len(),
        !(p < t.len() && t[p].0 is RParen),
        spec_munch_expr(t, p) == Ok::<_, ParseError>((a, p2)),
        p2 < t.len(),
        !(t[p2].0 is Comma),
        t[p2].0 is RParen,
    ensures
        spec_call_args(t, p, acc) == Ok::<_, ParseError>((acc.push(a), p2 + 1)),
{
}

proof fn lemma_call_args_err(t: Seq<PositionedToken>, p: int, acc: Seq<SpecExpr>, e: ParseError)
    requires
        0 <= p <= t.len(),
        !(p < t.len() && t[p].0 is RParen),
        ({
            ||| spec_munch_expr(t, p) == Err::<(SpecExpr, int), _>(e)
            ||| (spec_munch_expr(t, p) matches Ok(pr) && !(pr.1 < t.len() && t[pr.1].0 is Comma)
                && !(pr.1 < t.len() && t[pr.1].0 is RParen) && e == spec_err(
                t,
                pr.1,
                ExpectedItem::ArgumentSeparator,
            ))
        }),
    ensures
        spec_call_args(t, p, acc) == Err::<(Seq<SpecExpr>, int), _>(e),
{
}

proof fn lemma_call_args_close(t: Seq<PositionedToken>, p: int, acc: Seq<SpecExpr>)
    requires
        0 <= p < t.len(),
        t[p].0 is RParen,
    ensures
        spec_call_args(t, p, acc) == Ok::<_, ParseError>((acc, p + 1)),
{
}

proof fn lemma_primary_num(t: Seq<PositionedToken>, p: int, n: i32)
    requires
        0 <= p < t.len(),
        t[p].0 == Token::Num(n),
    ensures
        spec_munch_primary(t, p) == Ok::<_, ParseError>((SpecExpr::Num(n as int), p + 1)),
{
}

proof fn lemma_primary_var(t: Seq<PositionedToken>, p: int)
    requires
        0 <= p < t.len(),
        t[p].0 is Identifier,
        !(p + 1 < t.len() && t[p + 1].0 is LParen),
    ensures
        spec_munch_primary(t, p) == Ok::<_, ParseError>(
            (SpecExpr::Variable(t[p].0->Identifier_0@), p + 1),
        ),
{
}

proof fn lemma_primary_call(
    t: Seq<PositionedToken>,
    p: int,
    r: Result<(Seq<SpecExpr>, int), ParseError>,
)
    requires
        0 <= p < t.len(),
        t[p].0 is Identifier,
        p + 1 < t.len() && t[p + 1].0 is LParen,
        spec_call_args(t, p + 2, Seq::empty()) == r,
    ensures
        r matches Ok(pr) ==> spec_munch_primary(t, p) == Ok::<_, ParseError>(
            (SpecExpr::FunctionCall(t[p].0->Identifier_0@, pr.0), pr.1),
        ),
        r matches Err(e) ==> spec_munch_primary(t, p) == Err::<(SpecExpr, int), _>(e),
{
}

proof fn lemma_primary_sizeof(
    t: Seq<PositionedToken>,
    p: int,
    r: Result<(SpecExpr, int), ParseError>,
)
    requires
        0 <= p < t.len(),
        t[p].0 is Sizeof,
        p + 1 < t.len() && t[p + 1].0 is LParen,
        spec_munch_expr(t, p + 2) == r,
    ensures
        r matches Err(e) ==> spec_munch_primary(t, p) == Err::<(SpecExpr, int), _>(e),
        r matches Ok(pr) ==> ((pr.1 < t.len() && t[pr.1].0 is RParen) ==> spec_munch_primary(t, p)
            == Ok::<_, ParseError>((SpecExpr::Sizeof(Box::new(pr.0)), pr.1 + 1))),
        r matches Ok(pr) ==> (!(pr.1 < t.len() && t[pr.1].0 is RParen) ==> spec_munch_primary(t, p)
            == Err::<(SpecExpr, int), _>(spec_err(t, pr.1, ExpectedItem::Tok(Token::RParen)))),
{
}

proof fn lemma_primary_paren(
    t: Seq<PositionedToken>,
    p: int,
    r: Result<(SpecExpr, int), ParseError>,
)
    requires
        0 <= p < t.len(),
        t[p].0 is LParen,
        spec_munch_expr(t, p + 1) == r,
    ensures
        r matches Err(e) ==> spec_munch_primary(t, p) == Err::<(SpecExpr, int), _>(e),
        r matches Ok(pr) ==> ((pr.1 < t.len() && t[pr.1].0 is RParen) ==> spec_munch_primary(t, p)
            == Ok::<_, ParseError>((pr.0, pr.1 + 1))),
        r matches Ok(pr) ==> (!(pr.1 < t.len() && t[pr.1].0 is RParen) ==> spec_munch_primary(t, p)
            == Err::<(SpecExpr, int), _>(spec_err(t, pr.1, ExpectedItem::Tok(Token::RParen)))),
{
}

proof fn lemma_primary_fail(t: Seq<PositionedToken>, p: int)
    requires
        !(0 <= p < t.len()) || (!(t[p].0 is Num) && !(t[p].0 is Identifier) && !(t[p].0 is LParen)
            && (t[p].0 is Sizeof ==> !(p + 1 < t.len() && t[p + 1].0 is LParen))),
    ensures
        spec_munch_primary(t, p) == Err::<(SpecExpr, int), _>(
            spec_err(t, p, ExpectedItem::Primary),
        ),
{
}

/// Parsing state: the token stream and the cursor into it.
pub struct Parser {
    pub tokens: Vec<PositionedToken>,
    pub pos: usize,
}

impl Parser {
    /// The cursor never passes the end of the stream.
    pub open spec fn wf(self) -> bool {
        self.pos <= self.tokens@.len()
    }

    /// How many tokens are left to consume.
    pub open spec fn rem(self) -> int {
        self.tokens@.len() - self.pos
    }

    pub fn new(tokens: Vec<PositionedToken>) -> (r: Parser)
        ensures
            r.wf(),
            r.tokens@ == tokens@,
            r.pos == 0,
    {
        Parser { tokens, pos: 0 }
    }

    /// True when every token has been consumed.
    pub fn fully_parsed(&self) -> (r: bool)
        ensures
            r == (self.pos == self.tokens@.len()),
    {
        self.pos == self.tokens.len()
    }

    fn advance(&mut self, offset: usize)
        requires
            old(self).pos + offset <= old(self).tokens@.len(),
        ensures
            final(self).tokens == old(self).tokens,
            final(self).pos == old(self).pos + offset,
    {
        let n = self.tokens.len();
        self.pos = self.pos + offset;
    }

    /// The byte offset to report an error at: the current token's
    /// position, or the last token's when the input ended early.
    fn error_pos(&self) -> (r: usize)
        requires
            self.wf(),
        ensures
            r == spec_err(self.tokens@, self.pos as int, ExpectedItem::Primary).pos,
    {
        if self.pos < self.tokens.len() {
            self.tokens[self.pos].1.0
        } else if self.tokens.len() > 0 {
            self.tokens[self.tokens.len() - 1].1.0
        } else {
            0
        }
    }

    /// A `ParseError` at the current position.
    fn err_here(&self, expected: ExpectedItem) -> (r: ParseError)
        requires
            self.wf(),
        ensures
            r == spec_err(self.tokens@, self.pos as int, expected),
    {
        let got = if self.pos < self.tokens.len() {
            Some(self.tokens[self.pos].0.clone())
        } else {
            None
        };
        ParseError { pos: self.error_pos(), expected, got }
    }

    /// Consumes one expected token, or fails naming it. For the fixed
    /// tokens this method is used with, success means exactly that the
    /// expected token stands at the cursor.
    fn expect(&mut self, expected: Token) -> (r: Result<(), ParseError>)
        requires
            old(self).wf(),
        ensures
            final(self).wf(),
            final(self).tokens == old(self).tokens,
            r is Ok ==> final(self).pos == old(self).pos + 1,
            r is Err ==> final(self).pos == old(self).pos,
            r matches Err(pe) ==> pe == spec_err(
                old(self).tokens@,
                old(self).pos as int,
                ExpectedItem::Tok(expected),
            ),
            !(expected@ is Num) && !(expected@ is Identifier) ==> (r is Ok <==> (old(self).pos
                < old(self).tokens@.len() && old(self).tokens@[old(self).pos as int].0@
                == expected@)),
    {
        if self.pos < self.tokens.len() {
            let same = match (&self.tokens[self.pos].0, &expected) {
                (Token::Plus, Token::Plus) => true,
                (Token::Minus, Token::Minus) => true,
                (Token::Asterisk, Token::Asterisk) => true,
                (Token::Slash, Token::Slash) => true,
                (Token::LParen, Token::LParen) => true,
                (Token::RParen, Token::RParen) => true,
                (Token::Equality, Token::Equality) => true,
                (Token::Inequality, Token::Inequality) => true,
                (Token::LessThan, Token::LessThan) => true,
                (Token::LessThanOrEqual, Token::LessThanOrEqual) => true,
                (Token::GreaterThan, Token::GreaterThan) => true,
                (Token::GreaterThanOrEqual, Token::GreaterThanOrEqual) => true,
                (Token::Assign, Token::Assign) => true,
                (Token::Semicolon, Token::Semicolon) => true,
                (Token::Return, Token::Return) => true,
                (Token::If, Token::If) => true,
                (Token::Else, Token::Else) => true,
                (Token::While, Token::While) => true,
                (Token::For, Token::For) => true,
                (Token::LBracket, Token::LBracket) => true,
                (Token::RBracket, Token::RBracket) => true,
                (Token::LBrace, Token::LBrace) => true,
                (Token::RBrace, Token::RBrace) => true,
                (Token::Comma, Token::Comma) => true,
                (Token::Ampersand, Token::Ampersand) => true,
                (Token::Int, Token::Int) => true,
                (Token::Extern, Token::Extern) => true,
                (Token::Sizeof, Token::Sizeof) => true,
                _ => false,
            };
            if same {
                self.advance(1);
                return Ok(());
            }
        }
        Err(self.err_here(ExpectedItem::Tok(expected)))
    }

    /// `expr := assign`
    pub fn munch_expr(&mut self) -> (r: Result<Expr, ParseError>)
        requires
            old(self).wf(),
        ensures
            final(self).wf(),
            final(self).tokens == old(self).tokens,
            final(self).pos >= old(self).pos,
            r is Ok ==> final(self).pos > old(self).pos,
            r matches Ok(e) ==> spec_munch_expr(old(self).tokens@, old(self).pos as int) == Ok::<
                _,
                ParseError,
            >((expr_view(e), final(self).pos as int)),
            r matches Err(pe) ==> spec_munch_expr(old(self).tokens@, old(self).pos as int)
                == Err::<(SpecExpr, int), _>(pe),
        decreases old(self).rem(), 11int,
    {
        self.munch_assign()
    }

    /// `assign := equality ( "=" assign )?`, folding to the right.
    #[verifier::rlimit(100)]
    #[verifier::spinoff_prover]
    pub fn munch_assign(&mut self) -> (r: Result<Expr, ParseError>)
        requires
            old(self).wf(),
        ensures
            final(self).wf(),
            final(self).tokens == old(self).tokens,
            final(self).pos >= old(self).pos,
            r is Ok ==> final(self).pos > old(self).pos,
            r matches Ok(e) ==> spec_munch_assign(old(self).tokens@, old(self).pos as int) == Ok::<
                _,
                ParseError,
            >((expr_view(e), final(self).pos as int)),
            r matches Err(pe) ==> spec_munch_assign(old(self).tokens@, old(self).pos as int)
                == Err::<(SpecExpr, int), _>(pe),
        decreases old(self).rem(), 10int,
    {
        let lhs = match self.munch_equality() {
            Ok(e) => e,
            Err(e) => {
                return Err(e);
            },
        };
        if self.pos < self.tokens.len() {
            if let Token::Assign = &self.tokens[self.pos].0 {
                self.advance(1);
                let rhs = match self.munch_assign() {
                    Ok(e) => e,
                    Err(e) => {
                        return Err(e);
                    },
                };
                return Ok(Expr::Assign(Box::new(lhs), Box::new(rhs)));
            }
        }
        Ok(lhs)
    }

    /// `equality := relational ( ("==" | "!=") relational )*`
    #[verifier::rlimit(100)]
    #[verifier::spinoff_prover]
    pub fn munch_equality(&mut self) -> (r: Result<Expr, ParseError>)
        requires
            old(self).wf(),
        ensures
            final(self).wf(),
            final(self).tokens == old(self).tokens,
            final(self).pos >= old(self).pos,
            r is Ok ==> final(self).pos > old(self).pos,
            r matches Ok(e) ==> spec_munch_equality(old(self).tokens@, old(self).pos as int) == Ok::<
                _,
                ParseError,
            >((expr_view(e), final(self).pos as int)),
            r matches Err(pe) ==> spec_munch_equality(old(self).tokens@, old(self).pos as int) == Err::<
                (SpecExpr, int),
                _,
            >(pe),
        decreases old(self).rem(), 9int,
    {
        let mut expr = match self.munch_relational() {
            Ok(e) => e,
            Err(e) => {
                return Err(e);
            },
        };
        loop
            invariant
                self.wf(),
                self.tokens == old(self).tokens,
                self.pos > old(self).pos,
                spec_munch_equality(old(self).tokens@, old(self).pos as int) == spec_eq_tail(
                    old(self).tokens@,
                    self.pos as int,
                    expr_view(expr),
                ),
            decreases self.rem(),
        {
            if self.pos < self.tokens.len() {
                let is_eq = matches!(&self.tokens[self.pos].0, Token::Equality);
                let is_ne = matches!(&self.tokens[self.pos].0, Token::Inequality);
                if is_eq || is_ne {
                    self.advance(1);
                    let rhs = match self.munch_relational() {
                        Ok(e) => e,
                        Err(e) => {
                            return Err(e);
                        },
                    };
                    expr = if is_eq {
                        Expr::Equal(Box::new(expr), Box::new(rhs))
                    } else {
                        Expr::NotEqual(Box::new(expr), Box::new(rhs))
                    };
                } else {
                    return Ok(expr);
                }
            } else {
                return Ok(expr);
            }
        }
    }

    /// `relational := add ( ("<" | "<=" | ">" | ">=") add )*`
    #[verifier::rlimit(100)]
    #[verifier::spinoff_prover]
    pub fn munch_relational(&mut self) -> (r: Result<Expr, ParseError>)
        requires
            old(self).wf(),
        ensures
            final(self).wf(),
            final(self).tokens == old(self).tokens,
            final(self).pos >= old(self).pos,
            r is Ok ==> final(self).pos > old(self).pos,
            r matches Ok(e) ==> spec_munch_relational(old(self).tokens@, old(self).pos as int) == Ok::<
                _,
                ParseError,
            >((expr_view(e), final(self).pos as int)),
            r matches Err(pe) ==> spec_munch_relational(old(self).tokens@, old(self).pos as int) == Err::<
                (SpecExpr, int),
                _,
            >(pe),
        decreases old(self).rem(), 8int,
    {
        let mut expr = match self.munch_add() {
            Ok(e) => e,
            Err(e) => {
                return Err(e);
            },
        };
        loop
            invariant
                self.wf(),
                self.tokens == old(self).tokens,
                self.pos > old(self).pos,
                spec_munch_relational(old(self).tokens@, old(self).pos as int) == spec_rel_tail(
                    old(self).tokens@,
                    self.pos as int,
                    expr_view(expr),
                ),
            decreases self.rem(),
        {
            if self.pos < self.tokens.len() {
                let kind: u8 = match &self.tokens[self.pos].0 {
                    Token::LessThan => 1,
                    Token::LessThanOrEqual => 2,
                    Token::GreaterThan => 3,
                    Token::GreaterThanOrEqual => 4,
                    _ => 0,
                };
                if kind != 0 {
                    self.advance(1);
                    let rhs = match self.munch_add() {
                        Ok(e) => e,
                        Err(e) => {
                            return Err(e);
                        },
                    };
                    expr = if kind == 1 {
                        Expr::LessThan(Box::new(expr), Box::new(rhs))
                    } else if kind == 2 {
                        Expr::LessEqual(Box::new(expr), Box::new(rhs))
                    } else if kind == 3 {
                        Expr::GreaterThan(Box::new(expr), Box::new(rhs))
                    } else {
                        Expr::GreaterEqual(Box::new(expr), Box::new(rhs))
                    };
                } else {
                    return Ok(expr);
                }
            } else {
                return Ok(expr);
            }
        }
    }

    /// `add := mul ( ("+" | "-") mul )*`
    #[verifier::rlimit(100)]
    #[verifier::spinoff_prover]
    pub fn munch_add(&mut self) -> (r: Result<Expr, ParseError>)
        requires
            old(self).wf(),
        ensures
            final(self).wf(),
            final(self).tokens == old(self).tokens,
            final(self).pos >= old(self).pos,
            r is Ok ==> final(self).pos > old(self).pos,
            r matches Ok(e) ==> spec_munch_add(old(self).tokens@, old(self).pos as int) == Ok::<
                _,
                ParseError,
            >((expr_view(e), final(self).pos as int)),
            r matches Err(pe) ==> spec_munch_add(old(self).tokens@, old(self).pos as int) == Err::<
                (SpecExpr, int),
                _,
            >(pe),
        decreases old(self).rem(), 7int,
    {
        let mut expr = match self.munch_mul() {
            Ok(e) => e,
            Err(e) => {
                return Err(e);
            },
        };
        loop
            invariant
                self.wf(),
                self.tokens == old(self).tokens,
                self.pos > old(self).pos,
                spec_munch_add(old(self).tokens@, old(self).pos as int) == spec_add_tail(
                    old(self).tokens@,
                    self.pos as int,
                    expr_view(expr),
                ),
            decreases self.rem(),
        {
            if self.pos < self.tokens.len() {
                let is_add = matches!(&self.tokens[self.pos].0, Token::Plus);
                let is_sub = matches!(&self.tokens[self.pos].0, Token::Minus);
                if is_add || is_sub {
                    self.advance(1);
                    let rhs = match self.munch_mul() {
                        Ok(e) => e,
                        Err(e) => {
                            return Err(e);
                        },
                    };
                    expr = if is_add {
                        Expr::Add(Box::new(expr), Box::new(rhs))
                    } else {
                        Expr::Sub(Box::new(expr), Box::new(rhs))
                    };
                } else {
                    return Ok(expr);
                }
            } else {
                return Ok(expr);
            }
        }
    }

    /// `mul := unary ( ("*" | "/") unary )*`
    #[verifier::rlimit(100)]
    #[verifier::spinoff_prover]
    fn munch_mul(&mut self) -> (r: Result<Expr, ParseError>)
        requires
            old(self).wf(),
        ensures
            final(self).wf(),
            final(self).tokens == old(self).tokens,
            final(self).pos >= old(self).pos,
            r is Ok ==> final(self).pos > old(self).pos,
            r matches Ok(e) ==> spec_munch_mul(old(self).tokens@, old(self).pos as int) == Ok::<
                _,
                ParseError,
            >((expr_view(e), final(self).pos as int)),
            r matches Err(pe) ==> spec_munch_mul(old(self).tokens@, old(self).pos as int) == Err::<
                (SpecExpr, int),
                _,
            >(pe),
        decreases old(self).rem(), 6int,
    {
        let mut expr = match self.munch_unary() {
            Ok(e) => e,
            Err(e) => {
                return Err(e);
            },
        };
        loop
            invariant
                self.wf(),
                self.tokens == old(self).tokens,
                self.pos > old(self).pos,
                spec_munch_mul(old(self).tokens@, old(self).pos as int) == spec_mul_tail(
                    old(self).tokens@,
                    self.pos as int,
                    expr_view(expr),
                ),
            decreases self.rem(),
        {
            if self.pos < self.tokens.len() {
                let is_mul = matches!(&self.tokens[self.pos].0, Token::Asterisk);
                let is_div = matches!(&self.tokens[self.pos].0, Token::Slash);
                if is_mul || is_div {
                    self.advance(1);
                    let rhs = match self.munch_unary() {
                        Ok(e) => e,
                        Err(e) => {
                            return Err(e);
                        },
                    };
                    expr = if is_mul {
                        Expr::Mul(Box::new(expr), Box::new(rhs))
                    } else {
                        Expr::Div(Box::new(expr), Box::new(rhs))
                    };
                } else {
                    return Ok(expr);
                }
            } else {
                return Ok(expr);
            }
        }
    }

    /// `unary := ("+" | "-" | "&" | "*") array_access | array_access`;
    /// `-x` desugars to `0 - x`.
    #[verifier::rlimit(100)]
    #[verifier::spinoff_prover]
    fn munch_unary(&mut self) -> (r: Result<Expr, ParseError>)
        requires
            old(self).wf(),
        ensures
            final(self).wf(),
            final(self).tokens == old(self).tokens,
            final(self).pos >= old(self).pos,
            r is Ok ==> final(self).pos > old(self).pos,
            r matches Ok(e) ==> spec_munch_unary(old(self).tokens@, old(self).pos as int) == Ok::<
                _,
                ParseError,
            >((expr_view(e), final(self).pos as int)),
            r matches Err(pe) ==> spec_munch_unary(old(self).tokens@, old(self).pos as int)
                == Err::<(SpecExpr, int), _>(pe),
        decreases old(self).rem(), 5int,
    {
        let ghost t = old(self).tokens@;
        let ghost p0 = old(self).pos as int;
        if self.pos < self.tokens.len() {
            let kind: u8 = match &self.tokens[self.pos].0 {
                Token::Plus => 1,
                Token::Minus => 2,
                Token::Ampersand => 3,
                Token::Asterisk => 4,
                _ => 0,
            };
            if kind != 0 {
                self.advance(1);
                let operand = match self.munch_array_access() {
                    Ok(e) => e,
                    Err(e) => {
                        proof {
                            lemma_unary_err(t, p0, e);
                        }
                        return Err(e);
                    },
                };
                proof {
                    lemma_unary_ok(t, p0, expr_view(operand), self.pos as int);
                }
                if kind == 1 {
                    proof {
                        assert(t[p0].0 is Plus);
                    }
                    return Ok(operand);
                } else if kind == 2 {
                    proof {
                        assert(t[p0].0 is Minus);
                        lemma_view_negate(operand);
                    }
                    return Ok(Expr::Sub(Box::new(Expr::Num(0)), Box::new(operand)));
                } else if kind == 3 {
                    proof {
                        assert(t[p0].0 is Ampersand);
                    }
                    return Ok(Expr::Address(Box::new(operand)));
                } else {
                    proof {
                        assert(t[p0].0 is Asterisk);
                    }
                    return Ok(Expr::Dereference(Box::new(operand)));
                }
            }
        }
        proof {
            lemma_unary_pass(t, p0);
        }
        self.munch_array_access()
    }

    /// One `[ expr ]` subscript step: on `(e2, true)` the subscript was
    /// folded onto the expression; on `(e2, false)` no subscript stands
    /// here and the expression comes back unchanged.
    #[verifier::rlimit(100)]
    #[verifier::spinoff_prover]
    fn munch_subscript_step(&mut self, e: Expr) -> (r: Result<(Expr, bool), ParseError>)
        requires
            old(self).wf(),
        ensures
            final(self).wf(),
            final(self).tokens == old(self).tokens,
            final(self).pos >= old(self).pos,
            r matches Ok(p) ==> (p.1 ==> final(self).pos > old(self).pos && spec_array_tail(
                old(self).tokens@,
                old(self).pos as int,
                expr_view(e),
            ) == spec_array_tail(old(self).tokens@, final(self).pos as int, expr_view(p.0))),
            r matches Ok(p) ==> (!p.1 ==> *final(self) == *old(self) && p.0 == e && spec_array_tail(
                old(self).tokens@,
                old(self).pos as int,
                expr_view(e),
            ) == Ok::<_, ParseError>((expr_view(e), old(self).pos as int))),
            r matches Err(pe) ==> spec_array_tail(
                old(self).tokens@,
                old(self).pos as int,
                expr_view(e),
            ) == Err::<(SpecExpr, int), _>(pe),
        decreases old(self).rem(), 2int,
    {
        let ghost t = old(self).tokens@;
        let ghost p0 = old(self).pos as int;
        let ghost accv = expr_view(e);
        if self.pos < self.tokens.len() && matches!(&self.tokens[self.pos].0, Token::LBracket) {
            self.advance(1);
            let index = match self.munch_expr() {
                Ok(ix) => ix,
                Err(pe) => {
                    proof {
                        lemma_array_tail_err(t, p0, accv, pe);
                    }
                    return Err(pe);
                },
            };
            match self.expect(Token::RBracket) {
                Ok(_) => {},
                Err(pe) => {
                    proof {
                        lemma_array_tail_err(t, p0, accv, pe);
                    }
                    return Err(pe);
                },
            }
            proof {
                lemma_array_tail_step(t, p0, accv, expr_view(index), self.pos as int - 1);
                lemma_view_subscript(e, index);
            }
            Ok((Expr::Dereference(Box::new(Expr::Add(Box::new(e), Box::new(index)))), true))
        } else {
            Ok((e, false))
        }
    }

    /// `array_access := primary ( "[" expr "]" )*`; `a[i]` desugars to
    /// `*(a + i)`.
    #[verifier::rlimit(100)]
    #[verifier::spinoff_prover]
    pub fn munch_array_access(&mut self) -> (r: Result<Expr, ParseError>)
        requires
            old(self).wf(),
        ensures
            final(self).wf(),
            final(self).tokens == old(self).tokens,
            final(self).pos >= old(self).pos,
            r is Ok ==> final(self).pos > old(self).pos,
            r matches Ok(e) ==> spec_munch_array_access(old(self).tokens@, old(self).pos as int)
                == Ok::<_, ParseError>((expr_view(e), final(self).pos as int)),
            r matches Err(pe) ==> spec_munch_array_access(old(self).tokens@, old(self).pos as int)
                == Err::<(SpecExpr, int), _>(pe),
        decreases old(self).rem(), 4int,
    {
        let mut expr = match self.munch_primary() {
            Ok(e) => e,
            Err(e) => {
                return Err(e);
            },
        };
        loop
            invariant
                self.wf(),
                self.tokens == old(self).tokens,
                self.pos > old(self).pos,
                spec_munch_array_access(old(self).tokens@, old(self).pos as int) == spec_array_tail(
                    old(self).tokens@,
                    self.pos as int,
                    expr_view(expr),
                ),
            decreases self.rem(),
        {
            match self.munch_subscript_step(expr) {
                Ok((e2, continued)) => {
                    if !continued {
                        return Ok(e2);
                    }
                    expr = e2;
                },
                Err(pe) => {
                    return Err(pe);
                },
            }
        }
    }

    /// One argument-list step: on `(args2, true)` an argument and its
    /// comma were consumed; on `(args2, false)` the closing parenthesis
    /// was consumed and the list is complete.
    #[verifier::rlimit(100)]
    #[verifier::spinoff_prover]
    fn munch_call_arg_step(&mut self, args: Vec<Expr>) -> (r: Result<
        (Vec<Expr>, bool),
        ParseError,
    >)
        requires
            old(self).wf(),
        ensures
            final(self).wf(),
            final(self).tokens == old(self).tokens,
            final(self).pos >= old(self).pos,
            r is Ok ==> final(self).pos > old(self).pos,
            r matches Ok(p) ==> (p.1 ==> spec_call_args(
                old(self).tokens@,
                old(self).pos as int,
                exprs_view(args@),
            ) == spec_call_args(old(self).tokens@, final(self).pos as int, exprs_view(p.0@))),
            r matches Ok(p) ==> (!p.1 ==> spec_call_args(
                old(self).tokens@,
                old(self).pos as int,
                exprs_view(args@),
            ) == Ok::<_, ParseError>((exprs_view(p.0@), final(self).pos as int))),
            r matches Err(pe) ==> spec_call_args(
                old(self).tokens@,
                old(self).pos as int,
                exprs_view(args@),
            ) == Err::<(Seq<SpecExpr>, int), _>(pe),
        decreases old(self).rem(), 12int,
    {
        let ghost t = old(self).tokens@;
        let ghost p0 = old(self).pos as int;
        let ghost accv = exprs_view(args@);
        let mut args = args;
        if self.pos < self.tokens.len() && matches!(&self.tokens[self.pos].0, Token::RParen) {
            proof {
                lemma_call_args_close(t, p0, accv);
            }
            self.advance(1);
            return Ok((args, false));
        }
        let arg = match self.munch_expr() {
            Ok(e) => e,
            Err(e) => {
                proof {
                    lemma_call_args_err(t, p0, accv, e);
                }
                return Err(e);
            },
        };
        proof {
            lemma_exprs_view_push(args@, arg);
        }
        if self.pos < self.tokens.len() && matches!(&self.tokens[self.pos].0, Token::Comma) {
            proof {
                lemma_call_args_cont(t, p0, accv, expr_view(arg), self.pos as int);
            }
            args.push(arg);
            self.advance(1);
            Ok((args, true))
        } else if self.pos < self.tokens.len() && matches!(&self.tokens[self.pos].0, Token::RParen)
        {
            proof {
                lemma_call_args_done(t, p0, accv, expr_view(arg), self.pos as int);
            }
            args.push(arg);
            self.advance(1);
            Ok((args, false))
        } else {
            let e2 = self.err_here(ExpectedItem::ArgumentSeparator);
            proof {
                lemma_call_args_err(t, p0, accv, e2);
            }
            Err(e2)
        }
    }

    /// The argument list of a call, from past the opening parenthesis to
    /// past the closing one.
    #[verifier::rlimit(100)]
    #[verifier::spinoff_prover]
    fn munch_call_args(&mut self) -> (r: Result<Vec<Expr>, ParseError>)
        requires
            old(self).wf(),
        ensures
            final(self).wf(),
            final(self).tokens == old(self).tokens,
            final(self).pos >= old(self).pos,
            r is Ok ==> final(self).pos > old(self).pos,
            r matches Ok(args) ==> spec_call_args(
                old(self).tokens@,
                old(self).pos as int,
                Seq::empty(),
            ) == Ok::<_, ParseError>((exprs_view(args@), final(self).pos as int)),
            r matches Err(pe) ==> spec_call_args(
                old(self).tokens@,
                old(self).pos as int,
                Seq::empty(),
            ) == Err::<(Seq<SpecExpr>, int), _>(pe),
        decreases old(self).rem(), 13int,
    {
        let mut args: Vec<Expr> = Vec::new();
        proof {
            assert(exprs_view(args@) =~= Seq::<SpecExpr>::empty());
        }
        loop
            invariant
                self.wf(),
                self.tokens == old(self).tokens,
                self.pos >= old(self).pos,
                spec_call_args(old(self).tokens@, old(self).pos as int, Seq::empty())
                    == spec_call_args(old(self).tokens@, self.pos as int, exprs_view(args@)),
            decreases self.rem(),
        {
            match self.munch_call_arg_step(args) {
                Ok((args2, more)) => {
                    if !more {
                        return Ok(args2);
                    }
                    args = args2;
                },
                Err(pe) => {
                    return Err(pe);
                },
            }
        }
    }

    /// `primary := NUM | "sizeof" "(" expr ")" | identifier "(" args ")" |
    /// identifier | "(" expr ")"`
    #[verifier::rlimit(100)]
    #[verifier::spinoff_prover]
    fn munch_primary(&mut self) -> (r: Result<Expr, ParseError>)
        requires
            old(self).wf(),
        ensures
            final(self).wf(),
            final(self).tokens == old(self).tokens,
            final(self).pos >= old(self).pos,
            r is Ok ==> final(self).pos > old(self).pos,
            r matches Ok(e) ==> spec_munch_primary(old(self).tokens@, old(self).pos as int)
                == Ok::<_, ParseError>((expr_view(e), final(self).pos as int)),
            r matches Err(pe) ==> spec_munch_primary(old(self).tokens@, old(self).pos as int)
                == Err::<(SpecExpr, int), _>(pe),
        decreases old(self).rem(), 3int,
    {
        let ghost t = old(self).tokens@;
        let ghost p0 = old(self).pos as int;
        if self.pos >= self.tokens.len() {
            proof {
                lemma_primary_fail(t, p0);
            }
            return Err(self.err_here(ExpectedItem::Primary));
        }
        let is_num: Option<i32> = match &self.tokens[self.pos].0 {
            Token::Num(n) => Some(*n),
            _ => None,
        };
        if let Some(n) = is_num {
            proof {
                lemma_primary_num(t, p0, n);
            }
            self.advance(1);
            return Ok(Expr::Num(n));
        }
        let is_ident: Option<String> = match &self.tokens[self.pos].0 {
            Token::Identifier(name) => Some(name.clone()),
            _ => None,
        };
        if let Some(name) = is_ident {
            // A call when a parenthesis follows, a variable otherwise.
            let is_call = self.pos + 1 < self.tokens.len() && matches!(
                &self.tokens[self.pos + 1].0,
                Token::LParen,
            );
            if !is_call {
                proof {
                    lemma_primary_var(t, p0);
                }
                self.advance(1);
                return Ok(Expr::Variable(name));
            }
            self.advance(2);
            let args = match self.munch_call_args() {
                Ok(args) => args,
                Err(e) => {
                    proof {
                        lemma_primary_call(t, p0, Err(e));
                    }
                    return Err(e);
                },
            };
            proof {
                lemma_primary_call(t, p0, Ok((exprs_view(args@), self.pos as int)));
            }
            return Ok(Expr::FunctionCall(name, args));
        }
        let is_sizeof = matches!(&self.tokens[self.pos].0, Token::Sizeof) && self.pos + 1
            < self.tokens.len() && matches!(&self.tokens[self.pos + 1].0, Token::LParen);
        if is_sizeof {
            return self.munch_sizeof_group();
        }
        if matches!(&self.tokens[self.pos].0, Token::LParen) {
            return self.munch_paren_group();
        }
        proof {
            lemma_primary_fail(t, p0);
        }
        Err(self.err_here(ExpectedItem::Primary))
    }

    /// `"sizeof" "(" expr ")"`.
    #[verifier::rlimit(100)]
    #[verifier::spinoff_prover]
    fn munch_sizeof_group(&mut self) -> (r: Result<Expr, ParseError>)
        requires
            old(self).wf(),
            old(self).pos < old(self).tokens@.len(),
            old(self).tokens@[old(self).pos as int].0 is Sizeof,
            old(self).pos + 1 < old(self).tokens@.len(),
            old(self).tokens@[old(self).pos as int + 1].0 is LParen,
        ensures
            final(self).wf(),
            final(self).tokens == old(self).tokens,
            final(self).pos >= old(self).pos,
            r is Ok ==> final(self).pos > old(self).pos,
            r matches Ok(e) ==> spec_munch_primary(old(self).tokens@, old(self).pos as int)
                == Ok::<_, ParseError>((expr_view(e), final(self).pos as int)),
            r matches Err(pe) ==> spec_munch_primary(old(self).tokens@, old(self).pos as int)
                == Err::<(SpecExpr, int), _>(pe),
        decreases old(self).rem(), 2int,
    {
        let ghost t = old(self).tokens@;
        let ghost p0 = old(self).pos as int;
        self.advance(2);
        let operand = match self.munch_expr() {
            Ok(e) => e,
            Err(e) => {
                proof {
                    lemma_primary_sizeof(t, p0, Err(e));
                }
                return Err(e);
            },
        };
        let ghost sub = Ok::<_, ParseError>((expr_view(operand), self.pos as int));
        match self.expect(Token::RParen) {
            Ok(_) => {},
            Err(e) => {
                proof {
                    lemma_primary_sizeof(t, p0, sub);
                }
                return Err(e);
            },
        }
        proof {
            lemma_primary_sizeof(t, p0, sub);
        }
        Ok(Expr::Sizeof(Box::new(operand)))
    }

    /// `"(" expr ")"`.
    #[verifier::rlimit(100)]
    #[verifier::spinoff_prover]
    fn munch_paren_group(&mut self) -> (r: Result<Expr, ParseError>)
        requires
            old(self).wf(),
            old(self).pos < old(self).tokens@.len(),
            old(self).tokens@[old(self).pos as int].0 is LParen,
        ensures
            final(self).wf(),
            final(self).tokens == old(self).tokens,
            final(self).pos >= old(self).pos,
            r is Ok ==> final(self).pos > old(self).pos,
            r matches Ok(e) ==> spec_munch_primary(old(self).tokens@, old(self).pos as int)
                == Ok::<_, ParseError>((expr_view(e), final(self).pos as int)),
            r matches Err(pe) ==> spec_munch_primary(old(self).tokens@, old(self).pos as int)
                == Err::<(SpecExpr, int), _>(pe),
        decreases old(self).rem(), 2int,
    {
        let ghost t = old(self).tokens@;
        let ghost p0 = old(self).pos as int;
        self.advance(1);
        let inner = match self.munch_expr() {
            Ok(e) => e,
            Err(e) => {
                proof {
                    lemma_primary_paren(t, p0, Err(e));
                }
                return Err(e);
            },
        };
        let ghost sub = Ok::<_, ParseError>((expr_view(inner), self.pos as int));
        match self.expect(Token::RParen) {
            Ok(_) => {},
            Err(e) => {
                proof {
                    lemma_primary_paren(t, p0, sub);
                }
                return Err(e);
            },
        }
        proof {
            lemma_primary_paren(t, p0, sub);
        }
        Ok(inner)
    }

    /// `type := "int" "*"*`; consumes nothing when no type keyword stands
    /// here; never fails. On a type the result is exactly the pointer
    /// chain the consumed `int` and asterisks spell, maximally long.
    pub fn try_munch_type(&mut self) -> (r: Result<Option<Type>, ParseError>)
        requires
            old(self).wf(),
        ensures
            final(self).wf(),
            final(self).tokens == old(self).tokens,
            final(self).pos >= old(self).pos,
            r is Ok,
            r matches Ok(Some(ty)) ==> ({
                let p0 = old(self).pos as int;
                let p1 = final(self).pos as int;
                let toks = old(self).tokens@;
                &&& p1 > p0
                &&& toks[p0].0@ is Int
                &&& forall|j: int| p0 < j < p1 ==> (#[trigger] toks[j].0@) is Asterisk
                &&& (p1 == toks.len() || !(toks[p1].0@ is Asterisk))
                &&& ty == pointer_depth_type((p1 - p0 - 1) as nat)
            }),
            r matches Ok(None) ==> *final(self) == *old(self) && (old(self).pos == old(
                self,
            ).tokens@.len() || !(old(self).tokens@[old(self).pos as int].0@ is Int)),
        decreases old(self).rem(), 2int,
    {
        if !(self.pos < self.tokens.len() && matches!(&self.tokens[self.pos].0, Token::Int)) {
            return Ok(None);
        }
        let ghost start = self.pos as int;
        self.advance(1);
        let mut ty = Type::IntTyp;
        loop
            invariant
                self.wf(),
                self.tokens == old(self).tokens,
                start == old(self).pos,
                self.pos > start,
                self.tokens@[start].0@ is Int,
                forall|j: int| start < j < self.pos ==> (#[trigger] self.tokens@[j].0@) is Asterisk,
                ty == pointer_depth_type((self.pos - start - 1) as nat),
            decreases self.rem(),
        {
            if self.pos < self.tokens.len() && matches!(&self.tokens[self.pos].0, Token::Asterisk) {
                self.advance(1);
                ty = Type::Pointer(Box::new(ty));
            } else {
                return Ok(Some(ty));
            }
        }
    }

    /// `param := type identifier [ "[" NUM "]" ]`; consumes nothing and
    /// yields `None` when no type keyword stands here. On success the name
    /// is the identifier's text, and the type is the spelled pointer
    /// chain, wrapped in an array of the spelled length when a bracketed
    /// size follows.
    pub fn try_munch_variable_definition(&mut self) -> (r: Result<
        Option<(String, Type)>,
        ParseError,
    >)
        requires
            old(self).wf(),
        ensures
            final(self).wf(),
            final(self).tokens == old(self).tokens,
            final(self).pos >= old(self).pos,
            r matches Ok(Some(_)) ==> final(self).pos > old(self).pos,
            r matches Ok(Some(p)) ==> ({
                let toks = old(self).tokens@;
                let p0 = old(self).pos as int;
                let p1 = final(self).pos as int;
                exists|q: int|
                    {
                        &&& p0 < q < p1
                        &&& toks[p0].0@ is Int
                        &&& (#[trigger] toks[q].0@) matches SpecToken::Identifier(text) && p.0@
                            == text
                        &&& (forall|j: int| p0 < j < q ==> (#[trigger] toks[j].0@) is Asterisk)
                        &&& ({
                            ||| (q + 1 == p1 && p.1 == pointer_depth_type((q - p0 - 1) as nat))
                            ||| (q + 4 == p1 && toks[q + 1].0@ is LBracket && toks[q + 3].0@
                                is RBracket && (toks[q + 2].0@ matches SpecToken::Num(sz) && sz >= 0
                                && p.1 == Type::Array(
                                Box::new(pointer_depth_type((q - p0 - 1) as nat)),
                                sz as usize,
                            )))
                        })
                    }
            }),
            r matches Ok(None) ==> *final(self) == *old(self),
        decreases old(self).rem(), 3int,
    {
        let ty = match self.try_munch_type() {
            Ok(Some(t)) => t,
            Ok(None) => {
                return Ok(None);
            },
            Err(e) => {
                return Err(e);
            },
        };
        let name: String = if self.pos < self.tokens.len() {
            match &self.tokens[self.pos].0 {
                Token::Identifier(n) => n.clone(),
                _ => {
                    return Err(self.err_here(ExpectedItem::Identifier));
                },
            }
        } else {
            return Err(self.err_here(ExpectedItem::Identifier));
        };
        self.advance(1);
        if self.pos < self.tokens.len() && matches!(&self.tokens[self.pos].0, Token::LBracket) {
            let size: i32 = if self.pos + 1 < self.tokens.len() {
                match &self.tokens[self.pos + 1].0 {
                    Token::Num(n) => *n,
                    _ => {
                        return Err(self.err_here(ExpectedItem::ArraySize));
                    },
                }
            } else {
                return Err(self.err_here(ExpectedItem::ArraySize));
            };
            if size < 0 {
                return Err(self.err_here(ExpectedItem::ArraySize));
            }
            if !(self.pos + 2 < self.tokens.len() && matches!(
                &self.tokens[self.pos + 2].0,
                Token::RBracket,
            )) {
                return Err(self.err_here(ExpectedItem::Tok(Token::RBracket)));
            }
            self.advance(3);
            return Ok(Some((name, Type::Array(Box::new(ty), size as usize))));
        }
        Ok(Some((name, ty)))
    }

    /// `statement := "return" expr ";" | "if" ... | "while" ... |
    /// "for" ... | block | declaration | expr ";"`
    pub fn munch_statement(&mut self) -> (r: Result<Statement, ParseError>)
        requires
            old(self).wf(),
        ensures
            final(self).wf(),
            final(self).tokens == old(self).tokens,
            final(self).pos >= old(self).pos,
            r is Ok ==> final(self).pos > old(self).pos,
        decreases old(self).rem(), 20int,
    {
        if self.pos < self.tokens.len() {
            let has_paren = self.pos + 1 < self.tokens.len() && matches!(
                &self.tokens[self.pos + 1].0,
                Token::LParen,
            );
            match &self.tokens[self.pos].0 {
                Token::Return => {
                    return self.munch_return();
                },
                Token::If if has_paren => {
                    return self.munch_if();
                },
                Token::While if has_paren => {
                    return self.munch_while();
                },
                Token::For if has_paren => {
                    return self.munch_for();
                },
                Token::LBrace => {
                    return self.munch_block();
                },
                _ => {},
            }
        }
        match self.try_munch_type() {
            Ok(Some(ty)) => self.munch_variable_declaration(ty),
            Ok(None) => self.munch_expr_statement(),
            Err(e) => Err(e),
        }
    }

    /// `expr ";"`
    fn munch_expr_statement(&mut self) -> (r: Result<Statement, ParseError>)
        requires
            old(self).wf(),
        ensures
            final(self).wf(),
            final(self).tokens == old(self).tokens,
            final(self).pos >= old(self).pos,
            r is Ok ==> final(self).pos > old(self).pos,
        decreases old(self).rem(), 19int,
    {
        let expr = match self.munch_expr() {
            Ok(e) => e,
            Err(e) => {
                return Err(e);
            },
        };
        match self.expect(Token::Semicolon) {
            Ok(_) => Ok(Statement::Expr(expr)),
            Err(e) => Err(e),
        }
    }

    /// `identifier [ "[" NUM "]" ] ";"` after the already-consumed type.
    fn munch_variable_declaration(&mut self, ty: Type) -> (r: Result<Statement, ParseError>)
        requires
            old(self).wf(),
        ensures
            final(self).wf(),
            final(self).tokens == old(self).tokens,
            final(self).pos >= old(self).pos,
            r is Ok ==> final(self).pos > old(self).pos,
        decreases old(self).rem(), 19int,
    {
        let name: String = if self.pos < self.tokens.len() {
            match &self.tokens[self.pos].0 {
                Token::Identifier(n) => n.clone(),
                _ => {
                    return Err(self.err_here(ExpectedItem::Identifier));
                },
            }
        } else {
            return Err(self.err_here(ExpectedItem::Identifier));
        };
        self.advance(1);
        if self.pos < self.tokens.len() && matches!(&self.tokens[self.pos].0, Token::Semicolon) {
            self.advance(1);
            return Ok(Statement::VariableDeclaration(name, ty));
        }
        if self.pos < self.tokens.len() && matches!(&self.tokens[self.pos].0, Token::LBracket) {
            let size: i32 = if self.pos + 1 < self.tokens.len() {
                match &self.tokens[self.pos + 1].0 {
                    Token::Num(n) => *n,
                    _ => {
                        return Err(self.err_here(ExpectedItem::ArraySize));
                    },
                }
            } else {
                return Err(self.err_here(ExpectedItem::ArraySize));
            };
            if size < 0 {
                return Err(self.err_here(ExpectedItem::ArraySize));
            }
            self.advance(2);
            match self.expect(Token::RBracket) {
                Ok(_) => {},
                Err(e) => {
                    return Err(e);
                },
            }
            match self.expect(Token::Semicolon) {
                Ok(_) => {},
                Err(e) => {
                    return Err(e);
                },
            }
            return Ok(
                Statement::VariableDeclaration(name, Type::Array(Box::new(ty), size as usize)),
            );
        }
        Err(self.err_here(ExpectedItem::Tok(Token::Semicolon)))
    }

    /// `"{" statement* "}"`
    fn munch_block(&mut self) -> (r: Result<Statement, ParseError>)
        requires
            old(self).wf(),
        ensures
            final(self).wf(),
            final(self).tokens == old(self).tokens,
            final(self).pos >= old(self).pos,
            r is Ok ==> final(self).pos > old(self).pos,
        decreases old(self).rem(), 19int,
    {
        match self.expect(Token::LBrace) {
            Ok(_) => {},
            Err(e) => {
                return Err(e);
            },
        }
        let mut statements: Vec<Statement> = Vec::new();
        loop
            invariant
                self.wf(),
                self.tokens == old(self).tokens,
                self.pos > old(self).pos,
            decreases self.rem(),
        {
            if self.pos >= self.tokens.len() {
                return Err(self.err_here(ExpectedItem::Tok(Token::RBrace)));
            }
            if matches!(&self.tokens[self.pos].0, Token::RBrace) {
                self.advance(1);
                return Ok(Statement::Block(statements));
            }
            let st = match self.munch_statement() {
                Ok(st) => st,
                Err(e) => {
                    return Err(e);
                },
            };
            statements.push(st);
        }
    }

    /// `"for" "(" expr ";" expr ";" expr ")" statement`
    fn munch_for(&mut self) -> (r: Result<Statement, ParseError>)
        requires
            old(self).wf(),
        ensures
            final(self).wf(),
            final(self).tokens == old(self).tokens,
            final(self).pos >= old(self).pos,
            r is Ok ==> final(self).pos > old(self).pos,
        decreases old(self).rem(), 19int,
    {
        match self.expect(Token::For) {
            Ok(_) => {},
            Err(e) => {
                return Err(e);
            },
        }
        match self.expect(Token::LParen) {
            Ok(_) => {},
            Err(e) => {
                return Err(e);
            },
        }
        let init = match self.munch_expr() {
            Ok(e) => e,
            Err(e) => {
                return Err(e);
            },
        };
        match self.expect(Token::Semicolon) {
            Ok(_) => {},
            Err(e) => {
                return Err(e);
            },
        }
        let cond = match self.munch_expr() {
            Ok(e) => e,
            Err(e) => {
                return Err(e);
            },
        };
        match self.expect(Token::Semicolon) {
            Ok(_) => {},
            Err(e) => {
                return Err(e);
            },
        }
        let update = match self.munch_expr() {
            Ok(e) => e,
            Err(e) => {
                return Err(e);
            },
        };
        match self.expect(Token::RParen) {
            Ok(_) => {},
            Err(e) => {
                return Err(e);
            },
        }
        let body = match self.munch_statement() {
            Ok(st) => st,
            Err(e) => {
                return Err(e);
            },
        };
        Ok(Statement::For(Box::new(init), Box::new(cond), Box::new(update), Box::new(body)))
    }

    /// `"while" "(" expr ")" statement`
    fn munch_while(&mut self) -> (r: Result<Statement, ParseError>)
        requires
            old(self).wf(),
        ensures
            final(self).wf(),
            final(self).tokens == old(self).tokens,
            final(self).pos >= old(self).pos,
            r is Ok ==> final(self).pos > old(self).pos,
        decreases old(self).rem(), 19int,
    {
        match self.expect(Token::While) {
            Ok(_) => {},
            Err(e) => {
                return Err(e);
            },
        }
        match self.expect(Token::LParen) {
            Ok(_) => {},
            Err(e) => {
                return Err(e);
            },
        }
        let cond = match self.munch_expr() {
            Ok(e) => e,
            Err(e) => {
                return Err(e);
            },
        };
        match self.expect(Token::RParen) {
            Ok(_) => {},
            Err(e) => {
                return Err(e);
            },
        }
        let body = match self.munch_statement() {
            Ok(st) => st,
            Err(e) => {
                return Err(e);
            },
        };
        Ok(Statement::While(Box::new(cond), Box::new(body)))
    }

    /// `"if" "(" expr ")" statement [ "else" statement ]`
    fn munch_if(&mut self) -> (r: Result<Statement, ParseError>)
        requires
            old(self).wf(),
        ensures
            final(self).wf(),
            final(self).tokens == old(self).tokens,
            final(self).pos >= old(self).pos,
            r is Ok ==> final(self).pos > old(self).pos,
        decreases old(self).rem(), 19int,
    {
        match self.expect(Token::If) {
            Ok(_) => {},
            Err(e) => {
                return Err(e);
            },
        }
        match self.expect(Token::LParen) {
            Ok(_) => {},
            Err(e) => {
                return Err(e);
            },
        }
        let cond = match self.munch_expr() {
            Ok(e) => e,
            Err(e) => {
                return Err(e);
            },
        };
        match self.expect(Token::RParen) {
            Ok(_) => {},
            Err(e) => {
                return Err(e);
            },
        }
        let then = match self.munch_statement() {
            Ok(st) => st,
            Err(e) => {
                return Err(e);
            },
        };
        if self.pos < self.tokens.len() && matches!(&self.tokens[self.pos].0, Token::Else) {
            self.advance(1);
            let els = match self.munch_statement() {
                Ok(st) => st,
                Err(e) => {
                    return Err(e);
                },
            };
            return Ok(Statement::IfElse(Box::new(cond), Box::new(then), Box::new(els)));
        }
        Ok(Statement::If(Box::new(cond), Box::new(then)))
    }

    /// `"return" expr ";"`
    fn munch_return(&mut self) -> (r: Result<Statement, ParseError>)
        requires
            old(self).wf(),
        ensures
            final(self).wf(),
            final(self).tokens == old(self).tokens,
            final(self).pos >= old(self).pos,
            r is Ok ==> final(self).pos > old(self).pos,
        decreases old(self).rem(), 19int,
    {
        match self.expect(Token::Return) {
            Ok(_) => {},
            Err(e) => {
                return Err(e);
            },
        }
        let expr = match self.munch_expr() {
            Ok(e) => e,
            Err(e) => {
                return Err(e);
            },
        };
        match self.expect(Token::Semicolon) {
            Ok(_) => Ok(Statement::Return(expr)),
            Err(e) => Err(e),
        }
    }

    /// The parenthesised parameter list of a signature, ending past the
    /// closing parenthesis.
    fn munch_params(&mut self) -> (r: Result<Vec<(String, Type)>, ParseError>)
        requires
            old(self).wf(),
        ensures
            final(self).wf(),
            final(self).tokens == old(self).tokens,
            final(self).pos >= old(self).pos,
            r is Ok ==> final(self).pos > old(self).pos,
        decreases old(self).rem(), 19int,
    {
        match self.expect(Token::LParen) {
            Ok(_) => {},
            Err(e) => {
                return Err(e);
            },
        }
        let mut args: Vec<(String, Type)> = Vec::new();
        loop
            invariant
                self.wf(),
                self.tokens == old(self).tokens,
                self.pos > old(self).pos,
            decreases self.rem(),
        {
            if self.pos >= self.tokens.len() {
                return Err(self.err_here(ExpectedItem::Tok(Token::RParen)));
            }
            if matches!(&self.tokens[self.pos].0, Token::RParen) {
                self.advance(1);
                return Ok(args);
            }
            let arg = match self.try_munch_variable_definition() {
                Ok(Some(a)) => a,
                Ok(None) => {
                    return Err(self.err_here(ExpectedItem::TypeKeyword));
                },
                Err(e) => {
                    return Err(e);
                },
            };
            if self.pos < self.tokens.len() && matches!(&self.tokens[self.pos].0, Token::Comma) {
                self.advance(1);
            } else if self.pos < self.tokens.len() && matches!(
                &self.tokens[self.pos].0,
                Token::RParen,
            ) {
                // the loop consumes it on the next round
            } else {
                return Err(self.err_here(ExpectedItem::ArgumentSeparator));
            }
            args.push(arg);
        }
    }

    /// `"extern" func_sig ";"`
    pub fn munch_external_function_declaration(&mut self) -> (r: Result<TopLevel, ParseError>)
        requires
            old(self).wf(),
        ensures
            final(self).wf(),
            final(self).tokens == old(self).tokens,
            final(self).pos >= old(self).pos,
            r is Ok ==> final(self).pos > old(self).pos,
        decreases old(self).rem(), 21int,
    {
        match self.expect(Token::Extern) {
            Ok(_) => {},
            Err(e) => {
                return Err(e);
            },
        }
        let (name, return_ty) = match self.try_munch_variable_definition() {
            Ok(Some(p)) => p,
            Ok(None) => {
                return Err(self.err_here(ExpectedItem::TypeKeyword));
            },
            Err(e) => {
                return Err(e);
            },
        };
        let args = match self.munch_params() {
            Ok(a) => a,
            Err(e) => {
                return Err(e);
            },
        };
        match self.expect(Token::Semicolon) {
            Ok(_) => {},
            Err(e) => {
                return Err(e);
            },
        }
        Ok(TopLevel::ExternalFunctionDeclaration(name, args, return_ty))
    }

    /// `func_sig "{" statement* "}"`
    pub fn munch_function_definition(&mut self) -> (r: Result<TopLevel, ParseError>)
        requires
            old(self).wf(),
        ensures
            final(self).wf(),
            final(self).tokens == old(self).tokens,
            final(self).pos >= old(self).pos,
            r is Ok ==> final(self).pos > old(self).pos,
        decreases old(self).rem(), 21int,
    {
        let (name, return_ty) = match self.try_munch_variable_definition() {
            Ok(Some(p)) => p,
            Ok(None) => {
                return Err(self.err_here(ExpectedItem::TypeKeyword));
            },
            Err(e) => {
                return Err(e);
            },
        };
        let args = match self.munch_params() {
            Ok(a) => a,
            Err(e) => {
                return Err(e);
            },
        };
        match self.expect(Token::LBrace) {
            Ok(_) => {},
            Err(e) => {
                return Err(e);
            },
        }
        let mut statements: Vec<Statement> = Vec::new();
        loop
            invariant
                self.wf(),
                self.tokens == old(self).tokens,
                self.pos > old(self).pos,
            decreases self.rem(),
        {
            if self.pos >= self.tokens.len() {
                return Err(self.err_here(ExpectedItem::Tok(Token::RBrace)));
            }
            if matches!(&self.tokens[self.pos].0, Token::RBrace) {
                self.advance(1);
                return Ok(TopLevel::FunctionDefinition(name, args, return_ty, statements));
            }
            let st = match self.munch_statement() {
                Ok(st) => st,
                Err(e) => {
                    return Err(e);
                },
            };
            statements.push(st);
        }
    }

    /// `top_level := "extern" func_sig ";" | func_sig "{" statement* "}"`
    pub fn munch_top_level(&mut self) -> (r: Result<TopLevel, ParseError>)
        requires
            old(self).wf(),
        ensures
            final(self).wf(),
            final(self).tokens == old(self).tokens,
            final(self).pos >= old(self).pos,
            r is Ok ==> final(self).pos > old(self).pos,
        decreases old(self).rem(), 22int,
    {
        if self.pos < self.tokens.len() && matches!(&self.tokens[self.pos].0, Token::Extern) {
            self.munch_external_function_declaration()
        } else {
            self.munch_function_definition()
        }
    }

    /// `program := top_level*`; on success every token is consumed.
    pub fn munch_program(&mut self) -> (r: Result<Vec<TopLevel>, ParseError>)
        requires
            old(self).wf(),
        ensures
            final(self).wf(),
            final(self).tokens == old(self).tokens,
            final(self).pos >= old(self).pos,
            r is Ok ==> final(self).pos == final(self).tokens@.len(),
        decreases old(self).rem(), 23int,
    {
        let mut items: Vec<TopLevel> = Vec::new();
        loop
            invariant
                self.wf(),
                self.tokens == old(self).tokens,
                self.pos >= old(self).pos,
            decreases self.rem(),
        {
            if self.fully_parsed() {
                return Ok(items);
            }
            let item = match self.munch_top_level() {
                Ok(t) => t,
                Err(e) => {
                    return Err(e);
                },
            };
            items.push(item);
        }
    }
}

} // verus!
