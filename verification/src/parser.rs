//! The recursive-descent parser: tokens to statements and expressions.
use vstd::prelude::*;
use crate::text::{dec, push_char, push_dec};
use crate::lexer::{Token, TokenKind, Tok, Kind, Tag, tag, toks_view};
use crate::ast::{
    Op, LogicOp, Expr, Stmt, SExpr, SStmt, exprs_view, pairs_view, kwargs_view, stmts_view,
    params_view, handlers_view, strs_view, opt_str_view, opt_expr_view, lemma_exprs_push,
    lemma_pairs_push, lemma_kwargs_push, lemma_stmts_push, lemma_params_push, lemma_handlers_push,
};

verus! {

// ----------------------------------------------------------------------
// The grammar, as functions of the token sequence
// ----------------------------------------------------------------------

/// What the parser reads: the file name used in messages, and the tokens.
pub struct Src {
    pub fname: Seq<char>,
    pub toks: Seq<Tok>,
}

/// A parse result: the value and the number of tokens consumed, or an error
/// message and the number of tokens consumed before it was found.
pub type PR<T> = Result<(T, nat), (Seq<char>, nat)>;

/// The tokens left from position `p` (the measure of every parse function).
pub open spec fn rem(c: Src, p: int) -> nat {
    if p <= c.toks.len() {
        (c.toks.len() - p) as nat
    } else {
        0
    }
}

pub open spec fn tok_at(c: Src, p: int) -> Tok {
    if 0 <= p < c.toks.len() {
        c.toks[p]
    } else {
        Tok { kind: Kind::Eof, line: 0, col: 0 }
    }
}

pub open spec fn kind_at(c: Src, p: int) -> Kind {
    tok_at(c, p).kind
}

/// Whether the token at `p` is of variant `t`.
pub open spec fn at(c: Src, p: int, t: Tag) -> bool {
    tag(kind_at(c, p)) == t
}

/// The name a `Name` token carries.
pub open spec fn name_at(c: Src, p: int) -> Seq<char> {
    match kind_at(c, p) {
        Kind::Name(n) => n,
        _ => Seq::empty(),
    }
}

/// An error located at the token at `p`: `file:line:col: msg`.
pub open spec fn err_at(c: Src, p: int, msg: Seq<char>) -> Seq<char> {
    c.fname + ":"@ + dec(tok_at(c, p).line as nat) + ":"@ + dec(tok_at(c, p).col as nat) + ": "@ + msg
}

pub open spec fn bump<T>(r: PR<T>, k: nat) -> PR<T> {
    match r {
        Ok((v, n)) => Ok((v, n + k)),
        Err((m, n)) => Err((m, n + k)),
    }
}

/// The number of tokens a parse consumed, whether it succeeded or not.
pub open spec fn used<T>(r: PR<T>) -> nat {
    match r {
        Ok((_, n)) => n,
        Err((_, n)) => n,
    }
}

pub open spec fn unary_of(op: Op, r: PR<SExpr>) -> PR<SExpr> {
    match r {
        Ok((e, n)) => Ok((SExpr::UnaryOp(op, Box::new(e)), n)),
        Err(e) => Err(e),
    }
}

/// Tokens that end a bare tuple (`a, b`).
pub open spec fn ends_tuple(k: Kind) -> bool {
    let t = tag(k);
    t == Tag::Equal || t == Tag::PlusEq || t == Tag::MinusEq || t == Tag::In || t == Tag::Colon
        || t == Tag::Newline || t == Tag::Eof || t == Tag::Rparen || t == Tag::Rbracket || t == Tag::Rbrace
}

pub open spec fn comp_op(k: Kind) -> Option<Op> {
    match k {
        Kind::Eqeq => Some(Op::Eq),
        Kind::Ne => Some(Op::Ne),
        Kind::Lt => Some(Op::Lt),
        Kind::Le => Some(Op::Le),
        Kind::Gt => Some(Op::Gt),
        Kind::Ge => Some(Op::Ge),
        _ => None,
    }
}

pub open spec fn add_op(k: Kind) -> Option<Op> {
    match k {
        Kind::Plus => Some(Op::Add),
        Kind::Minus => Some(Op::Sub),
        _ => None,
    }
}

pub open spec fn mul_op(k: Kind) -> Option<Op> {
    match k {
        Kind::Star => Some(Op::Mul),
        Kind::Slash => Some(Op::Div),
        Kind::Percent => Some(Op::Mod),
        _ => None,
    }
}

/// An expression list: one expression, or a tuple of comma-separated ones
/// with an optional trailing comma.
#[verifier::opaque]
pub open spec fn p_expr_list(c: Src, pos: int) -> PR<SExpr>
    decreases rem(c, pos), 24nat,
{
    match p_expr(c, pos) {
        Err(e) => Err(e),
        Ok((first, n)) => {
            let q = pos + n;
            if at(c, q, Tag::Comma) {
                if ends_tuple(kind_at(c, q + 1)) {
                    Ok((SExpr::Tuple(seq![first]), n + 1))
                } else {
                    match p_tuple_items(c, q + 1, seq![first]) {
                        Err((m, k)) => Err((m, n + 1 + k)),
                        Ok((items, k)) => Ok((SExpr::Tuple(items), n + 1 + k)),
                    }
                }
            } else {
                Ok((first, n))
            }
        },
    }
}

#[verifier::opaque]
pub open spec fn p_tuple_items(c: Src, p: int, items: Seq<SExpr>) -> PR<Seq<SExpr>>
    decreases rem(c, p), 23nat,
{
    match p_expr(c, p) {
        Err(e) => Err(e),
        Ok((e, n)) => {
            let items2 = items.push(e);
            let q = p + n;
            if !at(c, q, Tag::Comma) {
                Ok((items2, n))
            } else if ends_tuple(kind_at(c, q + 1)) {
                Ok((items2, n + 1))
            } else {
                bump(p_tuple_items(c, q + 1, items2), n + 1)
            }
        },
    }
}

/// Comma-separated expressions up to (not including) a closing `close`,
/// with an optional trailing comma.
#[verifier::opaque]
pub open spec fn p_comma_items(c: Src, p: int, items: Seq<SExpr>, close: Tag) -> PR<Seq<SExpr>>
    decreases rem(c, p), 23nat,
{
    match p_expr(c, p) {
        Err(e) => Err(e),
        Ok((e, n)) => {
            let items2 = items.push(e);
            let q = p + n;
            if !at(c, q, Tag::Comma) {
                Ok((items2, n))
            } else if at(c, q + 1, close) {
                Ok((items2, n + 1))
            } else {
                bump(p_comma_items(c, q + 1, items2, close), n + 1)
            }
        },
    }
}

/// `key: value` pairs of a dict display.
#[verifier::opaque]
pub open spec fn p_dict_items(c: Src, p: int, pairs: Seq<(SExpr, SExpr)>) -> PR<Seq<(SExpr, SExpr)>>
    decreases rem(c, p), 23nat,
{
    match p_expr(c, p) {
        Err(e) => Err(e),
        Ok((k, n)) => {
            let q = p + n;
            if !at(c, q, Tag::Colon) {
                Err((err_at(c, q, "expected ':'"@), n))
            } else {
                match p_expr(c, q + 1) {
                    Err((m, n2)) => Err((m, n + 1 + n2)),
                    Ok((v, n2)) => {
                        let pairs2 = pairs.push((k, v));
                        let r = q + 1 + n2;
                        if !at(c, r, Tag::Comma) {
                            Ok((pairs2, n + 1 + n2))
                        } else if at(c, r + 1, Tag::Rbrace) {
                            Ok((pairs2, n + 2 + n2))
                        } else {
                            bump(p_dict_items(c, r + 1, pairs2), n + 2 + n2)
                        }
                    },
                }
            }
        },
    }
}

/// The arguments of a call: positional ones, and `name=value` ones.
#[verifier::opaque]
pub open spec fn p_call_args(c: Src, p: int, args: Seq<SExpr>, kws: Seq<(Seq<char>, SExpr)>) -> PR<(Seq<SExpr>, Seq<(Seq<char>, SExpr)>)>
    decreases rem(c, p), 23nat,
{
    if at(c, p, Tag::Name) && at(c, p + 1, Tag::Equal) {
        match p_expr(c, p + 2) {
            Err((m, n)) => Err((m, n + 2)),
            Ok((v, n)) => {
                let kws2 = kws.push((name_at(c, p), v));
                let q = p + 2 + n;
                if !at(c, q, Tag::Comma) {
                    Ok(((args, kws2), n + 2))
                } else if at(c, q + 1, Tag::Rparen) {
                    Ok(((args, kws2), n + 3))
                } else {
                    bump(p_call_args(c, q + 1, args, kws2), n + 3)
                }
            },
        }
    } else {
        match p_expr(c, p) {
            Err(e) => Err(e),
            Ok((v, n)) => {
                let args2 = args.push(v);
                let q = p + n;
                if !at(c, q, Tag::Comma) {
                    Ok(((args2, kws), n))
                } else if at(c, q + 1, Tag::Rparen) {
                    Ok(((args2, kws), n + 1))
                } else {
                    bump(p_call_args(c, q + 1, args2, kws), n + 1)
                }
            },
        }
    }
}

/// A dotted module name `a.b.c`.
#[verifier::opaque]
pub open spec fn p_dotted(c: Src, pos: int) -> PR<Seq<char>>
    decreases rem(c, pos), 5nat,
{
    if !at(c, pos, Tag::Name) {
        Err((err_at(c, pos, "expected module name"@), 0))
    } else {
        bump(p_dotted_tail(c, pos + 1, name_at(c, pos)), 1)
    }
}

#[verifier::opaque]
pub open spec fn p_dotted_tail(c: Src, p: int, acc: Seq<char>) -> PR<Seq<char>>
    decreases rem(c, p), 4nat,
{
    if at(c, p, Tag::Dot) {
        if !at(c, p + 1, Tag::Name) {
            Err((err_at(c, p + 1, "expected module name after dot"@), 1))
        } else {
            bump(p_dotted_tail(c, p + 2, acc.push('.') + name_at(c, p + 1)), 2)
        }
    } else {
        Ok((acc, 0))
    }
}

/// An atom: a literal, a name, or a parenthesized, list or dict display.
#[verifier::opaque]
pub open spec fn p_atom(c: Src, pos: int) -> PR<SExpr>
    decreases rem(c, pos), 9nat,
{
    match kind_at(c, pos) {
        Kind::NoneVal => Ok((SExpr::NoneVal, 1)),
        Kind::TrueVal => Ok((SExpr::Bool(true), 1)),
        Kind::FalseVal => Ok((SExpr::Bool(false), 1)),
        Kind::Int(v) => Ok((SExpr::Int(v), 1)),
        Kind::Float(s) => Ok((SExpr::Float(s), 1)),
        Kind::Str(s) => Ok((SExpr::Str(s), 1)),
        Kind::FString(s) => Ok((SExpr::FString(s), 1)),
        Kind::Name(n) => Ok((SExpr::Name(n), 1)),
        Kind::Lparen => bump(p_paren(c, pos + 1), 1),
        Kind::Lbracket => bump(p_bracket(c, pos + 1), 1),
        Kind::Lbrace => bump(p_brace(c, pos + 1), 1),
        _ => Err((err_at(c, pos, "expected expr"@), 0)),
    }
}

/// After `(`: `()`, `(e)`, or a tuple display.
#[verifier::opaque]
pub open spec fn p_paren(c: Src, p: int) -> PR<SExpr>
    decreases rem(c, p), 23nat,
{
    if at(c, p, Tag::Rparen) {
        Ok((SExpr::Tuple(Seq::empty()), 1))
    } else {
        match p_expr(c, p) {
            Err(e) => Err(e),
            Ok((first, n)) => {
                let q = p + n;
                if at(c, q, Tag::Comma) {
                    if !at(c, q + 1, Tag::Rparen) {
                        match p_comma_items(c, q + 1, seq![first], Tag::Rparen) {
                            Err((m, k)) => Err((m, n + 1 + k)),
                            Ok((items, k)) => {
                                let r = q + 1 + k;
                                if !at(c, r, Tag::Rparen) {
                                    Err((err_at(c, r, "expected ')'"@), n + 1 + k))
                                } else {
                                    Ok((SExpr::Tuple(items), n + 2 + k))
                                }
                            },
                        }
                    } else {
                        Ok((SExpr::Tuple(seq![first]), n + 2))
                    }
                } else if !at(c, q, Tag::Rparen) {
                    Err((err_at(c, q, "expected ')'"@), n))
                } else {
                    Ok((first, n + 1))
                }
            },
        }
    }
}

/// After `[`: a list display or a list comprehension.
#[verifier::opaque]
pub open spec fn p_bracket(c: Src, p: int) -> PR<SExpr>
    decreases rem(c, p), 23nat,
{
    if at(c, p, Tag::Rbracket) {
        Ok((SExpr::List(Seq::empty()), 1))
    } else {
        match p_expr(c, p) {
            Err(e) => Err(e),
            Ok((first, n)) => {
                let q = p + n;
                if at(c, q, Tag::For) {
                    bump(p_comprehension(c, q + 1, first), n + 1)
                } else if at(c, q, Tag::Comma) && !at(c, q + 1, Tag::Rbracket) {
                    match p_comma_items(c, q + 1, seq![first], Tag::Rbracket) {
                        Err((m, k)) => Err((m, n + 1 + k)),
                        Ok((items, k)) => {
                            let r = q + 1 + k;
                            if !at(c, r, Tag::Rbracket) {
                                Err((err_at(c, r, "expected ']'"@), n + 1 + k))
                            } else {
                                Ok((SExpr::List(items), n + 2 + k))
                            }
                        },
                    }
                } else {
                    let r = if at(c, q, Tag::Comma) { q + 1 } else { q };
                    let k: nat = if at(c, q, Tag::Comma) { 1 } else { 0 };
                    if !at(c, r, Tag::Rbracket) {
                        Err((err_at(c, r, "expected ']'"@), n + k))
                    } else {
                        Ok((SExpr::List(seq![first]), n + k + 1))
                    }
                }
            },
        }
    }
}

/// After `[elt for`: the target, the iterable, an optional condition and `]`.
#[verifier::opaque]
pub open spec fn p_comprehension(c: Src, p: int, elt: SExpr) -> PR<SExpr>
    decreases rem(c, p), 25nat,
{
    match p_expr_list(c, p) {
        Err(e) => Err(e),
        Ok((target, n)) => {
            let q = p + n;
            if !at(c, q, Tag::In) {
                Err((err_at(c, q, "expected 'in'"@), n))
            } else {
                match p_expr(c, q + 1) {
                    Err((m, n2)) => Err((m, n + 1 + n2)),
                    Ok((iter, n2)) => {
                        let r = q + 1 + n2;
                        let done = |cond: Option<Box<SExpr>>, s: int, k: nat|
                            if !at(c, s, Tag::Rbracket) {
                                Err((err_at(c, s, "expected ']'"@), n + 1 + n2 + k))
                            } else {
                                Ok((SExpr::ListComp(Box::new(elt), Box::new(target), Box::new(iter), cond), n + 2 + n2 + k))
                            };
                        if at(c, r, Tag::If) {
                            match p_expr(c, r + 1) {
                                Err((m, n3)) => Err((m, n + 2 + n2 + n3)),
                                Ok((cd, n3)) => done(Some(Box::new(cd)), r + 1 + n3, n3 + 1),
                            }
                        } else {
                            done(None, r, 0)
                        }
                    },
                }
            }
        },
    }
}

/// After `{`: a dict display.
#[verifier::opaque]
pub open spec fn p_brace(c: Src, p: int) -> PR<SExpr>
    decreases rem(c, p), 24nat,
{
    if at(c, p, Tag::Rbrace) {
        Ok((SExpr::Dict(Seq::empty()), 1))
    } else {
        match p_dict_items(c, p, Seq::empty()) {
            Err(e) => Err(e),
            Ok((pairs, n)) => {
                let q = p + n;
                if !at(c, q, Tag::Rbrace) {
                    Err((err_at(c, q, "expected '}'"@), n))
                } else {
                    Ok((SExpr::Dict(pairs), n + 1))
                }
            },
        }
    }
}

/// Calls, attribute accesses and subscripts after an atom.
#[verifier::opaque]
pub open spec fn p_postfix(c: Src, p: int, e: SExpr) -> PR<SExpr>
    decreases rem(c, p), 8nat,
{
    if at(c, p, Tag::Lparen) {
        if at(c, p + 1, Tag::Rparen) {
            bump(p_postfix(c, p + 2, SExpr::Call(Box::new(e), Seq::empty(), Seq::empty())), 2)
        } else {
            match p_call_args(c, p + 1, Seq::empty(), Seq::empty()) {
                Err((m, n)) => Err((m, n + 1)),
                Ok(((args, kws), n)) => {
                    let q = p + 1 + n;
                    if !at(c, q, Tag::Rparen) {
                        Err((err_at(c, q, "expected ')'"@), n + 1))
                    } else {
                        bump(p_postfix(c, q + 1, SExpr::Call(Box::new(e), args, kws)), n + 2)
                    }
                },
            }
        }
    } else if at(c, p, Tag::Dot) {
        if !at(c, p + 1, Tag::Name) {
            Err((err_at(c, p + 1, "expected attr"@), 1))
        } else {
            bump(p_postfix(c, p + 2, SExpr::Attribute(Box::new(e), name_at(c, p + 1))), 2)
        }
    } else if at(c, p, Tag::Lbracket) {
        match p_expr(c, p + 1) {
            Err((m, n)) => Err((m, n + 1)),
            Ok((idx, n)) => {
                let q = p + 1 + n;
                if !at(c, q, Tag::Rbracket) {
                    Err((err_at(c, q, "expected ']'"@), n + 1))
                } else {
                    bump(p_postfix(c, q + 1, SExpr::Subscript(Box::new(e), Box::new(idx))), n + 2)
                }
            },
        }
    } else {
        Ok((e, 0))
    }
}

#[verifier::opaque]
pub open spec fn p_primary(c: Src, pos: int) -> PR<SExpr>
    decreases rem(c, pos), 10nat,
{
    match p_atom(c, pos) {
        Err(e) => Err(e),
        Ok((e, n)) => bump(p_postfix(c, pos + n, e), n),
    }
}

#[verifier::opaque]
pub open spec fn p_unary(c: Src, pos: int) -> PR<SExpr>
    decreases rem(c, pos), 11nat,
{
    if at(c, pos, Tag::Minus) {
        bump(unary_of(Op::Neg, p_unary(c, pos + 1)), 1)
    } else {
        p_primary(c, pos)
    }
}

#[verifier::opaque]
pub open spec fn p_factor(c: Src, pos: int) -> PR<SExpr>
    decreases rem(c, pos), 13nat,
{
    match p_unary(c, pos) {
        Err(e) => Err(e),
        Ok((e, n)) => bump(p_factor_tail(c, pos + n, e), n),
    }
}

#[verifier::opaque]
pub open spec fn p_factor_tail(c: Src, p: int, left: SExpr) -> PR<SExpr>
    decreases rem(c, p), 12nat,
{
    match mul_op(kind_at(c, p)) {
        Some(op) => match p_unary(c, p + 1) {
            Err((m, n)) => Err((m, n + 1)),
            Ok((r, n)) => bump(p_factor_tail(c, p + 1 + n, SExpr::BinOp(op, Box::new(left), Box::new(r))), n + 1),
        },
        None => Ok((left, 0)),
    }
}

#[verifier::opaque]
pub open spec fn p_term(c: Src, pos: int) -> PR<SExpr>
    decreases rem(c, pos), 15nat,
{
    match p_factor(c, pos) {
        Err(e) => Err(e),
        Ok((e, n)) => bump(p_term_tail(c, pos + n, e), n),
    }
}

#[verifier::opaque]
pub open spec fn p_term_tail(c: Src, p: int, left: SExpr) -> PR<SExpr>
    decreases rem(c, p), 14nat,
{
    match add_op(kind_at(c, p)) {
        Some(op) => match p_factor(c, p + 1) {
            Err((m, n)) => Err((m, n + 1)),
            Ok((r, n)) => bump(p_term_tail(c, p + 1 + n, SExpr::BinOp(op, Box::new(left), Box::new(r))), n + 1),
        },
        None => Ok((left, 0)),
    }
}

#[verifier::opaque]
pub open spec fn p_comp(c: Src, pos: int) -> PR<SExpr>
    decreases rem(c, pos), 17nat,
{
    match p_term(c, pos) {
        Err(e) => Err(e),
        Ok((e, n)) => bump(p_comp_tail(c, pos + n, e), n),
    }
}

#[verifier::opaque]
pub open spec fn p_comp_tail(c: Src, p: int, left: SExpr) -> PR<SExpr>
    decreases rem(c, p), 16nat,
{
    match comp_op(kind_at(c, p)) {
        Some(op) => match p_term(c, p + 1) {
            Err((m, n)) => Err((m, n + 1)),
            Ok((r, n)) => bump(p_comp_tail(c, p + 1 + n, SExpr::Compare(op, Box::new(left), Box::new(r))), n + 1),
        },
        None => Ok((left, 0)),
    }
}

#[verifier::opaque]
pub open spec fn p_not(c: Src, pos: int) -> PR<SExpr>
    decreases rem(c, pos), 18nat,
{
    if at(c, pos, Tag::Not) {
        bump(unary_of(Op::Not, p_not(c, pos + 1)), 1)
    } else {
        p_comp(c, pos)
    }
}

#[verifier::opaque]
pub open spec fn p_and(c: Src, pos: int) -> PR<SExpr>
    decreases rem(c, pos), 20nat,
{
    match p_not(c, pos) {
        Err(e) => Err(e),
        Ok((e, n)) => bump(p_and_tail(c, pos + n, e), n),
    }
}

#[verifier::opaque]
pub open spec fn p_and_tail(c: Src, p: int, left: SExpr) -> PR<SExpr>
    decreases rem(c, p), 19nat,
{
    if at(c, p, Tag::And) {
        match p_not(c, p + 1) {
            Err((m, n)) => Err((m, n + 1)),
            Ok((r, n)) => bump(p_and_tail(c, p + 1 + n, SExpr::Logical(LogicOp::And, Box::new(left), Box::new(r))), n + 1),
        }
    } else {
        Ok((left, 0))
    }
}

#[verifier::opaque]
pub open spec fn p_or_tail(c: Src, p: int, left: SExpr) -> PR<SExpr>
    decreases rem(c, p), 21nat,
{
    if at(c, p, Tag::Or) {
        match p_and(c, p + 1) {
            Err((m, n)) => Err((m, n + 1)),
            Ok((r, n)) => bump(p_or_tail(c, p + 1 + n, SExpr::Logical(LogicOp::Or, Box::new(left), Box::new(r))), n + 1),
        }
    } else {
        Ok((left, 0))
    }
}

/// The names of a lambda's parameters.
#[verifier::opaque]
pub open spec fn p_lambda_params(c: Src, p: int, ps: Seq<Seq<char>>) -> PR<Seq<Seq<char>>>
    decreases rem(c, p), 5nat,
{
    if !at(c, p, Tag::Name) {
        Err((err_at(c, p, "expected param"@), 0))
    } else {
        let ps2 = ps.push(name_at(c, p));
        if at(c, p + 1, Tag::Comma) {
            bump(p_lambda_params(c, p + 2, ps2), 2)
        } else {
            Ok((ps2, 1))
        }
    }
}

/// An expression: a lambda, or an `or` of `and`s.
#[verifier::opaque]
pub open spec fn p_expr(c: Src, pos: int) -> PR<SExpr>
    decreases rem(c, pos), 22nat,
{
    if at(c, pos, Tag::Lambda) {
        let p = pos + 1;
        let ps_r: PR<Seq<Seq<char>>> = if at(c, p, Tag::Colon) {
            Ok((Seq::empty(), 1))
        } else {
            match p_lambda_params(c, p, Seq::empty()) {
                Err(e) => Err(e),
                Ok((ps, n)) => if !at(c, p + n, Tag::Colon) {
                    Err((err_at(c, p + n, "expected ':'"@), n))
                } else {
                    Ok((ps, n + 1))
                },
            }
        };
        match ps_r {
            Err((m, n)) => Err((m, n + 1)),
            Ok((ps, n)) => match p_expr(c, p + n) {
                Err((m, k)) => Err((m, n + 1 + k)),
                Ok((body, k)) => Ok((SExpr::Lambda(ps, Box::new(body)), n + 1 + k)),
            },
        }
    } else {
        match p_and(c, pos) {
            Err(e) => Err(e),
            Ok((e, n)) => bump(p_or_tail(c, pos + n, e), n),
        }
    }
}


/// The number of consecutive `Newline` tokens from `p`.
pub open spec fn newlines(c: Src, p: int) -> nat
    decreases rem(c, p),
{
    if at(c, p, Tag::Newline) {
        1 + newlines(c, p + 1)
    } else {
        0
    }
}

/// Expects the token at `p` to be of variant `t`; otherwise the error `msg`.
pub open spec fn expect_then<T>(c: Src, p: int, t: Tag, msg: Seq<char>, v: T) -> PR<T> {
    if !at(c, p, t) {
        Err((err_at(c, p, msg), 0))
    } else {
        Ok((v, 1))
    }
}

/// A block: an indented suite after a line break, or one simple statement.
#[verifier::opaque]
pub open spec fn p_block(c: Src, pos: int) -> PR<Seq<SStmt>>
    decreases rem(c, pos), 28nat,
{
    if at(c, pos, Tag::Newline) {
        if !at(c, pos + 1, Tag::Indent) {
            Err((err_at(c, pos + 1, "expected indent"@), 1))
        } else {
            let k = newlines(c, pos + 2);
            let q = pos + 2 + k;
            match p_block_items(c, q, Seq::empty()) {
                Err((m, n)) => Err((m, n + 2 + k)),
                Ok((b, n)) => {
                    let r = q + n;
                    if !at(c, r, Tag::Dedent) {
                        Err((err_at(c, r, "expected dedent"@), n + 2 + k))
                    } else {
                        Ok((b, n + 3 + k))
                    }
                },
            }
        }
    } else {
        match p_stmt(c, pos) {
            Err(e) => Err(e),
            Ok((s, n)) => Ok((seq![s], n)),
        }
    }
}

/// The statements of an indented block, up to its `Dedent` (or the end).
/// A statement always consumes a token (`lemma_stmt_progress`); the case
/// where none is consumed only makes the recursion visibly finite.
#[verifier::opaque]
pub open spec fn p_block_items(c: Src, p: int, b: Seq<SStmt>) -> PR<Seq<SStmt>>
    decreases rem(c, p), 27nat,
{
    if at(c, p, Tag::Dedent) || at(c, p, Tag::Eof) {
        Ok((b, 0))
    } else {
        match p_stmt(c, p) {
            Err(e) => Err(e),
            Ok((s, n)) => {
                let k = newlines(c, p + n);
                if n + k == 0 {
                    Ok((b.push(s), 0))
                } else {
                    bump(p_block_items(c, p + n + k, b.push(s)), n + k)
                }
            },
        }
    }
}

/// A whole module: statements up to the end of the stream.
#[verifier::opaque]
pub open spec fn p_module(c: Src, pos: int) -> PR<Seq<SStmt>> {
    let k = newlines(c, pos);
    bump(p_module_items(c, pos + k, Seq::empty()), k)
}

/// The statements of a module from `p`. A statement always consumes a token
/// (`lemma_stmt_progress`); the case where none is consumed only makes the
/// recursion visibly finite.
#[verifier::opaque]
pub open spec fn p_module_items(c: Src, p: int, b: Seq<SStmt>) -> PR<Seq<SStmt>>
    decreases rem(c, p), 27nat,
{
    if at(c, p, Tag::Eof) {
        Ok((b, 0))
    } else {
        match p_stmt(c, p) {
            Err(e) => Err(e),
            Ok((s, n)) => {
                let k = newlines(c, p + n);
                if n + k == 0 {
                    Ok((b.push(s), 0))
                } else {
                    bump(p_module_items(c, p + n + k, b.push(s)), n + k)
                }
            },
        }
    }
}

/// Ends a simple statement: expects a `Newline`.
pub open spec fn end_simple(c: Src, p: int, s: SStmt) -> PR<SStmt> {
    expect_then(c, p, Tag::Newline, "expected newline"@, s)
}

/// A statement.
#[verifier::opaque]
pub open spec fn p_stmt(c: Src, pos: int) -> PR<SStmt>
    decreases rem(c, pos), 26nat,
{
    let p = pos + 1;
    if at(c, pos, Tag::Import) {
        bump(p_import(c, p), 1)
    } else if at(c, pos, Tag::From) {
        bump(p_from(c, p), 1)
    } else if at(c, pos, Tag::Def) {
        bump(p_def(c, p), 1)
    } else if at(c, pos, Tag::Class) {
        bump(p_class(c, p), 1)
    } else if at(c, pos, Tag::Try) {
        bump(p_try(c, p), 1)
    } else if at(c, pos, Tag::Raise) {
        match p_expr(c, p) {
            Err((m, n)) => Err((m, n + 1)),
            Ok((e, n)) => bump(end_simple(c, p + n, SStmt::Raise(e)), n + 1),
        }
    } else if at(c, pos, Tag::If) {
        bump(p_if(c, p), 1)
    } else if at(c, pos, Tag::While) {
        bump(p_while(c, p), 1)
    } else if at(c, pos, Tag::For) {
        bump(p_for(c, p), 1)
    } else if at(c, pos, Tag::Return) {
        if at(c, p, Tag::Newline) {
            Ok((SStmt::Return(None), 2))
        } else {
            match p_expr_list(c, p) {
                Err((m, n)) => Err((m, n + 1)),
                Ok((e, n)) => bump(end_simple(c, p + n, SStmt::Return(Some(e))), n + 1),
            }
        }
    } else if at(c, pos, Tag::Break) {
        bump(end_simple(c, p, SStmt::Break), 1)
    } else if at(c, pos, Tag::Continue) {
        bump(end_simple(c, p, SStmt::Continue), 1)
    } else if at(c, pos, Tag::Pass) {
        bump(end_simple(c, p, SStmt::Pass), 1)
    } else if at(c, pos, Tag::Yield) {
        if at(c, p, Tag::Newline) {
            Ok((SStmt::Yield(None), 2))
        } else {
            match p_expr_list(c, p) {
                Err((m, n)) => Err((m, n + 1)),
                Ok((e, n)) => bump(end_simple(c, p + n, SStmt::Yield(Some(e))), n + 1),
            }
        }
    } else if at(c, pos, Tag::At) {
        match p_expr(c, p) {
            Err((m, n)) => Err((m, n + 1)),
            Ok((d, n)) => {
                let q = p + n;
                if !at(c, q, Tag::Newline) {
                    Err((err_at(c, q, "expected newline"@), n + 1))
                } else if !(at(c, q + 1, Tag::Def) || at(c, q + 1, Tag::Class) || at(c, q + 1, Tag::At)) {
                    Err((err_at(c, q + 1, "expected def or class after decorator"@), n + 2))
                } else {
                    match p_stmt(c, q + 1) {
                        Err((m, k)) => Err((m, n + 2 + k)),
                        Ok((s, k)) => Ok((SStmt::Decorated(d, Box::new(s)), n + 2 + k)),
                    }
                }
            },
        }
    } else {
        match p_expr_list(c, pos) {
            Err(e) => Err(e),
            Ok((e, n)) => bump(p_stmt_tail(c, pos + n, e), n),
        }
    }
}

#[verifier::opaque]
pub open spec fn p_import(c: Src, p: int) -> PR<SStmt>
    decreases rem(c, p), 25nat,
{
    match p_dotted(c, p) {
        Err(e) => Err(e),
        Ok((n, k)) => bump(end_simple(c, p + k, SStmt::Import(n)), k),
    }
}

/// The number of consecutive `Dot` tokens from `p`.
pub open spec fn dots(c: Src, p: int) -> nat
    decreases rem(c, p),
{
    if at(c, p, Tag::Dot) {
        1 + dots(c, p + 1)
    } else {
        0
    }
}

#[verifier::opaque]
pub open spec fn p_import_names(c: Src, p: int, ns: Seq<Seq<char>>) -> PR<Seq<Seq<char>>>
    decreases rem(c, p),
{
    if !at(c, p, Tag::Name) {
        Err((err_at(c, p, "expected name"@), 0))
    } else {
        let ns2 = ns.push(name_at(c, p));
        if at(c, p + 1, Tag::Comma) {
            bump(p_import_names(c, p + 2, ns2), 2)
        } else {
            Ok((ns2, 1))
        }
    }
}

#[verifier::opaque]
pub open spec fn p_from(c: Src, p: int) -> PR<SStmt>
    decreases rem(c, p), 25nat,
{
    let level = dots(c, p);
    let q = p + level;
    match p_dotted(c, q) {
        Err((m, k)) => Err((m, k + level)),
        Ok((module, k)) => {
            let r = q + k;
            if !at(c, r, Tag::Import) {
                Err((err_at(c, r, "expected 'import'"@), k + level))
            } else {
                match p_import_names(c, r + 1, Seq::empty()) {
                    Err((m, k2)) => Err((m, k + level + 1 + k2)),
                    Ok((names, k2)) => bump(
                        end_simple(c, r + 1 + k2, SStmt::FromImport(module, names, level as int)),
                        k + level + 1 + k2,
                    ),
                }
            }
        },
    }
}

/// An optional `: annotation`, skipped: the tokens it takes, whether or not
/// the annotation parses.
pub open spec fn annot(c: Src, p: int) -> nat
    decreases rem(c, p), 23nat,
{
    if at(c, p, Tag::Colon) {
        1 + used(p_expr(c, p + 1))
    } else {
        0
    }
}

/// The parameters collected so far: named ones with defaults, `*args`, `**kwargs`.
pub type Params = (Seq<(Seq<char>, Option<SExpr>)>, Option<Seq<char>>, Option<Seq<char>>);

/// The parameter list of a `def`, up to (not including) its `)`.
#[verifier::opaque]
pub open spec fn p_def_params(c: Src, p: int, acc: Params) -> PR<Params>
    decreases rem(c, p), 24nat,
{
    if at(c, p, Tag::Star) {
        let double = at(c, p + 1, Tag::Star);
        let np = if double { p + 2 } else { p + 1 };
        if !at(c, np, Tag::Name) {
            let msg = if double { "expected kwarg name"@ } else { "expected vararg name"@ };
            Err((err_at(c, np, msg), (np - p) as nat))
        } else {
            let acc2 = if double { (acc.0, acc.1, Some(name_at(c, np))) } else { (acc.0, Some(name_at(c, np)), acc.2) };
            let a = np + 1 + annot(c, np + 1);
            let b = if at(c, a, Tag::Comma) { a + 1 } else { a };
            if at(c, b, Tag::Rparen) {
                Ok((acc2, (b - p) as nat))
            } else {
                bump(p_def_params(c, b, acc2), (b - p) as nat)
            }
        }
    } else if at(c, p, Tag::Name) {
        let a = p + 1 + annot(c, p + 1);
        let d: PR<Option<SExpr>> = if at(c, a, Tag::Equal) {
            match p_expr(c, a + 1) {
                Err((m, n)) => Err((m, n + 1)),
                Ok((v, n)) => Ok((Some(v), n + 1)),
            }
        } else {
            Ok((None, 0))
        };
        match d {
            Err((m, n)) => Err((m, (a - p) as nat + n)),
            Ok((dv, n)) => {
                let acc2 = (acc.0.push((name_at(c, p), dv)), acc.1, acc.2);
                let q = a + n;
                if !at(c, q, Tag::Comma) {
                    Ok((acc2, (q - p) as nat))
                } else if at(c, q + 1, Tag::Rparen) {
                    Ok((acc2, (q + 1 - p) as nat))
                } else {
                    bump(p_def_params(c, q + 1, acc2), (q + 1 - p) as nat)
                }
            },
        }
    } else {
        Err((err_at(c, p, "expected parameter name"@), 0))
    }
}

/// After `def`.
#[verifier::opaque]
pub open spec fn p_def(c: Src, p: int) -> PR<SStmt>
    decreases rem(c, p), 25nat,
{
    if !at(c, p, Tag::Name) {
        Err((err_at(c, p, "expected name"@), 0))
    } else if !at(c, p + 1, Tag::Lparen) {
        Err((err_at(c, p + 1, "expected '('"@), 1))
    } else {
        let q = p + 2;
        let ps: PR<Params> = if at(c, q, Tag::Rparen) {
            Ok(((Seq::empty(), None, None), 1))
        } else {
            match p_def_params(c, q, (Seq::empty(), None, None)) {
                Err(e) => Err(e),
                Ok((v, n)) => if !at(c, q + n, Tag::Rparen) {
                    Err((err_at(c, q + n, "expected ')'"@), n))
                } else {
                    Ok((v, n + 1))
                },
            }
        };
        match ps {
            Err((m, n)) => Err((m, n + 2)),
            Ok((params, n)) => {
                let a = q + n;
                let b = if at(c, a, Tag::Rarrow) { a + 1 + used(p_expr(c, a + 1)) } else { a };
                if !at(c, b, Tag::Colon) {
                    Err((err_at(c, b, "expected ':'"@), (b - p) as nat))
                } else {
                    match p_block(c, b + 1) {
                        Err((m, k)) => Err((m, (b + 1 - p) as nat + k)),
                        Ok((body, k)) => Ok((
                            SStmt::FunctionDef(name_at(c, p), params.0, params.1, params.2, body),
                            (b + 1 - p) as nat + k,
                        )),
                    }
                }
            },
        }
    }
}

/// After `class`.
#[verifier::opaque]
pub open spec fn p_class(c: Src, p: int) -> PR<SStmt>
    decreases rem(c, p), 25nat,
{
    if !at(c, p, Tag::Name) {
        Err((err_at(c, p, "expected class name"@), 0))
    } else {
        let q = p + 1;
        let base: PR<Option<SExpr>> = if at(c, q, Tag::Lparen) {
            match p_expr(c, q + 1) {
                Err((m, n)) => Err((m, n + 1)),
                Ok((b, n)) => if !at(c, q + 1 + n, Tag::Rparen) {
                    Err((err_at(c, q + 1 + n, "expected ')'"@), n + 1))
                } else {
                    Ok((Some(b), n + 2))
                },
            }
        } else {
            Ok((None, 0))
        };
        match base {
            Err((m, n)) => Err((m, n + 1)),
            Ok((bv, n)) => {
                let s = q + n;
                if !at(c, s, Tag::Colon) {
                    Err((err_at(c, s, "expected ':'"@), n + 1))
                } else {
                    match p_block(c, s + 1) {
                        Err((m, k)) => Err((m, n + 2 + k)),
                        Ok((body, k)) => Ok((SStmt::ClassDef(name_at(c, p), bv, body), n + 2 + k)),
                    }
                }
            },
        }
    }
}

#[verifier::opaque]
pub open spec fn p_exc_names(c: Src, p: int, ts: Seq<Seq<char>>) -> PR<Seq<Seq<char>>>
    decreases rem(c, p),
{
    if !at(c, p, Tag::Name) {
        Err((err_at(c, p, "expected exc name"@), 0))
    } else {
        let ts2 = ts.push(name_at(c, p));
        if at(c, p + 1, Tag::Comma) {
            bump(p_exc_names(c, p + 2, ts2), 2)
        } else {
            Ok((ts2, 1))
        }
    }
}

pub type Handler = (Seq<Seq<char>>, Option<Seq<char>>, Seq<SStmt>);

/// The `except` clauses of a `try`.
#[verifier::opaque]
pub open spec fn p_handlers(c: Src, p: int, hs: Seq<Handler>) -> PR<Seq<Handler>>
    decreases rem(c, p), 29nat,
{
    if !at(c, p, Tag::Except) {
        Ok((hs, 0))
    } else {
        let q = p + 1;
        let types: PR<Seq<Seq<char>>> = if at(c, q, Tag::Lparen) {
            match p_exc_names(c, q + 1, Seq::empty()) {
                Err((m, n)) => Err((m, n + 1)),
                Ok((ts, n)) => if !at(c, q + 1 + n, Tag::Rparen) {
                    Err((err_at(c, q + 1 + n, "expected ')'"@), n + 1))
                } else {
                    Ok((ts, n + 2))
                },
            }
        } else if at(c, q, Tag::Name) {
            Ok((seq![name_at(c, q)], 1))
        } else {
            Ok((Seq::empty(), 0))
        };
        match types {
            Err((m, n)) => Err((m, n + 1)),
            Ok((ts, n)) => {
                let a = q + n;
                let bound: PR<Option<Seq<char>>> = if ts.len() > 0 && at(c, a, Tag::As) {
                    if !at(c, a + 1, Tag::Name) {
                        Err((err_at(c, a + 1, "expected var"@), 1))
                    } else {
                        Ok((Some(name_at(c, a + 1)), 2))
                    }
                } else {
                    Ok((None, 0))
                };
                match bound {
                    Err((m, k)) => Err((m, n + 1 + k)),
                    Ok((asn, k)) => {
                        let b = a + k;
                        if !at(c, b, Tag::Colon) {
                            Err((err_at(c, b, "expected ':'"@), n + 1 + k))
                        } else {
                            match p_block(c, b + 1) {
                                Err((m, k2)) => Err((m, n + 2 + k + k2)),
                                Ok((body, k2)) => {
                                    let e = b + 1 + k2;
                                    let nl = newlines(c, e);
                                    bump(p_handlers(c, e + nl, hs.push((ts, asn, body))), n + 2 + k + k2 + nl)
                                },
                            }
                        }
                    },
                }
            },
        }
    }
}

/// After `try`.
#[verifier::opaque]
pub open spec fn p_try(c: Src, p: int) -> PR<SStmt>
    decreases rem(c, p), 30nat,
{
    if !at(c, p, Tag::Colon) {
        Err((err_at(c, p, "expected ':'"@), 0))
    } else {
        match p_block(c, p + 1) {
            Err((m, n)) => Err((m, n + 1)),
            Ok((body, n)) => {
                let q = p + 1 + n;
                let nl = newlines(c, q);
                match p_handlers(c, q + nl, Seq::empty()) {
                    Err((m, k)) => Err((m, n + 1 + nl + k)),
                    Ok((hs, k)) => if hs.len() == 0 {
                        Err(("expected 'except' block"@, n + 1 + nl + k))
                    } else {
                        Ok((SStmt::Try(body, hs), n + 1 + nl + k))
                    },
                }
            },
        }
    }
}

/// Nests `elif` clauses into the `else` branch, innermost last.
pub open spec fn fold_elifs(elifs: Seq<(SExpr, Seq<SStmt>)>, els: Seq<SStmt>) -> Seq<SStmt>
    decreases elifs.len(),
{
    if elifs.len() == 0 {
        els
    } else {
        fold_elifs(elifs.drop_last(), seq![SStmt::If(elifs.last().0, elifs.last().1, els)])
    }
}

/// A condition, a `:` and a block.
#[verifier::opaque]
pub open spec fn p_cond_block(c: Src, p: int) -> PR<(SExpr, Seq<SStmt>)>
    decreases rem(c, p), 29nat,
{
    match p_expr(c, p) {
        Err(e) => Err(e),
        Ok((t, n)) => if !at(c, p + n, Tag::Colon) {
            Err((err_at(c, p + n, "expected ':'"@), n))
        } else {
            match p_block(c, p + n + 1) {
                Err((m, k)) => Err((m, n + 1 + k)),
                Ok((b, k)) => Ok(((t, b), n + 1 + k)),
            }
        },
    }
}

/// The `elif` clauses of an `if`.
#[verifier::opaque]
pub open spec fn p_elifs(c: Src, p: int, acc: Seq<(SExpr, Seq<SStmt>)>) -> PR<Seq<(SExpr, Seq<SStmt>)>>
    decreases rem(c, p), 30nat,
{
    if !at(c, p, Tag::Elif) {
        Ok((acc, 0))
    } else {
        match p_cond_block(c, p + 1) {
            Err((m, n)) => Err((m, n + 1)),
            Ok((tb, n)) => {
                let nl = newlines(c, p + 1 + n);
                bump(p_elifs(c, p + 1 + n + nl, acc.push(tb)), n + 1 + nl)
            },
        }
    }
}

/// After `if`.
#[verifier::opaque]
pub open spec fn p_if(c: Src, p: int) -> PR<SStmt>
    decreases rem(c, p), 31nat,
{
    match p_cond_block(c, p) {
        Err(e) => Err(e),
        Ok(((test, body), n)) => {
            let q = p + n;
            let nl = newlines(c, q);
            match p_elifs(c, q + nl, Seq::empty()) {
                Err((m, k)) => Err((m, n + nl + k)),
                Ok((elifs, k)) => {
                    let r = q + nl + k;
                    if at(c, r, Tag::Else) {
                        if !at(c, r + 1, Tag::Colon) {
                            Err((err_at(c, r + 1, "expected ':'"@), n + nl + k + 1))
                        } else {
                            match p_block(c, r + 2) {
                                Err((m, k2)) => Err((m, n + nl + k + 2 + k2)),
                                Ok((els, k2)) => Ok((SStmt::If(test, body, fold_elifs(elifs, els)), n + nl + k + 2 + k2)),
                            }
                        }
                    } else {
                        Ok((SStmt::If(test, body, fold_elifs(elifs, Seq::empty())), n + nl + k))
                    }
                },
            }
        },
    }
}

/// After `while`.
#[verifier::opaque]
pub open spec fn p_while(c: Src, p: int) -> PR<SStmt>
    decreases rem(c, p), 30nat,
{
    match p_cond_block(c, p) {
        Err(e) => Err(e),
        Ok(((test, body), n)) => Ok((SStmt::While(test, body), n)),
    }
}

/// After `for`.
#[verifier::opaque]
pub open spec fn p_for(c: Src, p: int) -> PR<SStmt>
    decreases rem(c, p), 30nat,
{
    match p_expr_list(c, p) {
        Err(e) => Err(e),
        Ok((target, n)) => {
            let q = p + n;
            if !at(c, q, Tag::In) {
                Err((err_at(c, q, "expected 'in'"@), n))
            } else {
                match p_expr_list(c, q + 1) {
                    Err((m, k)) => Err((m, n + 1 + k)),
                    Ok((iter, k)) => {
                        let r = q + 1 + k;
                        if !at(c, r, Tag::Colon) {
                            Err((err_at(c, r, "expected ':'"@), n + 1 + k))
                        } else {
                            match p_block(c, r + 1) {
                                Err((m, k2)) => Err((m, n + 2 + k + k2)),
                                Ok((body, k2)) => Ok((SStmt::For(target, iter, body), n + 2 + k + k2)),
                            }
                        }
                    },
                }
            }
        },
    }
}

pub open spec fn is_assign_op(c: Src, p: int) -> bool {
    at(c, p, Tag::Equal) || at(c, p, Tag::PlusEq) || at(c, p, Tag::MinusEq)
}

/// The value of an assignment, then its line end; an augmented assignment
/// `t op= v` becomes `t = t op v` and needs a target that is not a tuple or list.
#[verifier::opaque]
pub open spec fn p_assign_rest(c: Src, p: int, target: SExpr, is_aug: bool, op: Op) -> PR<SStmt>
    decreases rem(c, p), 25nat,
{
    match p_expr_list(c, p) {
        Err(e) => Err(e),
        Ok((val, n)) => {
            let q = p + n;
            if !at(c, q, Tag::Newline) {
                Err((err_at(c, q, "expected newline"@), n))
            } else if is_aug {
                if target is Tuple || target is List {
                    Err(("SyntaxError: illegal target for augmentation"@, n + 1))
                } else {
                    Ok((SStmt::Assign(target, SExpr::BinOp(op, Box::new(target), Box::new(val))), n + 1))
                }
            } else {
                Ok((SStmt::Assign(target, val), n + 1))
            }
        },
    }
}

/// What follows an expression statement's expression: an assignment, an
/// annotated assignment (the annotation skipped), or the line end.
#[verifier::opaque]
pub open spec fn p_stmt_tail(c: Src, p: int, e: SExpr) -> PR<SStmt>
    decreases rem(c, p), 25nat,
{
    if is_assign_op(c, p) {
        let op = if at(c, p, Tag::PlusEq) { Op::Add } else { Op::Sub };
        bump(p_assign_rest(c, p + 1, e, !at(c, p, Tag::Equal), op), 1)
    } else if at(c, p, Tag::Colon) {
        let q = p + 1;
        let r = q + used(p_expr(c, q));
        if is_assign_op(c, q) {
            let is_aug = at(c, r, Tag::PlusEq) || at(c, r, Tag::MinusEq);
            let op = if is_aug && at(c, r, Tag::MinusEq) { Op::Sub } else { Op::Add };
            let s = if is_aug { r + 1 } else { r };
            bump(p_assign_rest(c, s, e, is_aug, op), (s - p) as nat)
        } else if is_assign_op(c, r) {
            let op = if at(c, r, Tag::PlusEq) { Op::Add } else { Op::Sub };
            bump(p_assign_rest(c, r + 1, e, !at(c, r, Tag::Equal), op), (r + 1 - p) as nat)
        } else {
            bump(end_simple(c, r, SStmt::Expr(e)), (r - p) as nat)
        }
    } else {
        end_simple(c, p, SStmt::Expr(e))
    }
}





// ----------------------------------------------------------------------
// One-step unfoldings of the grammar functions
// ----------------------------------------------------------------------

pub proof fn unfold_p_expr_list(c: Src, pos: int)
    ensures
        p_expr_list(c, pos) == ({
    match p_expr(c, pos) {
        Err(e) => Err(e),
        Ok((first, n)) => {
            let q = pos + n;
            if at(c, q, Tag::Comma) {
                if ends_tuple(kind_at(c, q + 1)) {
                    Ok((SExpr::Tuple(seq![first]), n + 1))
                } else {
                    match p_tuple_items(c, q + 1, seq![first]) {
                        Err((m, k)) => Err((m, n + 1 + k)),
                        Ok((items, k)) => Ok((SExpr::Tuple(items), n + 1 + k)),
                    }
                }
            } else {
                Ok((first, n))
            }
        },
    }
        }),
{
    reveal_with_fuel(p_expr_list, 1);
    reveal_with_fuel(p_expr, 1);
    reveal_with_fuel(p_tuple_items, 1);
}

pub proof fn unfold_p_tuple_items(c: Src, p: int, items: Seq<SExpr>)
    ensures
        p_tuple_items(c, p, items) == ({
    match p_expr(c, p) {
        Err(e) => Err(e),
        Ok((e, n)) => {
            let items2 = items.push(e);
            let q = p + n;
            if !at(c, q, Tag::Comma) {
                Ok((items2, n))
            } else if ends_tuple(kind_at(c, q + 1)) {
                Ok((items2, n + 1))
            } else {
                bump(p_tuple_items(c, q + 1, items2), n + 1)
            }
        },
    }
        }),
{
    reveal_with_fuel(p_tuple_items, 1);
    reveal_with_fuel(p_expr, 1);
}

pub proof fn unfold_p_comma_items(c: Src, p: int, items: Seq<SExpr>, close: Tag)
    ensures
        p_comma_items(c, p, items, close) == ({
    match p_expr(c, p) {
        Err(e) => Err(e),
        Ok((e, n)) => {
            let items2 = items.push(e);
            let q = p + n;
            if !at(c, q, Tag::Comma) {
                Ok((items2, n))
            } else if at(c, q + 1, close) {
                Ok((items2, n + 1))
            } else {
                bump(p_comma_items(c, q + 1, items2, close), n + 1)
            }
        },
    }
        }),
{
    reveal_with_fuel(p_comma_items, 1);
    reveal_with_fuel(p_expr, 1);
}

pub proof fn unfold_p_dict_items(c: Src, p: int, pairs: Seq<(SExpr, SExpr)>)
    ensures
        p_dict_items(c, p, pairs) == ({
    match p_expr(c, p) {
        Err(e) => Err(e),
        Ok((k, n)) => {
            let q = p + n;
            if !at(c, q, Tag::Colon) {
                Err((err_at(c, q, "expected ':'"@), n))
            } else {
                match p_expr(c, q + 1) {
                    Err((m, n2)) => Err((m, n + 1 + n2)),
                    Ok((v, n2)) => {
                        let pairs2 = pairs.push((k, v));
                        let r = q + 1 + n2;
                        if !at(c, r, Tag::Comma) {
                            Ok((pairs2, n + 1 + n2))
                        } else if at(c, r + 1, Tag::Rbrace) {
                            Ok((pairs2, n + 2 + n2))
                        } else {
                            bump(p_dict_items(c, r + 1, pairs2), n + 2 + n2)
                        }
                    },
                }
            }
        },
    }
        }),
{
    reveal_with_fuel(p_dict_items, 1);
    reveal_with_fuel(p_expr, 1);
}

pub proof fn unfold_p_call_args(c: Src, p: int, args: Seq<SExpr>, kws: Seq<(Seq<char>, SExpr)>)
    ensures
        p_call_args(c, p, args, kws) == ({
    if at(c, p, Tag::Name) && at(c, p + 1, Tag::Equal) {
        match p_expr(c, p + 2) {
            Err((m, n)) => Err((m, n + 2)),
            Ok((v, n)) => {
                let kws2 = kws.push((name_at(c, p), v));
                let q = p + 2 + n;
                if !at(c, q, Tag::Comma) {
                    Ok(((args, kws2), n + 2))
                } else if at(c, q + 1, Tag::Rparen) {
                    Ok(((args, kws2), n + 3))
                } else {
                    bump(p_call_args(c, q + 1, args, kws2), n + 3)
                }
            },
        }
    } else {
        match p_expr(c, p) {
            Err(e) => Err(e),
            Ok((v, n)) => {
                let args2 = args.push(v);
                let q = p + n;
                if !at(c, q, Tag::Comma) {
                    Ok(((args2, kws), n))
                } else if at(c, q + 1, Tag::Rparen) {
                    Ok(((args2, kws), n + 1))
                } else {
                    bump(p_call_args(c, q + 1, args2, kws), n + 1)
                }
            },
        }
    }
        }),
{
    reveal_with_fuel(p_call_args, 1);
    reveal_with_fuel(p_expr, 1);
}

pub proof fn unfold_p_dotted(c: Src, pos: int)
    ensures
        p_dotted(c, pos) == ({
    if !at(c, pos, Tag::Name) {
        Err((err_at(c, pos, "expected module name"@), 0))
    } else {
        bump(p_dotted_tail(c, pos + 1, name_at(c, pos)), 1)
    }
        }),
{
    reveal_with_fuel(p_dotted, 1);
    reveal_with_fuel(p_dotted_tail, 1);
}

pub proof fn unfold_p_dotted_tail(c: Src, p: int, acc: Seq<char>)
    ensures
        p_dotted_tail(c, p, acc) == ({
    if at(c, p, Tag::Dot) {
        if !at(c, p + 1, Tag::Name) {
            Err((err_at(c, p + 1, "expected module name after dot"@), 1))
        } else {
            bump(p_dotted_tail(c, p + 2, acc.push('.') + name_at(c, p + 1)), 2)
        }
    } else {
        Ok((acc, 0))
    }
        }),
{
    reveal_with_fuel(p_dotted_tail, 1);
}

pub proof fn unfold_p_atom(c: Src, pos: int)
    ensures
        p_atom(c, pos) == ({
    match kind_at(c, pos) {
        Kind::NoneVal => Ok((SExpr::NoneVal, 1)),
        Kind::TrueVal => Ok((SExpr::Bool(true), 1)),
        Kind::FalseVal => Ok((SExpr::Bool(false), 1)),
        Kind::Int(v) => Ok((SExpr::Int(v), 1)),
        Kind::Float(s) => Ok((SExpr::Float(s), 1)),
        Kind::Str(s) => Ok((SExpr::Str(s), 1)),
        Kind::FString(s) => Ok((SExpr::FString(s), 1)),
        Kind::Name(n) => Ok((SExpr::Name(n), 1)),
        Kind::Lparen => bump(p_paren(c, pos + 1), 1),
        Kind::Lbracket => bump(p_bracket(c, pos + 1), 1),
        Kind::Lbrace => bump(p_brace(c, pos + 1), 1),
        _ => Err((err_at(c, pos, "expected expr"@), 0)),
    }
        }),
{
    reveal_with_fuel(p_atom, 1);
    reveal_with_fuel(p_brace, 1);
    reveal_with_fuel(p_bracket, 1);
    reveal_with_fuel(p_paren, 1);
}

pub proof fn unfold_p_paren(c: Src, p: int)
    ensures
        p_paren(c, p) == ({
    if at(c, p, Tag::Rparen) {
        Ok((SExpr::Tuple(Seq::empty()), 1))
    } else {
        match p_expr(c, p) {
            Err(e) => Err(e),
            Ok((first, n)) => {
                let q = p + n;
                if at(c, q, Tag::Comma) {
                    if !at(c, q + 1, Tag::Rparen) {
                        match p_comma_items(c, q + 1, seq![first], Tag::Rparen) {
                            Err((m, k)) => Err((m, n + 1 + k)),
                            Ok((items, k)) => {
                                let r = q + 1 + k;
                                if !at(c, r, Tag::Rparen) {
                                    Err((err_at(c, r, "expected ')'"@), n + 1 + k))
                                } else {
                                    Ok((SExpr::Tuple(items), n + 2 + k))
                                }
                            },
                        }
                    } else {
                        Ok((SExpr::Tuple(seq![first]), n + 2))
                    }
                } else if !at(c, q, Tag::Rparen) {
                    Err((err_at(c, q, "expected ')'"@), n))
                } else {
                    Ok((first, n + 1))
                }
            },
        }
    }
        }),
{
    reveal_with_fuel(p_paren, 1);
    reveal_with_fuel(p_comma_items, 1);
    reveal_with_fuel(p_expr, 1);
}

pub proof fn unfold_p_bracket(c: Src, p: int)
    ensures
        p_bracket(c, p) == ({
    if at(c, p, Tag::Rbracket) {
        Ok((SExpr::List(Seq::empty()), 1))
    } else {
        match p_expr(c, p) {
            Err(e) => Err(e),
            Ok((first, n)) => {
                let q = p + n;
                if at(c, q, Tag::For) {
                    bump(p_comprehension(c, q + 1, first), n + 1)
                } else if at(c, q, Tag::Comma) && !at(c, q + 1, Tag::Rbracket) {
                    match p_comma_items(c, q + 1, seq![first], Tag::Rbracket) {
                        Err((m, k)) => Err((m, n + 1 + k)),
                        Ok((items, k)) => {
                            let r = q + 1 + k;
                            if !at(c, r, Tag::Rbracket) {
                                Err((err_at(c, r, "expected ']'"@), n + 1 + k))
                            } else {
                                Ok((SExpr::List(items), n + 2 + k))
                            }
                        },
                    }
                } else {
                    let r = if at(c, q, Tag::Comma) { q + 1 } else { q };
                    let k: nat = if at(c, q, Tag::Comma) { 1 } else { 0 };
                    if !at(c, r, Tag::Rbracket) {
                        Err((err_at(c, r, "expected ']'"@), n + k))
                    } else {
                        Ok((SExpr::List(seq![first]), n + k + 1))
                    }
                }
            },
        }
    }
        }),
{
    reveal_with_fuel(p_bracket, 1);
    reveal_with_fuel(p_comma_items, 1);
    reveal_with_fuel(p_comprehension, 1);
    reveal_with_fuel(p_expr, 1);
}

pub proof fn unfold_p_comprehension(c: Src, p: int, elt: SExpr)
    ensures
        p_comprehension(c, p, elt) == ({
    match p_expr_list(c, p) {
        Err(e) => Err(e),
        Ok((target, n)) => {
            let q = p + n;
            if !at(c, q, Tag::In) {
                Err((err_at(c, q, "expected 'in'"@), n))
            } else {
                match p_expr(c, q + 1) {
                    Err((m, n2)) => Err((m, n + 1 + n2)),
                    Ok((iter, n2)) => {
                        let r = q + 1 + n2;
                        let done = |cond: Option<Box<SExpr>>, s: int, k: nat|
                            if !at(c, s, Tag::Rbracket) {
                                Err((err_at(c, s, "expected ']'"@), n + 1 + n2 + k))
                            } else {
                                Ok((SExpr::ListComp(Box::new(elt), Box::new(target), Box::new(iter), cond), n + 2 + n2 + k))
                            };
                        if at(c, r, Tag::If) {
                            match p_expr(c, r + 1) {
                                Err((m, n3)) => Err((m, n + 2 + n2 + n3)),
                                Ok((cd, n3)) => done(Some(Box::new(cd)), r + 1 + n3, n3 + 1),
                            }
                        } else {
                            done(None, r, 0)
                        }
                    },
                }
            }
        },
    }
        }),
{
    reveal_with_fuel(p_comprehension, 1);
    reveal_with_fuel(p_expr, 1);
    reveal_with_fuel(p_expr_list, 1);
}

pub proof fn unfold_p_brace(c: Src, p: int)
    ensures
        p_brace(c, p) == ({
    if at(c, p, Tag::Rbrace) {
        Ok((SExpr::Dict(Seq::empty()), 1))
    } else {
        match p_dict_items(c, p, Seq::empty()) {
            Err(e) => Err(e),
            Ok((pairs, n)) => {
                let q = p + n;
                if !at(c, q, Tag::Rbrace) {
                    Err((err_at(c, q, "expected '}'"@), n))
                } else {
                    Ok((SExpr::Dict(pairs), n + 1))
                }
            },
        }
    }
        }),
{
    reveal_with_fuel(p_brace, 1);
    reveal_with_fuel(p_dict_items, 1);
}

pub proof fn unfold_p_postfix(c: Src, p: int, e: SExpr)
    ensures
        p_postfix(c, p, e) == ({
    if at(c, p, Tag::Lparen) {
        if at(c, p + 1, Tag::Rparen) {
            bump(p_postfix(c, p + 2, SExpr::Call(Box::new(e), Seq::empty(), Seq::empty())), 2)
        } else {
            match p_call_args(c, p + 1, Seq::empty(), Seq::empty()) {
                Err((m, n)) => Err((m, n + 1)),
                Ok(((args, kws), n)) => {
                    let q = p + 1 + n;
                    if !at(c, q, Tag::Rparen) {
                        Err((err_at(c, q, "expected ')'"@), n + 1))
                    } else {
                        bump(p_postfix(c, q + 1, SExpr::Call(Box::new(e), args, kws)), n + 2)
                    }
                },
            }
        }
    } else if at(c, p, Tag::Dot) {
        if !at(c, p + 1, Tag::Name) {
            Err((err_at(c, p + 1, "expected attr"@), 1))
        } else {
            bump(p_postfix(c, p + 2, SExpr::Attribute(Box::new(e), name_at(c, p + 1))), 2)
        }
    } else if at(c, p, Tag::Lbracket) {
        match p_expr(c, p + 1) {
            Err((m, n)) => Err((m, n + 1)),
            Ok((idx, n)) => {
                let q = p + 1 + n;
                if !at(c, q, Tag::Rbracket) {
                    Err((err_at(c, q, "expected ']'"@), n + 1))
                } else {
                    bump(p_postfix(c, q + 1, SExpr::Subscript(Box::new(e), Box::new(idx))), n + 2)
                }
            },
        }
    } else {
        Ok((e, 0))
    }
        }),
{
    reveal_with_fuel(p_postfix, 1);
    reveal_with_fuel(p_call_args, 1);
    reveal_with_fuel(p_expr, 1);
}

pub proof fn unfold_p_primary(c: Src, pos: int)
    ensures
        p_primary(c, pos) == ({
    match p_atom(c, pos) {
        Err(e) => Err(e),
        Ok((e, n)) => bump(p_postfix(c, pos + n, e), n),
    }
        }),
{
    reveal_with_fuel(p_primary, 1);
    reveal_with_fuel(p_atom, 1);
    reveal_with_fuel(p_postfix, 1);
}

pub proof fn unfold_p_unary(c: Src, pos: int)
    ensures
        p_unary(c, pos) == ({
    if at(c, pos, Tag::Minus) {
        bump(unary_of(Op::Neg, p_unary(c, pos + 1)), 1)
    } else {
        p_primary(c, pos)
    }
        }),
{
    reveal_with_fuel(p_unary, 1);
    reveal_with_fuel(p_primary, 1);
}

pub proof fn unfold_p_factor(c: Src, pos: int)
    ensures
        p_factor(c, pos) == ({
    match p_unary(c, pos) {
        Err(e) => Err(e),
        Ok((e, n)) => bump(p_factor_tail(c, pos + n, e), n),
    }
        }),
{
    reveal_with_fuel(p_factor, 1);
    reveal_with_fuel(p_factor_tail, 1);
    reveal_with_fuel(p_unary, 1);
}

pub proof fn unfold_p_factor_tail(c: Src, p: int, left: SExpr)
    ensures
        p_factor_tail(c, p, left) == ({
    match mul_op(kind_at(c, p)) {
        Some(op) => match p_unary(c, p + 1) {
            Err((m, n)) => Err((m, n + 1)),
            Ok((r, n)) => bump(p_factor_tail(c, p + 1 + n, SExpr::BinOp(op, Box::new(left), Box::new(r))), n + 1),
        },
        None => Ok((left, 0)),
    }
        }),
{
    reveal_with_fuel(p_factor_tail, 1);
    reveal_with_fuel(p_unary, 1);
}

pub proof fn unfold_p_term(c: Src, pos: int)
    ensures
        p_term(c, pos) == ({
    match p_factor(c, pos) {
        Err(e) => Err(e),
        Ok((e, n)) => bump(p_term_tail(c, pos + n, e), n),
    }
        }),
{
    reveal_with_fuel(p_term, 1);
    reveal_with_fuel(p_factor, 1);
    reveal_with_fuel(p_term_tail, 1);
}

pub proof fn unfold_p_term_tail(c: Src, p: int, left: SExpr)
    ensures
        p_term_tail(c, p, left) == ({
    match add_op(kind_at(c, p)) {
        Some(op) => match p_factor(c, p + 1) {
            Err((m, n)) => Err((m, n + 1)),
            Ok((r, n)) => bump(p_term_tail(c, p + 1 + n, SExpr::BinOp(op, Box::new(left), Box::new(r))), n + 1),
        },
        None => Ok((left, 0)),
    }
        }),
{
    reveal_with_fuel(p_term_tail, 1);
    reveal_with_fuel(p_factor, 1);
}

pub proof fn unfold_p_comp(c: Src, pos: int)
    ensures
        p_comp(c, pos) == ({
    match p_term(c, pos) {
        Err(e) => Err(e),
        Ok((e, n)) => bump(p_comp_tail(c, pos + n, e), n),
    }
        }),
{
    reveal_with_fuel(p_comp, 1);
    reveal_with_fuel(p_comp_tail, 1);
    reveal_with_fuel(p_term, 1);
}

pub proof fn unfold_p_comp_tail(c: Src, p: int, left: SExpr)
    ensures
        p_comp_tail(c, p, left) == ({
    match comp_op(kind_at(c, p)) {
        Some(op) => match p_term(c, p + 1) {
            Err((m, n)) => Err((m, n + 1)),
            Ok((r, n)) => bump(p_comp_tail(c, p + 1 + n, SExpr::Compare(op, Box::new(left), Box::new(r))), n + 1),
        },
        None => Ok((left, 0)),
    }
        }),
{
    reveal_with_fuel(p_comp_tail, 1);
    reveal_with_fuel(p_term, 1);
}

pub proof fn unfold_p_not(c: Src, pos: int)
    ensures
        p_not(c, pos) == ({
    if at(c, pos, Tag::Not) {
        bump(unary_of(Op::Not, p_not(c, pos + 1)), 1)
    } else {
        p_comp(c, pos)
    }
        }),
{
    reveal_with_fuel(p_not, 1);
    reveal_with_fuel(p_comp, 1);
}

pub proof fn unfold_p_and(c: Src, pos: int)
    ensures
        p_and(c, pos) == ({
    match p_not(c, pos) {
        Err(e) => Err(e),
        Ok((e, n)) => bump(p_and_tail(c, pos + n, e), n),
    }
        }),
{
    reveal_with_fuel(p_and, 1);
    reveal_with_fuel(p_and_tail, 1);
    reveal_with_fuel(p_not, 1);
}

pub proof fn unfold_p_and_tail(c: Src, p: int, left: SExpr)
    ensures
        p_and_tail(c, p, left) == ({
    if at(c, p, Tag::And) {
        match p_not(c, p + 1) {
            Err((m, n)) => Err((m, n + 1)),
            Ok((r, n)) => bump(p_and_tail(c, p + 1 + n, SExpr::Logical(LogicOp::And, Box::new(left), Box::new(r))), n + 1),
        }
    } else {
        Ok((left, 0))
    }
        }),
{
    reveal_with_fuel(p_and_tail, 1);
    reveal_with_fuel(p_not, 1);
}

pub proof fn unfold_p_or_tail(c: Src, p: int, left: SExpr)
    ensures
        p_or_tail(c, p, left) == ({
    if at(c, p, Tag::Or) {
        match p_and(c, p + 1) {
            Err((m, n)) => Err((m, n + 1)),
            Ok((r, n)) => bump(p_or_tail(c, p + 1 + n, SExpr::Logical(LogicOp::Or, Box::new(left), Box::new(r))), n + 1),
        }
    } else {
        Ok((left, 0))
    }
        }),
{
    reveal_with_fuel(p_or_tail, 1);
    reveal_with_fuel(p_and, 1);
}

pub proof fn unfold_p_lambda_params(c: Src, p: int, ps: Seq<Seq<char>>)
    ensures
        p_lambda_params(c, p, ps) == ({
    if !at(c, p, Tag::Name) {
        Err((err_at(c, p, "expected param"@), 0))
    } else {
        let ps2 = ps.push(name_at(c, p));
        if at(c, p + 1, Tag::Comma) {
            bump(p_lambda_params(c, p + 2, ps2), 2)
        } else {
            Ok((ps2, 1))
        }
    }
        }),
{
    reveal_with_fuel(p_lambda_params, 1);
}

pub proof fn unfold_p_expr(c: Src, pos: int)
    ensures
        p_expr(c, pos) == ({
    if at(c, pos, Tag::Lambda) {
        let p = pos + 1;
        let ps_r: PR<Seq<Seq<char>>> = if at(c, p, Tag::Colon) {
            Ok((Seq::empty(), 1))
        } else {
            match p_lambda_params(c, p, Seq::empty()) {
                Err(e) => Err(e),
                Ok((ps, n)) => if !at(c, p + n, Tag::Colon) {
                    Err((err_at(c, p + n, "expected ':'"@), n))
                } else {
                    Ok((ps, n + 1))
                },
            }
        };
        match ps_r {
            Err((m, n)) => Err((m, n + 1)),
            Ok((ps, n)) => match p_expr(c, p + n) {
                Err((m, k)) => Err((m, n + 1 + k)),
                Ok((body, k)) => Ok((SExpr::Lambda(ps, Box::new(body)), n + 1 + k)),
            },
        }
    } else {
        match p_and(c, pos) {
            Err(e) => Err(e),
            Ok((e, n)) => bump(p_or_tail(c, pos + n, e), n),
        }
    }
        }),
{
    reveal_with_fuel(p_expr, 1);
    reveal_with_fuel(p_and, 1);
    reveal_with_fuel(p_lambda_params, 1);
    reveal_with_fuel(p_or_tail, 1);
}

pub proof fn unfold_p_block(c: Src, pos: int)
    ensures
        p_block(c, pos) == ({
    if at(c, pos, Tag::Newline) {
        if !at(c, pos + 1, Tag::Indent) {
            Err((err_at(c, pos + 1, "expected indent"@), 1))
        } else {
            let k = newlines(c, pos + 2);
            let q = pos + 2 + k;
            match p_block_items(c, q, Seq::empty()) {
                Err((m, n)) => Err((m, n + 2 + k)),
                Ok((b, n)) => {
                    let r = q + n;
                    if !at(c, r, Tag::Dedent) {
                        Err((err_at(c, r, "expected dedent"@), n + 2 + k))
                    } else {
                        Ok((b, n + 3 + k))
                    }
                },
            }
        }
    } else {
        match p_stmt(c, pos) {
            Err(e) => Err(e),
            Ok((s, n)) => Ok((seq![s], n)),
        }
    }
        }),
{
    reveal_with_fuel(p_block, 1);
    reveal_with_fuel(p_block_items, 1);
    reveal_with_fuel(p_stmt, 1);
}

pub proof fn unfold_p_block_items(c: Src, p: int, b: Seq<SStmt>)
    ensures
        p_block_items(c, p, b) == ({
    if at(c, p, Tag::Dedent) || at(c, p, Tag::Eof) {
        Ok((b, 0))
    } else {
        match p_stmt(c, p) {
            Err(e) => Err(e),
            Ok((s, n)) => {
                let k = newlines(c, p + n);
                if n + k == 0 {
                    Ok((b.push(s), 0))
                } else {
                    bump(p_block_items(c, p + n + k, b.push(s)), n + k)
                }
            },
        }
    }
        }),
{
    reveal_with_fuel(p_block_items, 1);
    reveal_with_fuel(p_stmt, 1);
}

pub proof fn unfold_p_module(c: Src, pos: int)
    ensures
        p_module(c, pos) == ({
    let k = newlines(c, pos);
    bump(p_module_items(c, pos + k, Seq::empty()), k)
        }),
{
    reveal_with_fuel(p_module, 1);
    reveal_with_fuel(p_module_items, 1);
}

pub proof fn unfold_p_module_items(c: Src, p: int, b: Seq<SStmt>)
    ensures
        p_module_items(c, p, b) == ({
    if at(c, p, Tag::Eof) {
        Ok((b, 0))
    } else {
        match p_stmt(c, p) {
            Err(e) => Err(e),
            Ok((s, n)) => {
                let k = newlines(c, p + n);
                if n + k == 0 {
                    Ok((b.push(s), 0))
                } else {
                    bump(p_module_items(c, p + n + k, b.push(s)), n + k)
                }
            },
        }
    }
        }),
{
    reveal_with_fuel(p_module_items, 1);
    reveal_with_fuel(p_stmt, 1);
}

pub proof fn unfold_p_stmt(c: Src, pos: int)
    ensures
        p_stmt(c, pos) == ({
    let p = pos + 1;
    if at(c, pos, Tag::Import) {
        bump(p_import(c, p), 1)
    } else if at(c, pos, Tag::From) {
        bump(p_from(c, p), 1)
    } else if at(c, pos, Tag::Def) {
        bump(p_def(c, p), 1)
    } else if at(c, pos, Tag::Class) {
        bump(p_class(c, p), 1)
    } else if at(c, pos, Tag::Try) {
        bump(p_try(c, p), 1)
    } else if at(c, pos, Tag::Raise) {
        match p_expr(c, p) {
            Err((m, n)) => Err((m, n + 1)),
            Ok((e, n)) => bump(end_simple(c, p + n, SStmt::Raise(e)), n + 1),
        }
    } else if at(c, pos, Tag::If) {
        bump(p_if(c, p), 1)
    } else if at(c, pos, Tag::While) {
        bump(p_while(c, p), 1)
    } else if at(c, pos, Tag::For) {
        bump(p_for(c, p), 1)
    } else if at(c, pos, Tag::Return) {
        if at(c, p, Tag::Newline) {
            Ok((SStmt::Return(None), 2))
        } else {
            match p_expr_list(c, p) {
                Err((m, n)) => Err((m, n + 1)),
                Ok((e, n)) => bump(end_simple(c, p + n, SStmt::Return(Some(e))), n + 1),
            }
        }
    } else if at(c, pos, Tag::Break) {
        bump(end_simple(c, p, SStmt::Break), 1)
    } else if at(c, pos, Tag::Continue) {
        bump(end_simple(c, p, SStmt::Continue), 1)
    } else if at(c, pos, Tag::Pass) {
        bump(end_simple(c, p, SStmt::Pass), 1)
    } else if at(c, pos, Tag::Yield) {
        if at(c, p, Tag::Newline) {
            Ok((SStmt::Yield(None), 2))
        } else {
            match p_expr_list(c, p) {
                Err((m, n)) => Err((m, n + 1)),
                Ok((e, n)) => bump(end_simple(c, p + n, SStmt::Yield(Some(e))), n + 1),
            }
        }
    } else if at(c, pos, Tag::At) {
        match p_expr(c, p) {
            Err((m, n)) => Err((m, n + 1)),
            Ok((d, n)) => {
                let q = p + n;
                if !at(c, q, Tag::Newline) {
                    Err((err_at(c, q, "expected newline"@), n + 1))
                } else if !(at(c, q + 1, Tag::Def) || at(c, q + 1, Tag::Class) || at(c, q + 1, Tag::At)) {
                    Err((err_at(c, q + 1, "expected def or class after decorator"@), n + 2))
                } else {
                    match p_stmt(c, q + 1) {
                        Err((m, k)) => Err((m, n + 2 + k)),
                        Ok((s, k)) => Ok((SStmt::Decorated(d, Box::new(s)), n + 2 + k)),
                    }
                }
            },
        }
    } else {
        match p_expr_list(c, pos) {
            Err(e) => Err(e),
            Ok((e, n)) => bump(p_stmt_tail(c, pos + n, e), n),
        }
    }
        }),
{
    reveal_with_fuel(p_stmt, 1);
    reveal_with_fuel(p_class, 1);
    reveal_with_fuel(p_def, 1);
    reveal_with_fuel(p_expr, 1);
    reveal_with_fuel(p_expr_list, 1);
    reveal_with_fuel(p_for, 1);
    reveal_with_fuel(p_from, 1);
    reveal_with_fuel(p_if, 1);
    reveal_with_fuel(p_import, 1);
    reveal_with_fuel(p_stmt_tail, 1);
    reveal_with_fuel(p_try, 1);
    reveal_with_fuel(p_while, 1);
}

pub proof fn unfold_p_import(c: Src, p: int)
    ensures
        p_import(c, p) == ({
    match p_dotted(c, p) {
        Err(e) => Err(e),
        Ok((n, k)) => bump(end_simple(c, p + k, SStmt::Import(n)), k),
    }
        }),
{
    reveal_with_fuel(p_import, 1);
    reveal_with_fuel(p_dotted, 1);
}

pub proof fn unfold_p_import_names(c: Src, p: int, ns: Seq<Seq<char>>)
    ensures
        p_import_names(c, p, ns) == ({
    if !at(c, p, Tag::Name) {
        Err((err_at(c, p, "expected name"@), 0))
    } else {
        let ns2 = ns.push(name_at(c, p));
        if at(c, p + 1, Tag::Comma) {
            bump(p_import_names(c, p + 2, ns2), 2)
        } else {
            Ok((ns2, 1))
        }
    }
        }),
{
    reveal_with_fuel(p_import_names, 1);
}

pub proof fn unfold_p_from(c: Src, p: int)
    ensures
        p_from(c, p) == ({
    let level = dots(c, p);
    let q = p + level;
    match p_dotted(c, q) {
        Err((m, k)) => Err((m, k + level)),
        Ok((module, k)) => {
            let r = q + k;
            if !at(c, r, Tag::Import) {
                Err((err_at(c, r, "expected 'import'"@), k + level))
            } else {
                match p_import_names(c, r + 1, Seq::empty()) {
                    Err((m, k2)) => Err((m, k + level + 1 + k2)),
                    Ok((names, k2)) => bump(
                        end_simple(c, r + 1 + k2, SStmt::FromImport(module, names, level as int)),
                        k + level + 1 + k2,
                    ),
                }
            }
        },
    }
        }),
{
    reveal_with_fuel(p_from, 1);
    reveal_with_fuel(p_dotted, 1);
    reveal_with_fuel(p_import_names, 1);
}

pub proof fn unfold_p_def_params(c: Src, p: int, acc: Params)
    ensures
        p_def_params(c, p, acc) == ({
    if at(c, p, Tag::Star) {
        let double = at(c, p + 1, Tag::Star);
        let np = if double { p + 2 } else { p + 1 };
        if !at(c, np, Tag::Name) {
            let msg = if double { "expected kwarg name"@ } else { "expected vararg name"@ };
            Err((err_at(c, np, msg), (np - p) as nat))
        } else {
            let acc2 = if double { (acc.0, acc.1, Some(name_at(c, np))) } else { (acc.0, Some(name_at(c, np)), acc.2) };
            let a = np + 1 + annot(c, np + 1);
            let b = if at(c, a, Tag::Comma) { a + 1 } else { a };
            if at(c, b, Tag::Rparen) {
                Ok((acc2, (b - p) as nat))
            } else {
                bump(p_def_params(c, b, acc2), (b - p) as nat)
            }
        }
    } else if at(c, p, Tag::Name) {
        let a = p + 1 + annot(c, p + 1);
        let d: PR<Option<SExpr>> = if at(c, a, Tag::Equal) {
            match p_expr(c, a + 1) {
                Err((m, n)) => Err((m, n + 1)),
                Ok((v, n)) => Ok((Some(v), n + 1)),
            }
        } else {
            Ok((None, 0))
        };
        match d {
            Err((m, n)) => Err((m, (a - p) as nat + n)),
            Ok((dv, n)) => {
                let acc2 = (acc.0.push((name_at(c, p), dv)), acc.1, acc.2);
                let q = a + n;
                if !at(c, q, Tag::Comma) {
                    Ok((acc2, (q - p) as nat))
                } else if at(c, q + 1, Tag::Rparen) {
                    Ok((acc2, (q + 1 - p) as nat))
                } else {
                    bump(p_def_params(c, q + 1, acc2), (q + 1 - p) as nat)
                }
            },
        }
    } else {
        Err((err_at(c, p, "expected parameter name"@), 0))
    }
        }),
{
    reveal_with_fuel(p_def_params, 1);
    reveal_with_fuel(p_expr, 1);
}

pub proof fn unfold_p_def(c: Src, p: int)
    ensures
        p_def(c, p) == ({
    if !at(c, p, Tag::Name) {
        Err((err_at(c, p, "expected name"@), 0))
    } else if !at(c, p + 1, Tag::Lparen) {
        Err((err_at(c, p + 1, "expected '('"@), 1))
    } else {
        let q = p + 2;
        let ps: PR<Params> = if at(c, q, Tag::Rparen) {
            Ok(((Seq::empty(), None, None), 1))
        } else {
            match p_def_params(c, q, (Seq::empty(), None, None)) {
                Err(e) => Err(e),
                Ok((v, n)) => if !at(c, q + n, Tag::Rparen) {
                    Err((err_at(c, q + n, "expected ')'"@), n))
                } else {
                    Ok((v, n + 1))
                },
            }
        };
        match ps {
            Err((m, n)) => Err((m, n + 2)),
            Ok((params, n)) => {
                let a = q + n;
                let b = if at(c, a, Tag::Rarrow) { a + 1 + used(p_expr(c, a + 1)) } else { a };
                if !at(c, b, Tag::Colon) {
                    Err((err_at(c, b, "expected ':'"@), (b - p) as nat))
                } else {
                    match p_block(c, b + 1) {
                        Err((m, k)) => Err((m, (b + 1 - p) as nat + k)),
                        Ok((body, k)) => Ok((
                            SStmt::FunctionDef(name_at(c, p), params.0, params.1, params.2, body),
                            (b + 1 - p) as nat + k,
                        )),
                    }
                }
            },
        }
    }
        }),
{
    reveal_with_fuel(p_def, 1);
    reveal_with_fuel(p_block, 1);
    reveal_with_fuel(p_def_params, 1);
    reveal_with_fuel(p_expr, 1);
}

pub proof fn unfold_p_class(c: Src, p: int)
    ensures
        p_class(c, p) == ({
    if !at(c, p, Tag::Name) {
        Err((err_at(c, p, "expected class name"@), 0))
    } else {
        let q = p + 1;
        let base: PR<Option<SExpr>> = if at(c, q, Tag::Lparen) {
            match p_expr(c, q + 1) {
                Err((m, n)) => Err((m, n + 1)),
                Ok((b, n)) => if !at(c, q + 1 + n, Tag::Rparen) {
                    Err((err_at(c, q + 1 + n, "expected ')'"@), n + 1))
                } else {
                    Ok((Some(b), n + 2))
                },
            }
        } else {
            Ok((None, 0))
        };
        match base {
            Err((m, n)) => Err((m, n + 1)),
            Ok((bv, n)) => {
                let s = q + n;
                if !at(c, s, Tag::Colon) {
                    Err((err_at(c, s, "expected ':'"@), n + 1))
                } else {
                    match p_block(c, s + 1) {
                        Err((m, k)) => Err((m, n + 2 + k)),
                        Ok((body, k)) => Ok((SStmt::ClassDef(name_at(c, p), bv, body), n + 2 + k)),
                    }
                }
            },
        }
    }
        }),
{
    reveal_with_fuel(p_class, 1);
    reveal_with_fuel(p_block, 1);
    reveal_with_fuel(p_expr, 1);
}

pub proof fn unfold_p_exc_names(c: Src, p: int, ts: Seq<Seq<char>>)
    ensures
        p_exc_names(c, p, ts) == ({
    if !at(c, p, Tag::Name) {
        Err((err_at(c, p, "expected exc name"@), 0))
    } else {
        let ts2 = ts.push(name_at(c, p));
        if at(c, p + 1, Tag::Comma) {
            bump(p_exc_names(c, p + 2, ts2), 2)
        } else {
            Ok((ts2, 1))
        }
    }
        }),
{
    reveal_with_fuel(p_exc_names, 1);
}

pub proof fn unfold_p_handlers(c: Src, p: int, hs: Seq<Handler>)
    ensures
        p_handlers(c, p, hs) == ({
    if !at(c, p, Tag::Except) {
        Ok((hs, 0))
    } else {
        let q = p + 1;
        let types: PR<Seq<Seq<char>>> = if at(c, q, Tag::Lparen) {
            match p_exc_names(c, q + 1, Seq::empty()) {
                Err((m, n)) => Err((m, n + 1)),
                Ok((ts, n)) => if !at(c, q + 1 + n, Tag::Rparen) {
                    Err((err_at(c, q + 1 + n, "expected ')'"@), n + 1))
                } else {
                    Ok((ts, n + 2))
                },
            }
        } else if at(c, q, Tag::Name) {
            Ok((seq![name_at(c, q)], 1))
        } else {
            Ok((Seq::empty(), 0))
        };
        match types {
            Err((m, n)) => Err((m, n + 1)),
            Ok((ts, n)) => {
                let a = q + n;
                let bound: PR<Option<Seq<char>>> = if ts.len() > 0 && at(c, a, Tag::As) {
                    if !at(c, a + 1, Tag::Name) {
                        Err((err_at(c, a + 1, "expected var"@), 1))
                    } else {
                        Ok((Some(name_at(c, a + 1)), 2))
                    }
                } else {
                    Ok((None, 0))
                };
                match bound {
                    Err((m, k)) => Err((m, n + 1 + k)),
                    Ok((asn, k)) => {
                        let b = a + k;
                        if !at(c, b, Tag::Colon) {
                            Err((err_at(c, b, "expected ':'"@), n + 1 + k))
                        } else {
                            match p_block(c, b + 1) {
                                Err((m, k2)) => Err((m, n + 2 + k + k2)),
                                Ok((body, k2)) => {
                                    let e = b + 1 + k2;
                                    let nl = newlines(c, e);
                                    bump(p_handlers(c, e + nl, hs.push((ts, asn, body))), n + 2 + k + k2 + nl)
                                },
                            }
                        }
                    },
                }
            },
        }
    }
        }),
{
    reveal_with_fuel(p_handlers, 1);
    reveal_with_fuel(p_block, 1);
    reveal_with_fuel(p_exc_names, 1);
}

pub proof fn unfold_p_try(c: Src, p: int)
    ensures
        p_try(c, p) == ({
    if !at(c, p, Tag::Colon) {
        Err((err_at(c, p, "expected ':'"@), 0))
    } else {
        match p_block(c, p + 1) {
            Err((m, n)) => Err((m, n + 1)),
            Ok((body, n)) => {
                let q = p + 1 + n;
                let nl = newlines(c, q);
                match p_handlers(c, q + nl, Seq::empty()) {
                    Err((m, k)) => Err((m, n + 1 + nl + k)),
                    Ok((hs, k)) => if hs.len() == 0 {
                        Err(("expected 'except' block"@, n + 1 + nl + k))
                    } else {
                        Ok((SStmt::Try(body, hs), n + 1 + nl + k))
                    },
                }
            },
        }
    }
        }),
{
    reveal_with_fuel(p_try, 1);
    reveal_with_fuel(p_block, 1);
    reveal_with_fuel(p_handlers, 1);
}

pub proof fn unfold_p_cond_block(c: Src, p: int)
    ensures
        p_cond_block(c, p) == ({
    match p_expr(c, p) {
        Err(e) => Err(e),
        Ok((t, n)) => if !at(c, p + n, Tag::Colon) {
            Err((err_at(c, p + n, "expected ':'"@), n))
        } else {
            match p_block(c, p + n + 1) {
                Err((m, k)) => Err((m, n + 1 + k)),
                Ok((b, k)) => Ok(((t, b), n + 1 + k)),
            }
        },
    }
        }),
{
    reveal_with_fuel(p_cond_block, 1);
    reveal_with_fuel(p_block, 1);
    reveal_with_fuel(p_expr, 1);
}

pub proof fn unfold_p_elifs(c: Src, p: int, acc: Seq<(SExpr, Seq<SStmt>)>)
    ensures
        p_elifs(c, p, acc) == ({
    if !at(c, p, Tag::Elif) {
        Ok((acc, 0))
    } else {
        match p_cond_block(c, p + 1) {
            Err((m, n)) => Err((m, n + 1)),
            Ok((tb, n)) => {
                let nl = newlines(c, p + 1 + n);
                bump(p_elifs(c, p + 1 + n + nl, acc.push(tb)), n + 1 + nl)
            },
        }
    }
        }),
{
    reveal_with_fuel(p_elifs, 1);
    reveal_with_fuel(p_cond_block, 1);
}

pub proof fn unfold_p_if(c: Src, p: int)
    ensures
        p_if(c, p) == ({
    match p_cond_block(c, p) {
        Err(e) => Err(e),
        Ok(((test, body), n)) => {
            let q = p + n;
            let nl = newlines(c, q);
            match p_elifs(c, q + nl, Seq::empty()) {
                Err((m, k)) => Err((m, n + nl + k)),
                Ok((elifs, k)) => {
                    let r = q + nl + k;
                    if at(c, r, Tag::Else) {
                        if !at(c, r + 1, Tag::Colon) {
                            Err((err_at(c, r + 1, "expected ':'"@), n + nl + k + 1))
                        } else {
                            match p_block(c, r + 2) {
                                Err((m, k2)) => Err((m, n + nl + k + 2 + k2)),
                                Ok((els, k2)) => Ok((SStmt::If(test, body, fold_elifs(elifs, els)), n + nl + k + 2 + k2)),
                            }
                        }
                    } else {
                        Ok((SStmt::If(test, body, fold_elifs(elifs, Seq::empty())), n + nl + k))
                    }
                },
            }
        },
    }
        }),
{
    reveal_with_fuel(p_if, 1);
    reveal_with_fuel(p_block, 1);
    reveal_with_fuel(p_cond_block, 1);
    reveal_with_fuel(p_elifs, 1);
}

pub proof fn unfold_p_while(c: Src, p: int)
    ensures
        p_while(c, p) == ({
    match p_cond_block(c, p) {
        Err(e) => Err(e),
        Ok(((test, body), n)) => Ok((SStmt::While(test, body), n)),
    }
        }),
{
    reveal_with_fuel(p_while, 1);
    reveal_with_fuel(p_cond_block, 1);
}

pub proof fn unfold_p_for(c: Src, p: int)
    ensures
        p_for(c, p) == ({
    match p_expr_list(c, p) {
        Err(e) => Err(e),
        Ok((target, n)) => {
            let q = p + n;
            if !at(c, q, Tag::In) {
                Err((err_at(c, q, "expected 'in'"@), n))
            } else {
                match p_expr_list(c, q + 1) {
                    Err((m, k)) => Err((m, n + 1 + k)),
                    Ok((iter, k)) => {
                        let r = q + 1 + k;
                        if !at(c, r, Tag::Colon) {
                            Err((err_at(c, r, "expected ':'"@), n + 1 + k))
                        } else {
                            match p_block(c, r + 1) {
                                Err((m, k2)) => Err((m, n + 2 + k + k2)),
                                Ok((body, k2)) => Ok((SStmt::For(target, iter, body), n + 2 + k + k2)),
                            }
                        }
                    },
                }
            }
        },
    }
        }),
{
    reveal_with_fuel(p_for, 1);
    reveal_with_fuel(p_block, 1);
    reveal_with_fuel(p_expr_list, 1);
}

pub proof fn unfold_p_assign_rest(c: Src, p: int, target: SExpr, is_aug: bool, op: Op)
    ensures
        p_assign_rest(c, p, target, is_aug, op) == ({
    match p_expr_list(c, p) {
        Err(e) => Err(e),
        Ok((val, n)) => {
            let q = p + n;
            if !at(c, q, Tag::Newline) {
                Err((err_at(c, q, "expected newline"@), n))
            } else if is_aug {
                if target is Tuple || target is List {
                    Err(("SyntaxError: illegal target for augmentation"@, n + 1))
                } else {
                    Ok((SStmt::Assign(target, SExpr::BinOp(op, Box::new(target), Box::new(val))), n + 1))
                }
            } else {
                Ok((SStmt::Assign(target, val), n + 1))
            }
        },
    }
        }),
{
    reveal_with_fuel(p_assign_rest, 1);
    reveal_with_fuel(p_expr_list, 1);
}

pub proof fn unfold_p_stmt_tail(c: Src, p: int, e: SExpr)
    ensures
        p_stmt_tail(c, p, e) == ({
    if is_assign_op(c, p) {
        let op = if at(c, p, Tag::PlusEq) { Op::Add } else { Op::Sub };
        bump(p_assign_rest(c, p + 1, e, !at(c, p, Tag::Equal), op), 1)
    } else if at(c, p, Tag::Colon) {
        let q = p + 1;
        let r = q + used(p_expr(c, q));
        if is_assign_op(c, q) {
            let is_aug = at(c, r, Tag::PlusEq) || at(c, r, Tag::MinusEq);
            let op = if is_aug && at(c, r, Tag::MinusEq) { Op::Sub } else { Op::Add };
            let s = if is_aug { r + 1 } else { r };
            bump(p_assign_rest(c, s, e, is_aug, op), (s - p) as nat)
        } else if is_assign_op(c, r) {
            let op = if at(c, r, Tag::PlusEq) { Op::Add } else { Op::Sub };
            bump(p_assign_rest(c, r + 1, e, !at(c, r, Tag::Equal), op), (r + 1 - p) as nat)
        } else {
            bump(end_simple(c, r, SStmt::Expr(e)), (r - p) as nat)
        }
    } else {
        end_simple(c, p, SStmt::Expr(e))
    }
        }),
{
    reveal_with_fuel(p_stmt_tail, 1);
    reveal_with_fuel(p_assign_rest, 1);
    reveal_with_fuel(p_expr, 1);
}

// ----------------------------------------------------------------------
// Results of the executable parser, in the mathematical form
// ----------------------------------------------------------------------

pub open spec fn pr_expr(r: Result<Expr, String>, n: nat) -> PR<SExpr> {
    match r {
        Ok(v) => Ok((v.sv(), n)),
        Err(m) => Err((m@, n)),
    }
}

pub open spec fn pr_exprs(r: Result<Vec<Expr>, String>, n: nat) -> PR<Seq<SExpr>> {
    match r {
        Ok(v) => Ok((exprs_view(v@), n)),
        Err(m) => Err((m@, n)),
    }
}

pub open spec fn pr_pairs(r: Result<Vec<(Expr, Expr)>, String>, n: nat) -> PR<Seq<(SExpr, SExpr)>> {
    match r {
        Ok(v) => Ok((pairs_view(v@), n)),
        Err(m) => Err((m@, n)),
    }
}

pub open spec fn pr_args(r: Result<(Vec<Expr>, Vec<(String, Expr)>), String>, n: nat) -> PR<(Seq<SExpr>, Seq<(Seq<char>, SExpr)>)> {
    match r {
        Ok(v) => Ok(((exprs_view(v.0@), kwargs_view(v.1@)), n)),
        Err(m) => Err((m@, n)),
    }
}

pub open spec fn pr_str(r: Result<String, String>, n: nat) -> PR<Seq<char>> {
    match r {
        Ok(v) => Ok((v@, n)),
        Err(m) => Err((m@, n)),
    }
}

pub open spec fn pr_strs(r: Result<Vec<String>, String>, n: nat) -> PR<Seq<Seq<char>>> {
    match r {
        Ok(v) => Ok((strs_view(v@), n)),
        Err(m) => Err((m@, n)),
    }
}

pub open spec fn pr_stmt(r: Result<Stmt, String>, n: nat) -> PR<SStmt> {
    match r {
        Ok(v) => Ok((v.sv(), n)),
        Err(m) => Err((m@, n)),
    }
}

pub open spec fn pr_stmts(r: Result<Vec<Stmt>, String>, n: nat) -> PR<Seq<SStmt>> {
    match r {
        Ok(v) => Ok((stmts_view(v@), n)),
        Err(m) => Err((m@, n)),
    }
}

pub type ExecParams = (Vec<(String, Option<Expr>)>, Option<String>, Option<String>);

pub open spec fn params_of(v: ExecParams) -> Params {
    (params_view(v.0@), opt_str_view(v.1), opt_str_view(v.2))
}

pub open spec fn pr_params(r: Result<ExecParams, String>, n: nat) -> PR<Params> {
    match r {
        Ok(v) => Ok((params_of(v), n)),
        Err(m) => Err((m@, n)),
    }
}

pub type ExecHandler = (Vec<String>, Option<String>, Vec<Stmt>);

pub open spec fn pr_handlers(r: Result<Vec<ExecHandler>, String>, n: nat) -> PR<Seq<Handler>> {
    match r {
        Ok(v) => Ok((handlers_view(v@), n)),
        Err(m) => Err((m@, n)),
    }
}

pub open spec fn pr_cond_block(r: Result<(Expr, Vec<Stmt>), String>, n: nat) -> PR<(SExpr, Seq<SStmt>)> {
    match r {
        Ok(v) => Ok(((v.0.sv(), stmts_view(v.1@)), n)),
        Err(m) => Err((m@, n)),
    }
}

pub open spec fn elifs_view(s: Seq<(Expr, Vec<Stmt>)>) -> Seq<(SExpr, Seq<SStmt>)> {
    s.map_values(|x: (Expr, Vec<Stmt>)| (x.0.sv(), stmts_view(x.1@)))
}

pub open spec fn pr_elifs(r: Result<Vec<(Expr, Vec<Stmt>)>, String>, n: nat) -> PR<Seq<(SExpr, Seq<SStmt>)>> {
    match r {
        Ok(v) => Ok((elifs_view(v@), n)),
        Err(m) => Err((m@, n)),
    }
}

// ----------------------------------------------------------------------
// The executable parser
// ----------------------------------------------------------------------

/// A recursive-descent parser over a token stream that ends with `Eof`.
pub struct Parser<'a> {
    tokens: &'a [Token],
    pos: usize,
    filename: &'a str,
}

/// Whether a token stream can be parsed: it ends with an `Eof` token.
pub open spec fn ends_with_eof(toks: Seq<Token>) -> bool {
    toks.len() > 0 && toks.last().kind@ is Eof
}

impl<'a> Parser<'a> {
    /// What the parser reads.
    pub closed spec fn src(&self) -> Src {
        Src { fname: self.filename@, toks: toks_view(self.tokens@) }
    }

    /// The index of the next token.
    pub closed spec fn position(&self) -> int {
        self.pos as int
    }

    /// The parser's invariant: it stands on a token of a stream ending in `Eof`.
    pub closed spec fn wf(&self) -> bool {
        &&& self.pos < self.tokens.len()
        &&& ends_with_eof(self.tokens@)
    }

    /// A parser at the start of `tokens`; messages name `filename`.
    pub fn new(tokens: &'a [Token], filename: &'a str) -> (p: Self)
        requires
            ends_with_eof(tokens@),
        ensures
            p.wf(),
            p.src() == (Src { fname: filename@, toks: toks_view(tokens@) }),
            p.position() == 0,
    {
        Parser { tokens, pos: 0, filename }
    }

    proof fn lemma_kind_here(&self)
        requires
            self.wf(),
        ensures
            kind_at(self.src(), self.pos as int) == self.tokens@[self.pos as int].kind@,
            tok_at(self.src(), self.pos as int) == self.tokens@[self.pos as int]@,
            self.tokens@[self.pos as int].kind@ is Eof || self.pos + 1 < self.tokens.len(),
    {
    }

    fn peek_tag(&self) -> (t: Tag)
        requires
            self.wf(),
        ensures
            t == tag(kind_at(self.src(), self.pos as int)),
    {
        self.tokens[self.pos].kind.tag()
    }

    /// The tag of the token after the next one, or `Eof` past the end.
    fn peek2_tag(&self) -> (t: Tag)
        requires
            self.wf(),
        ensures
            t == tag(kind_at(self.src(), self.pos + 1)),
    {
        if self.pos + 1 < self.tokens.len() {
            self.tokens[self.pos + 1].kind.tag()
        } else {
            Tag::Eof
        }
    }

    /// Consumes the next token when it has tag `t`.
    fn match_tag(&mut self, t: Tag) -> (r: bool)
        requires
            old(self).wf(),
            t != Tag::Eof,
        ensures
            final(self).wf(),
            final(self).src() == old(self).src(),
            r == at(old(self).src(), old(self).pos as int, t),
            final(self).pos == old(self).pos + if r { 1usize } else { 0usize },
    {
        proof { self.lemma_kind_here(); }
        if self.tokens[self.pos].kind.tag() == t {
            self.pos = self.pos + 1;
            true
        } else {
            false
        }
    }

    /// The message `file:line:col: msg` for the next token.
    fn err_here(&self, msg: &str) -> (m: String)
        requires
            self.wf(),
        ensures
            m@ == err_at(self.src(), self.pos as int, msg@),
    {
        proof { self.lemma_kind_here(); }
        let t = &self.tokens[self.pos];
        let mut m = self.filename.to_owned();
        push_char(&mut m, ':');
        push_dec(&mut m, t.line);
        push_char(&mut m, ':');
        push_dec(&mut m, t.col);
        m.append(": ");
        m.append(msg);
        proof {
            assert(":"@ =~= seq![':']) by { reveal_strlit(":"); }
        }
        m
    }

    /// Consumes a token with tag `t`, or fails with `msg`.
    fn expect(&mut self, t: Tag, msg: &str) -> (r: Result<(), String>)
        requires
            old(self).wf(),
            t != Tag::Eof,
        ensures
            final(self).wf(),
            final(self).src() == old(self).src(),
            final(self).pos >= old(self).pos,
            match r {
                Ok(_) => expect_then(old(self).src(), old(self).pos as int, t, msg@, 0int)
                    == Ok::<(int, nat), (Seq<char>, nat)>((0int, (final(self).pos - old(self).pos) as nat)),
                Err(m) => expect_then(old(self).src(), old(self).pos as int, t, msg@, 0int)
                    == Err::<(int, nat), (Seq<char>, nat)>((m@, (final(self).pos - old(self).pos) as nat)),
            },
    {
        if self.peek_tag() != t {
            return Err(self.err_here(msg));
        }
        self.match_tag(t);
        Ok(())
    }

    /// Consumes a `Name` token and returns its text, or fails with `msg`.
    fn expect_name(&mut self, msg: &str) -> (r: Result<String, String>)
        requires
            old(self).wf(),
        ensures
            final(self).wf(),
            final(self).src() == old(self).src(),
            final(self).pos >= old(self).pos,
            pr_str(r, (final(self).pos - old(self).pos) as nat) == (if !at(old(self).src(), old(self).pos as int, Tag::Name) {
                Err::<(Seq<char>, nat), (Seq<char>, nat)>((err_at(old(self).src(), old(self).pos as int, msg@), 0))
            } else {
                Ok((name_at(old(self).src(), old(self).pos as int), 1))
            }),
    {
        proof { self.lemma_kind_here(); }
        match &self.tokens[self.pos].kind {
            TokenKind::Name(n) => {
                let s = n.clone();
                self.pos = self.pos + 1;
                Ok(s)
            },
            _ => Err(self.err_here(msg)),
        }
    }
}


impl<'a> Parser<'a> {
    /// An expression list: one expression, or a bare tuple `a, b` (a trailing
    /// comma is allowed).
    pub fn parse_expr_list(&mut self) -> (r: Result<Expr, String>)
        requires
            old(self).wf(),
        ensures
            final(self).wf(),
            final(self).src() == old(self).src(),
            final(self).position() >= old(self).position(),
            pr_expr(r, (final(self).position() - old(self).position()) as nat) == p_expr_list(old(self).src(), old(self).position()),
        decreases rem(old(self).src(), old(self).position()), 24nat,
    {
        proof {
            unfold_p_expr_list(self.src(), self.position());
        }
        let first = self.parse_expr()?;
        if self.match_tag(Tag::Comma) {
            let t = self.peek_tag();
            let mut items: Vec<Expr> = Vec::new();
            items.push(first);
            proof {
                lemma_exprs_push(Seq::empty(), items@[0]);
                assert(Seq::<Expr>::empty().push(items@[0]) =~= items@);
                assert(exprs_view(Seq::empty()) =~= Seq::<SExpr>::empty());
            }
            if t == Tag::Equal || t == Tag::PlusEq || t == Tag::MinusEq || t == Tag::In || t == Tag::Colon
                    || t == Tag::Newline || t == Tag::Eof || t == Tag::Rparen || t == Tag::Rbracket || t == Tag::Rbrace {
                return Ok(Expr::Tuple(items));
            }
            let items = self.tuple_items(items)?;
            return Ok(Expr::Tuple(items));
        }
        Ok(first)
    }

    fn tuple_items(&mut self, items0: Vec<Expr>) -> (r: Result<Vec<Expr>, String>)
        requires
            old(self).wf(),
        ensures
            final(self).wf(),
            final(self).src() == old(self).src(),
            final(self).pos as int >= old(self).pos as int,
            pr_exprs(r, (final(self).pos as int - old(self).pos as int) as nat) == p_tuple_items(old(self).src(), old(self).pos as int, exprs_view(items0@)),
        decreases rem(old(self).src(), old(self).position()), 23nat,
    {
        proof {
            unfold_p_tuple_items(self.src(), self.pos as int, exprs_view(items0@));
        }
        let mut items = items0;
        let e = self.parse_expr()?;
        proof { lemma_exprs_push(items@, e); }
        items.push(e);
        if !self.match_tag(Tag::Comma) {
            return Ok(items);
        }
        let t = self.peek_tag();
        if t == Tag::Equal || t == Tag::PlusEq || t == Tag::MinusEq || t == Tag::In || t == Tag::Colon
                || t == Tag::Newline || t == Tag::Eof || t == Tag::Rparen || t == Tag::Rbracket || t == Tag::Rbrace {
            return Ok(items);
        }
        self.tuple_items(items)
    }

    /// An expression: a lambda, or an `or` of `and`s of `not`s of comparisons
    /// of sums of products of unary minus of primaries.
    pub fn parse_expr(&mut self) -> (r: Result<Expr, String>)
        requires
            old(self).wf(),
        ensures
            final(self).wf(),
            final(self).src() == old(self).src(),
            final(self).position() >= old(self).position(),
            pr_expr(r, (final(self).position() - old(self).position()) as nat) == p_expr(old(self).src(), old(self).position()),
        decreases rem(old(self).src(), old(self).position()), 22nat,
    {
        proof {
            unfold_p_expr(self.src(), self.position());
        }
        if self.match_tag(Tag::Lambda) {
            let ps = if self.match_tag(Tag::Colon) {
                let v: Vec<String> = Vec::new();
                proof { assert(strs_view(v@) =~= Seq::<Seq<char>>::empty()); }
                v
            } else {
                let v0: Vec<String> = Vec::new();
                proof { assert(strs_view(v0@) =~= Seq::<Seq<char>>::empty()); }
                let v = self.lambda_params(v0)?;
                self.expect(Tag::Colon, "expected ':'")?;
                v
            };
            let body = self.parse_expr()?;
            return Ok(Expr::Lambda(ps, Box::new(body)));
        }
        let e = self.parse_and()?;
        self.or_tail(e)
    }

    fn lambda_params(&mut self, ps0: Vec<String>) -> (r: Result<Vec<String>, String>)
        requires
            old(self).wf(),
        ensures
            final(self).wf(),
            final(self).src() == old(self).src(),
            final(self).pos as int >= old(self).pos as int,
            pr_strs(r, (final(self).pos as int - old(self).pos as int) as nat) == p_lambda_params(old(self).src(), old(self).pos as int, strs_view(ps0@)),
        decreases rem(old(self).src(), old(self).position()), 5nat,
    {
        proof {
            unfold_p_lambda_params(self.src(), self.pos as int, strs_view(ps0@));
        }
        let mut ps = ps0;
        let n = self.expect_name("expected param")?;
        let ghost v0 = ps@;
        ps.push(n);
        proof { assert(strs_view(ps@) =~= strs_view(v0).push(ps@.last()@)); }
        if self.match_tag(Tag::Comma) {
            return self.lambda_params(ps);
        }
        Ok(ps)
    }

    fn or_tail(&mut self, e0: Expr) -> (r: Result<Expr, String>)
        requires
            old(self).wf(),
        ensures
            final(self).wf(),
            final(self).src() == old(self).src(),
            final(self).pos as int >= old(self).pos as int,
            pr_expr(r, (final(self).pos as int - old(self).pos as int) as nat) == p_or_tail(old(self).src(), old(self).pos as int, e0.sv()),
        decreases rem(old(self).src(), old(self).position()), 21nat,
    {
        proof {
            unfold_p_or_tail(self.src(), self.pos as int, e0.sv());
        }
        if !self.match_tag(Tag::Or) {
            return Ok(e0);
        }
        let r = self.parse_and()?;
        self.or_tail(Expr::Logical(LogicOp::Or, Box::new(e0), Box::new(r)))
    }

    fn parse_and(&mut self) -> (r: Result<Expr, String>)
        requires
            old(self).wf(),
        ensures
            final(self).wf(),
            final(self).src() == old(self).src(),
            final(self).pos as int >= old(self).pos as int,
            pr_expr(r, (final(self).pos as int - old(self).pos as int) as nat) == p_and(old(self).src(), old(self).pos as int),
        decreases rem(old(self).src(), old(self).position()), 20nat,
    {
        proof {
            unfold_p_and(self.src(), self.pos as int);
        }
        let e = self.parse_not()?;
        self.and_tail(e)
    }

    fn and_tail(&mut self, e0: Expr) -> (r: Result<Expr, String>)
        requires
            old(self).wf(),
        ensures
            final(self).wf(),
            final(self).src() == old(self).src(),
            final(self).pos as int >= old(self).pos as int,
            pr_expr(r, (final(self).pos as int - old(self).pos as int) as nat) == p_and_tail(old(self).src(), old(self).pos as int, e0.sv()),
        decreases rem(old(self).src(), old(self).position()), 19nat,
    {
        proof {
            unfold_p_and_tail(self.src(), self.pos as int, e0.sv());
        }
        if !self.match_tag(Tag::And) {
            return Ok(e0);
        }
        let r = self.parse_not()?;
        self.and_tail(Expr::Logical(LogicOp::And, Box::new(e0), Box::new(r)))
    }

    fn parse_not(&mut self) -> (r: Result<Expr, String>)
        requires
            old(self).wf(),
        ensures
            final(self).wf(),
            final(self).src() == old(self).src(),
            final(self).pos as int >= old(self).pos as int,
            pr_expr(r, (final(self).pos as int - old(self).pos as int) as nat) == p_not(old(self).src(), old(self).pos as int),
        decreases rem(old(self).src(), old(self).position()), 18nat,
    {
        proof {
            unfold_p_not(self.src(), self.pos as int);
        }
        if self.match_tag(Tag::Not) {
            let e = self.parse_not()?;
            return Ok(Expr::UnaryOp(Op::Not, Box::new(e)));
        }
        self.parse_comp()
    }

    fn parse_comp(&mut self) -> (r: Result<Expr, String>)
        requires
            old(self).wf(),
        ensures
            final(self).wf(),
            final(self).src() == old(self).src(),
            final(self).pos as int >= old(self).pos as int,
            pr_expr(r, (final(self).pos as int - old(self).pos as int) as nat) == p_comp(old(self).src(), old(self).pos as int),
        decreases rem(old(self).src(), old(self).position()), 17nat,
    {
        proof {
            unfold_p_comp(self.src(), self.pos as int);
        }
        let e = self.parse_term()?;
        self.comp_tail(e)
    }

    fn comp_tail(&mut self, e0: Expr) -> (r: Result<Expr, String>)
        requires
            old(self).wf(),
        ensures
            final(self).wf(),
            final(self).src() == old(self).src(),
            final(self).pos as int >= old(self).pos as int,
            pr_expr(r, (final(self).pos as int - old(self).pos as int) as nat) == p_comp_tail(old(self).src(), old(self).pos as int, e0.sv()),
        decreases rem(old(self).src(), old(self).position()), 16nat,
    {
        proof {
            unfold_p_comp_tail(self.src(), self.pos as int, e0.sv());
        }
        proof { self.lemma_kind_here(); }
        let op = match self.tokens[self.pos].kind {
            TokenKind::Eqeq => Op::Eq,
            TokenKind::Ne => Op::Ne,
            TokenKind::Lt => Op::Lt,
            TokenKind::Le => Op::Le,
            TokenKind::Gt => Op::Gt,
            TokenKind::Ge => Op::Ge,
            _ => {
                return Ok(e0);
            },
        };
        self.pos = self.pos + 1;
        let r = self.parse_term()?;
        self.comp_tail(Expr::Compare(op, Box::new(e0), Box::new(r)))
    }

    fn parse_term(&mut self) -> (r: Result<Expr, String>)
        requires
            old(self).wf(),
        ensures
            final(self).wf(),
            final(self).src() == old(self).src(),
            final(self).pos as int >= old(self).pos as int,
            pr_expr(r, (final(self).pos as int - old(self).pos as int) as nat) == p_term(old(self).src(), old(self).pos as int),
        decreases rem(old(self).src(), old(self).position()), 15nat,
    {
        proof {
            unfold_p_term(self.src(), self.pos as int);
        }
        let e = self.parse_factor()?;
        self.term_tail(e)
    }

    fn term_tail(&mut self, e0: Expr) -> (r: Result<Expr, String>)
        requires
            old(self).wf(),
        ensures
            final(self).wf(),
            final(self).src() == old(self).src(),
            final(self).pos as int >= old(self).pos as int,
            pr_expr(r, (final(self).pos as int - old(self).pos as int) as nat) == p_term_tail(old(self).src(), old(self).pos as int, e0.sv()),
        decreases rem(old(self).src(), old(self).position()), 14nat,
    {
        proof {
            unfold_p_term_tail(self.src(), self.pos as int, e0.sv());
        }
        proof { self.lemma_kind_here(); }
        let op = match self.tokens[self.pos].kind {
            TokenKind::Plus => Op::Add,
            TokenKind::Minus => Op::Sub,
            _ => {
                return Ok(e0);
            },
        };
        self.pos = self.pos + 1;
        let r = self.parse_factor()?;
        self.term_tail(Expr::BinOp(op, Box::new(e0), Box::new(r)))
    }

    fn parse_factor(&mut self) -> (r: Result<Expr, String>)
        requires
            old(self).wf(),
        ensures
            final(self).wf(),
            final(self).src() == old(self).src(),
            final(self).pos as int >= old(self).pos as int,
            pr_expr(r, (final(self).pos as int - old(self).pos as int) as nat) == p_factor(old(self).src(), old(self).pos as int),
        decreases rem(old(self).src(), old(self).position()), 13nat,
    {
        proof {
            unfold_p_factor(self.src(), self.pos as int);
        }
        let e = self.parse_unary()?;
        self.factor_tail(e)
    }

    fn factor_tail(&mut self, e0: Expr) -> (r: Result<Expr, String>)
        requires
            old(self).wf(),
        ensures
            final(self).wf(),
            final(self).src() == old(self).src(),
            final(self).pos as int >= old(self).pos as int,
            pr_expr(r, (final(self).pos as int - old(self).pos as int) as nat) == p_factor_tail(old(self).src(), old(self).pos as int, e0.sv()),
        decreases rem(old(self).src(), old(self).position()), 12nat,
    {
        proof {
            unfold_p_factor_tail(self.src(), self.pos as int, e0.sv());
        }
        proof { self.lemma_kind_here(); }
        let op = match self.tokens[self.pos].kind {
            TokenKind::Star => Op::Mul,
            TokenKind::Slash => Op::Div,
            TokenKind::Percent => Op::Mod,
            _ => {
                return Ok(e0);
            },
        };
        self.pos = self.pos + 1;
        let r = self.parse_unary()?;
        self.factor_tail(Expr::BinOp(op, Box::new(e0), Box::new(r)))
    }

    fn parse_unary(&mut self) -> (r: Result<Expr, String>)
        requires
            old(self).wf(),
        ensures
            final(self).wf(),
            final(self).src() == old(self).src(),
            final(self).pos as int >= old(self).pos as int,
            pr_expr(r, (final(self).pos as int - old(self).pos as int) as nat) == p_unary(old(self).src(), old(self).pos as int),
        decreases rem(old(self).src(), old(self).position()), 11nat,
    {
        proof {
            unfold_p_unary(self.src(), self.pos as int);
        }
        if self.match_tag(Tag::Minus) {
            let e = self.parse_unary()?;
            return Ok(Expr::UnaryOp(Op::Neg, Box::new(e)));
        }
        self.parse_primary()
    }

    fn parse_primary(&mut self) -> (r: Result<Expr, String>)
        requires
            old(self).wf(),
        ensures
            final(self).wf(),
            final(self).src() == old(self).src(),
            final(self).pos as int >= old(self).pos as int,
            pr_expr(r, (final(self).pos as int - old(self).pos as int) as nat) == p_primary(old(self).src(), old(self).pos as int),
        decreases rem(old(self).src(), old(self).position()), 10nat,
    {
        proof {
            unfold_p_primary(self.src(), self.pos as int);
        }
        let e = self.parse_atom()?;
        self.parse_postfix(e)
    }

    fn parse_atom(&mut self) -> (r: Result<Expr, String>)
        requires
            old(self).wf(),
        ensures
            final(self).wf(),
            final(self).src() == old(self).src(),
            final(self).pos as int >= old(self).pos as int,
            pr_expr(r, (final(self).pos as int - old(self).pos as int) as nat) == p_atom(old(self).src(), old(self).pos as int),
        decreases rem(old(self).src(), old(self).position()), 9nat,
    {
        proof {
            unfold_p_atom(self.src(), self.pos as int);
        }
        proof { self.lemma_kind_here(); }
        let e = match &self.tokens[self.pos].kind {
            TokenKind::NoneVal => Expr::NoneVal,
            TokenKind::TrueVal => Expr::Bool(true),
            TokenKind::FalseVal => Expr::Bool(false),
            TokenKind::Int(v) => Expr::Int(*v),
            TokenKind::Float(s) => Expr::Float(s.clone()),
            TokenKind::String(s) => Expr::String(s.clone()),
            TokenKind::FString(s) => Expr::FString(s.clone()),
            TokenKind::Name(n) => Expr::Name(n.clone()),
            TokenKind::Lparen => {
                self.pos = self.pos + 1;
                return self.parse_paren();
            },
            TokenKind::Lbracket => {
                self.pos = self.pos + 1;
                return self.parse_bracket();
            },
            TokenKind::Lbrace => {
                self.pos = self.pos + 1;
                return self.parse_brace();
            },
            _ => {
                return Err(self.err_here("expected expr"));
            },
        };
        self.pos = self.pos + 1;
        Ok(e)
    }

    fn parse_paren(&mut self) -> (r: Result<Expr, String>)
        requires
            old(self).wf(),
        ensures
            final(self).wf(),
            final(self).src() == old(self).src(),
            final(self).pos as int >= old(self).pos as int,
            pr_expr(r, (final(self).pos as int - old(self).pos as int) as nat) == p_paren(old(self).src(), old(self).pos as int),
        decreases rem(old(self).src(), old(self).position()), 23nat,
    {
        proof {
            unfold_p_paren(self.src(), self.pos as int);
        }
        if self.match_tag(Tag::Rparen) {
            let v: Vec<Expr> = Vec::new();
            proof { assert(exprs_view(v@) =~= Seq::<SExpr>::empty()); }
            return Ok(Expr::Tuple(v));
        }
        let first = self.parse_expr()?;
        if self.match_tag(Tag::Comma) {
            let mut items: Vec<Expr> = Vec::new();
            items.push(first);
            proof {
                lemma_exprs_push(Seq::empty(), items@[0]);
                assert(Seq::<Expr>::empty().push(items@[0]) =~= items@);
                assert(exprs_view(Seq::empty()) =~= Seq::<SExpr>::empty());
            }
            if self.peek_tag() != Tag::Rparen {
                let items2 = self.comma_items(items, Tag::Rparen)?;
                self.expect(Tag::Rparen, "expected ')'")?;
                return Ok(Expr::Tuple(items2));
            }
            self.expect(Tag::Rparen, "expected ')'")?;
            return Ok(Expr::Tuple(items));
        }
        self.expect(Tag::Rparen, "expected ')'")?;
        Ok(first)
    }

    fn parse_bracket(&mut self) -> (r: Result<Expr, String>)
        requires
            old(self).wf(),
        ensures
            final(self).wf(),
            final(self).src() == old(self).src(),
            final(self).pos as int >= old(self).pos as int,
            pr_expr(r, (final(self).pos as int - old(self).pos as int) as nat) == p_bracket(old(self).src(), old(self).pos as int),
        decreases rem(old(self).src(), old(self).position()), 23nat,
    {
        proof {
            unfold_p_bracket(self.src(), self.pos as int);
        }
        if self.match_tag(Tag::Rbracket) {
            let v: Vec<Expr> = Vec::new();
            proof { assert(exprs_view(v@) =~= Seq::<SExpr>::empty()); }
            return Ok(Expr::List(v));
        }
        let first = self.parse_expr()?;
        if self.match_tag(Tag::For) {
            return self.parse_comprehension(first);
        }
        let mut items: Vec<Expr> = Vec::new();
        items.push(first);
        proof {
            lemma_exprs_push(Seq::empty(), items@[0]);
            assert(Seq::<Expr>::empty().push(items@[0]) =~= items@);
            assert(exprs_view(Seq::empty()) =~= Seq::<SExpr>::empty());
        }
        if self.match_tag(Tag::Comma) && self.peek_tag() != Tag::Rbracket {
            let items2 = self.comma_items(items, Tag::Rbracket)?;
            self.expect(Tag::Rbracket, "expected ']'")?;
            return Ok(Expr::List(items2));
        }
        self.expect(Tag::Rbracket, "expected ']'")?;
        Ok(Expr::List(items))
    }

    fn parse_comprehension(&mut self, elt: Expr) -> (r: Result<Expr, String>)
        requires
            old(self).wf(),
        ensures
            final(self).wf(),
            final(self).src() == old(self).src(),
            final(self).pos as int >= old(self).pos as int,
            pr_expr(r, (final(self).pos as int - old(self).pos as int) as nat) == p_comprehension(old(self).src(), old(self).pos as int, elt.sv()),
        decreases rem(old(self).src(), old(self).position()), 25nat,
    {
        proof {
            unfold_p_comprehension(self.src(), self.pos as int, elt.sv());
        }
        let target = self.parse_expr_list()?;
        self.expect(Tag::In, "expected 'in'")?;
        let iter = self.parse_expr()?;
        let cond = if self.match_tag(Tag::If) {
            let cd = self.parse_expr()?;
            Some(Box::new(cd))
        } else {
            None
        };
        self.expect(Tag::Rbracket, "expected ']'")?;
        Ok(Expr::ListComp(Box::new(elt), Box::new(target), Box::new(iter), cond))
    }

    fn parse_brace(&mut self) -> (r: Result<Expr, String>)
        requires
            old(self).wf(),
        ensures
            final(self).wf(),
            final(self).src() == old(self).src(),
            final(self).pos as int >= old(self).pos as int,
            pr_expr(r, (final(self).pos as int - old(self).pos as int) as nat) == p_brace(old(self).src(), old(self).pos as int),
        decreases rem(old(self).src(), old(self).position()), 24nat,
    {
        proof {
            unfold_p_brace(self.src(), self.pos as int);
        }
        if self.match_tag(Tag::Rbrace) {
            let v: Vec<(Expr, Expr)> = Vec::new();
            proof { assert(pairs_view(v@) =~= Seq::<(SExpr, SExpr)>::empty()); }
            return Ok(Expr::Dict(v));
        }
        let v: Vec<(Expr, Expr)> = Vec::new();
        proof { assert(pairs_view(v@) =~= Seq::<(SExpr, SExpr)>::empty()); }
        let pairs = self.dict_items(v)?;
        self.expect(Tag::Rbrace, "expected '}'")?;
        Ok(Expr::Dict(pairs))
    }

    fn comma_items(&mut self, items0: Vec<Expr>, close: Tag) -> (r: Result<Vec<Expr>, String>)
        requires
            old(self).wf(),
        ensures
            final(self).wf(),
            final(self).src() == old(self).src(),
            final(self).pos as int >= old(self).pos as int,
            pr_exprs(r, (final(self).pos as int - old(self).pos as int) as nat) == p_comma_items(old(self).src(), old(self).pos as int, exprs_view(items0@), close),
        decreases rem(old(self).src(), old(self).position()), 23nat,
    {
        proof {
            unfold_p_comma_items(self.src(), self.pos as int, exprs_view(items0@), close);
        }
        let mut items = items0;
        let e = self.parse_expr()?;
        proof { lemma_exprs_push(items@, e); }
        items.push(e);
        if !self.match_tag(Tag::Comma) || self.peek_tag() == close {
            return Ok(items);
        }
        self.comma_items(items, close)
    }

    fn dict_items(&mut self, pairs0: Vec<(Expr, Expr)>) -> (r: Result<Vec<(Expr, Expr)>, String>)
        requires
            old(self).wf(),
        ensures
            final(self).wf(),
            final(self).src() == old(self).src(),
            final(self).pos as int >= old(self).pos as int,
            pr_pairs(r, (final(self).pos as int - old(self).pos as int) as nat) == p_dict_items(old(self).src(), old(self).pos as int, pairs_view(pairs0@)),
        decreases rem(old(self).src(), old(self).position()), 23nat,
    {
        proof {
            unfold_p_dict_items(self.src(), self.pos as int, pairs_view(pairs0@));
        }
        let mut pairs = pairs0;
        let k = self.parse_expr()?;
        self.expect(Tag::Colon, "expected ':'")?;
        let v = self.parse_expr()?;
        proof { lemma_pairs_push(pairs@, (k, v)); }
        pairs.push((k, v));
        if !self.match_tag(Tag::Comma) || self.peek_tag() == Tag::Rbrace {
            return Ok(pairs);
        }
        self.dict_items(pairs)
    }

    fn call_args(&mut self, args0: Vec<Expr>, kws0: Vec<(String, Expr)>) -> (r: Result<(Vec<Expr>, Vec<(String, Expr)>), String>)
        requires
            old(self).wf(),
        ensures
            final(self).wf(),
            final(self).src() == old(self).src(),
            final(self).pos as int >= old(self).pos as int,
            pr_args(r, (final(self).pos as int - old(self).pos as int) as nat) == p_call_args(old(self).src(), old(self).pos as int, exprs_view(args0@), kwargs_view(kws0@)),
        decreases rem(old(self).src(), old(self).position()), 23nat,
    {
        proof {
            unfold_p_call_args(self.src(), self.pos as int, exprs_view(args0@), kwargs_view(kws0@));
        }
        let mut args = args0;
        let mut kws = kws0;
        proof { self.lemma_kind_here(); }
        let is_kw = match &self.tokens[self.pos].kind {
            TokenKind::Name(_) => self.peek2_tag() == Tag::Equal,
            _ => false,
        };
        if is_kw {
            let name = match &self.tokens[self.pos].kind {
                TokenKind::Name(n) => n.clone(),
                _ => String::new(),
            };
            self.pos = self.pos + 2;
            let v = self.parse_expr()?;
            proof { lemma_kwargs_push(kws@, (name, v)); }
            kws.push((name, v));
        } else {
            let v = self.parse_expr()?;
            proof { lemma_exprs_push(args@, v); }
            args.push(v);
        }
        if !self.match_tag(Tag::Comma) || self.peek_tag() == Tag::Rparen {
            return Ok((args, kws));
        }
        self.call_args(args, kws)
    }

    #[verifier::rlimit(40)]
    #[verifier::spinoff_prover]
    fn parse_postfix(&mut self, e0: Expr) -> (r: Result<Expr, String>)
        requires
            old(self).wf(),
        ensures
            final(self).wf(),
            final(self).src() == old(self).src(),
            final(self).pos as int >= old(self).pos as int,
            pr_expr(r, (final(self).pos as int - old(self).pos as int) as nat) == p_postfix(old(self).src(), old(self).pos as int, e0.sv()),
        decreases rem(old(self).src(), old(self).position()), 8nat,
    {
        proof {
            unfold_p_postfix(self.src(), self.pos as int, e0.sv());
        }
        if self.match_tag(Tag::Lparen) {
            let a: Vec<Expr> = Vec::new();
            let k: Vec<(String, Expr)> = Vec::new();
            proof {
                assert(exprs_view(a@) =~= Seq::<SExpr>::empty());
                assert(kwargs_view(k@) =~= Seq::<(Seq<char>, SExpr)>::empty());
            }
            if self.match_tag(Tag::Rparen) {
                return self.parse_postfix(Expr::Call(Box::new(e0), a, k));
            }
            let (a, k) = self.call_args(a, k)?;
            self.expect(Tag::Rparen, "expected ')'")?;
            return self.parse_postfix(Expr::Call(Box::new(e0), a, k));
        }
        if self.match_tag(Tag::Dot) {
            let n = self.expect_name("expected attr")?;
            return self.parse_postfix(Expr::Attribute(Box::new(e0), n));
        }
        if self.match_tag(Tag::Lbracket) {
            let idx = self.parse_expr()?;
            self.expect(Tag::Rbracket, "expected ']'")?;
            return self.parse_postfix(Expr::Subscript(Box::new(e0), Box::new(idx)));
        }
        Ok(e0)
    }

}


/// A statement consumes at least one token.
pub proof fn lemma_stmt_progress(c: Src, p: int)
    ensures
        p_stmt(c, p) matches Ok((_, n)) ==> n >= 1,
{
    unfold_p_stmt(c, p);
    lemma_expr_list_progress(c, p);
}

pub proof fn lemma_expr_list_progress(c: Src, p: int)
    ensures
        p_expr_list(c, p) matches Ok((_, n)) ==> n >= 1,
{
    unfold_p_expr_list(c, p);
    lemma_expr_progress(c, p);
}

pub proof fn lemma_expr_progress(c: Src, p: int)
    ensures
        p_expr(c, p) matches Ok((_, n)) ==> n >= 1,
{
    unfold_p_expr(c, p);
    unfold_p_and(c, p);
    unfold_p_not(c, p);
    unfold_p_comp(c, p);
    unfold_p_term(c, p);
    unfold_p_factor(c, p);
    unfold_p_unary(c, p);
    unfold_p_primary(c, p);
    unfold_p_atom(c, p);
}

impl<'a> Parser<'a> {
    /// Consumes consecutive `Newline` tokens.
    fn skip_newlines(&mut self)
        requires
            old(self).wf(),
        ensures
            final(self).wf(),
            final(self).src() == old(self).src(),
            final(self).pos == old(self).pos + newlines(old(self).src(), old(self).pos as int),
        decreases rem(old(self).src(), old(self).position()),
    {
        if self.match_tag(Tag::Newline) {
            self.skip_newlines();
        }
    }

    /// Consumes consecutive `Dot` tokens and counts them.
    fn count_dots(&mut self) -> (k: usize)
        requires
            old(self).wf(),
        ensures
            final(self).wf(),
            final(self).src() == old(self).src(),
            k as int == dots(old(self).src(), old(self).pos as int),
            final(self).pos == old(self).pos + k,
        decreases rem(old(self).src(), old(self).position()),
    {
        if self.match_tag(Tag::Dot) {
            let k = self.count_dots();
            k + 1
        } else {
            0
        }
    }

    /// Skips an optional `: annotation`, whether or not it parses.
    fn skip_annotation(&mut self)
        requires
            old(self).wf(),
        ensures
            final(self).wf(),
            final(self).src() == old(self).src(),
            final(self).pos == old(self).pos + annot(old(self).src(), old(self).pos as int),
        decreases rem(old(self).src(), old(self).position()), 23nat,
    {
        if self.match_tag(Tag::Colon) {
            let _ = self.parse_expr();
        }
    }

    fn parse_dotted(&mut self) -> (r: Result<String, String>)
        requires
            old(self).wf(),
        ensures
            final(self).wf(),
            final(self).src() == old(self).src(),
            final(self).pos as int >= old(self).pos as int,
            pr_str(r, (final(self).pos as int - old(self).pos as int) as nat) == p_dotted(old(self).src(), old(self).pos as int),
        decreases rem(old(self).src(), old(self).position()), 5nat,
    {
        proof {
            unfold_p_dotted(self.src(), self.pos as int);
        }
        let n = self.expect_name("expected module name")?;
        self.dotted_tail(n)
    }

    fn dotted_tail(&mut self, acc0: String) -> (r: Result<String, String>)
        requires
            old(self).wf(),
        ensures
            final(self).wf(),
            final(self).src() == old(self).src(),
            final(self).pos as int >= old(self).pos as int,
            pr_str(r, (final(self).pos as int - old(self).pos as int) as nat) == p_dotted_tail(old(self).src(), old(self).pos as int, acc0@),
        decreases rem(old(self).src(), old(self).position()), 4nat,
    {
        proof {
            unfold_p_dotted_tail(self.src(), self.pos as int, acc0@);
        }
        let mut acc = acc0;
        if self.match_tag(Tag::Dot) {
            let n = self.expect_name("expected module name after dot")?;
            push_char(&mut acc, '.');
            acc.append(n.as_str());
            return self.dotted_tail(acc);
        }
        Ok(acc)
    }

    fn parse_block(&mut self) -> (r: Result<Vec<Stmt>, String>)
        requires
            old(self).wf(),
        ensures
            final(self).wf(),
            final(self).src() == old(self).src(),
            final(self).pos as int >= old(self).pos as int,
            pr_stmts(r, (final(self).pos as int - old(self).pos as int) as nat) == p_block(old(self).src(), old(self).pos as int),
        decreases rem(old(self).src(), old(self).position()), 28nat,
    {
        proof {
            unfold_p_block(self.src(), self.pos as int);
        }
        if self.match_tag(Tag::Newline) {
            self.expect(Tag::Indent, "expected indent")?;
            self.skip_newlines();
            let b0: Vec<Stmt> = Vec::new();
            proof { assert(stmts_view(b0@) =~= Seq::<SStmt>::empty()); }
            let b = self.block_items(b0)?;
            self.expect(Tag::Dedent, "expected dedent")?;
            return Ok(b);
        }
        let st = self.parse_stmt()?;
        let mut b: Vec<Stmt> = Vec::new();
        proof { lemma_stmts_push(b@, st); }
        b.push(st);
        proof { assert(stmts_view(b@) =~= seq![b@[0].sv()]); }
        Ok(b)
    }

    fn block_items(&mut self, b0: Vec<Stmt>) -> (r: Result<Vec<Stmt>, String>)
        requires
            old(self).wf(),
        ensures
            final(self).wf(),
            final(self).src() == old(self).src(),
            final(self).pos as int >= old(self).pos as int,
            pr_stmts(r, (final(self).pos as int - old(self).pos as int) as nat) == p_block_items(old(self).src(), old(self).pos as int, stmts_view(b0@)),
        decreases rem(old(self).src(), old(self).position()), 27nat,
    {
        proof {
            unfold_p_block_items(self.src(), self.pos as int, stmts_view(b0@));
        }
        let mut b = b0;
        let t = self.peek_tag();
        if t == Tag::Dedent || t == Tag::Eof {
            return Ok(b);
        }
        let ghost p0 = self.pos as int;
        proof { lemma_stmt_progress(self.src(), p0); }
        let st = self.parse_stmt()?;
        self.skip_newlines();
        proof { lemma_stmts_push(b@, st); }
        b.push(st);
        self.block_items(b)
    }

    /// A whole module: statements up to the end of the token stream.
    pub fn parse_module(&mut self) -> (r: Result<Vec<Stmt>, String>)
        requires
            old(self).wf(),
        ensures
            final(self).wf(),
            final(self).src() == old(self).src(),
            final(self).position() >= old(self).position(),
            pr_stmts(r, (final(self).position() - old(self).position()) as nat) == p_module(old(self).src(), old(self).position()),
        decreases rem(old(self).src(), old(self).position()), 31nat,
    {
        proof {
            unfold_p_module(self.src(), self.pos as int);
        }
        self.skip_newlines();
        let b0: Vec<Stmt> = Vec::new();
        proof { assert(stmts_view(b0@) =~= Seq::<SStmt>::empty()); }
        self.module_items(b0)
    }

    fn module_items(&mut self, b0: Vec<Stmt>) -> (r: Result<Vec<Stmt>, String>)
        requires
            old(self).wf(),
        ensures
            final(self).wf(),
            final(self).src() == old(self).src(),
            final(self).pos as int >= old(self).pos as int,
            pr_stmts(r, (final(self).pos as int - old(self).pos as int) as nat) == p_module_items(old(self).src(), old(self).pos as int, stmts_view(b0@)),
        decreases rem(old(self).src(), old(self).position()), 27nat,
    {
        proof {
            unfold_p_module_items(self.src(), self.pos as int, stmts_view(b0@));
        }
        let mut b = b0;
        if self.peek_tag() == Tag::Eof {
            return Ok(b);
        }
        let ghost p0 = self.pos as int;
        proof { lemma_stmt_progress(self.src(), p0); }
        let st = self.parse_stmt()?;
        self.skip_newlines();
        proof { lemma_stmts_push(b@, st); }
        b.push(st);
        self.module_items(b)
    }

    fn end_simple(&mut self, st: Stmt) -> (r: Result<Stmt, String>)
        requires
            old(self).wf(),
        ensures
            final(self).wf(),
            final(self).src() == old(self).src(),
            final(self).pos as int >= old(self).pos as int,
            pr_stmt(r, (final(self).pos as int - old(self).pos as int) as nat) == end_simple(old(self).src(), old(self).pos as int, st.sv()),
        decreases rem(old(self).src(), old(self).position()), 1nat,
    {
        self.expect(Tag::Newline, "expected newline")?;
        Ok(st)
    }

    #[verifier::rlimit(60)]
    #[verifier::spinoff_prover]
    fn parse_stmt(&mut self) -> (r: Result<Stmt, String>)
        requires
            old(self).wf(),
        ensures
            final(self).wf(),
            final(self).src() == old(self).src(),
            final(self).pos as int >= old(self).pos as int,
            pr_stmt(r, (final(self).pos as int - old(self).pos as int) as nat) == p_stmt(old(self).src(), old(self).pos as int),
        decreases rem(old(self).src(), old(self).position()), 26nat,
    {
        proof {
            unfold_p_stmt(self.src(), self.pos as int);
        }
        if self.match_tag(Tag::Import) {
            return self.parse_import();
        }
        if self.match_tag(Tag::From) {
            return self.parse_from();
        }
        if self.match_tag(Tag::Def) {
            return self.parse_def();
        }
        if self.match_tag(Tag::Class) {
            return self.parse_class();
        }
        if self.match_tag(Tag::Try) {
            return self.parse_try();
        }
        if self.match_tag(Tag::Raise) {
            let e = self.parse_expr()?;
            return self.end_simple(Stmt::Raise(e));
        }
        if self.match_tag(Tag::If) {
            return self.parse_if();
        }
        if self.match_tag(Tag::While) {
            return self.parse_while();
        }
        if self.match_tag(Tag::For) {
            return self.parse_for();
        }
        if self.match_tag(Tag::Return) {
            if self.match_tag(Tag::Newline) {
                return Ok(Stmt::Return(None));
            }
            let e = self.parse_expr_list()?;
            return self.end_simple(Stmt::Return(Some(e)));
        }
        if self.match_tag(Tag::Break) {
            return self.end_simple(Stmt::Break);
        }
        if self.match_tag(Tag::Continue) {
            return self.end_simple(Stmt::Continue);
        }
        if self.match_tag(Tag::Pass) {
            return self.end_simple(Stmt::Pass);
        }
        if self.match_tag(Tag::Yield) {
            if self.match_tag(Tag::Newline) {
                return Ok(Stmt::Yield(None));
            }
            let e = self.parse_expr_list()?;
            return self.end_simple(Stmt::Yield(Some(e)));
        }
        if self.match_tag(Tag::At) {
            let d = self.parse_expr()?;
            self.expect(Tag::Newline, "expected newline")?;
            let t = self.peek_tag();
            if !(t == Tag::Def || t == Tag::Class || t == Tag::At) {
                return Err(self.err_here("expected def or class after decorator"));
            }
            let s = self.parse_stmt()?;
            return Ok(Stmt::Decorated(d, Box::new(s)));
        }
        let e = self.parse_expr_list()?;
        self.stmt_tail(e)
    }

    fn parse_import(&mut self) -> (r: Result<Stmt, String>)
        requires
            old(self).wf(),
        ensures
            final(self).wf(),
            final(self).src() == old(self).src(),
            final(self).pos as int >= old(self).pos as int,
            pr_stmt(r, (final(self).pos as int - old(self).pos as int) as nat) == p_import(old(self).src(), old(self).pos as int),
        decreases rem(old(self).src(), old(self).position()), 25nat,
    {
        proof {
            unfold_p_import(self.src(), self.pos as int);
        }
        let n = self.parse_dotted()?;
        self.end_simple(Stmt::Import(n))
    }

    fn import_names(&mut self, ns0: Vec<String>) -> (r: Result<Vec<String>, String>)
        requires
            old(self).wf(),
        ensures
            final(self).wf(),
            final(self).src() == old(self).src(),
            final(self).pos as int >= old(self).pos as int,
            pr_strs(r, (final(self).pos as int - old(self).pos as int) as nat) == p_import_names(old(self).src(), old(self).pos as int, strs_view(ns0@)),
        decreases rem(old(self).src(), old(self).position()), 3nat,
    {
        proof {
            unfold_p_import_names(self.src(), self.pos as int, strs_view(ns0@));
        }
        let mut ns = ns0;
        let n = self.expect_name("expected name")?;
        let ghost v0 = ns@;
        ns.push(n);
        proof { assert(strs_view(ns@) =~= strs_view(v0).push(ns@.last()@)); }
        if self.match_tag(Tag::Comma) {
            return self.import_names(ns);
        }
        Ok(ns)
    }

    fn parse_from(&mut self) -> (r: Result<Stmt, String>)
        requires
            old(self).wf(),
        ensures
            final(self).wf(),
            final(self).src() == old(self).src(),
            final(self).pos as int >= old(self).pos as int,
            pr_stmt(r, (final(self).pos as int - old(self).pos as int) as nat) == p_from(old(self).src(), old(self).pos as int),
        decreases rem(old(self).src(), old(self).position()), 25nat,
    {
        proof {
            unfold_p_from(self.src(), self.pos as int);
        }
        let level = self.count_dots();
        let module = self.parse_dotted()?;
        self.expect(Tag::Import, "expected 'import'")?;
        let ns0: Vec<String> = Vec::new();
        proof { assert(strs_view(ns0@) =~= Seq::<Seq<char>>::empty()); }
        let names = self.import_names(ns0)?;
        self.end_simple(Stmt::FromImport(module, names, level))
    }

    #[verifier::rlimit(60)]
    #[verifier::spinoff_prover]
    fn def_params(&mut self, acc0: ExecParams) -> (r: Result<ExecParams, String>)
        requires
            old(self).wf(),
        ensures
            final(self).wf(),
            final(self).src() == old(self).src(),
            final(self).pos as int >= old(self).pos as int,
            pr_params(r, (final(self).pos as int - old(self).pos as int) as nat) == p_def_params(old(self).src(), old(self).pos as int, params_of(acc0)),
        decreases rem(old(self).src(), old(self).position()), 24nat,
    {
        proof {
            unfold_p_def_params(self.src(), self.pos as int, params_of(acc0));
        }
        let mut acc = acc0;
        if self.match_tag(Tag::Star) {
            let double = self.match_tag(Tag::Star);
            let n = if double {
                self.expect_name("expected kwarg name")?
            } else {
                self.expect_name("expected vararg name")?
            };
            if double {
                acc.2 = Some(n);
            } else {
                acc.1 = Some(n);
            }
            self.skip_annotation();
            self.match_tag(Tag::Comma);
            if self.peek_tag() == Tag::Rparen {
                return Ok(acc);
            }
            return self.def_params(acc);
        }
        proof { self.lemma_kind_here(); }
        let name = match &self.tokens[self.pos].kind {
            TokenKind::Name(n) => n.clone(),
            _ => {
                return Err(self.err_here("expected parameter name"));
            },
        };
        self.pos = self.pos + 1;
        self.skip_annotation();
        let d = if self.match_tag(Tag::Equal) {
            let v = self.parse_expr()?;
            Some(v)
        } else {
            None
        };
        proof { lemma_params_push(acc.0@, (name, d)); }
        acc.0.push((name, d));
        if !self.match_tag(Tag::Comma) || self.peek_tag() == Tag::Rparen {
            return Ok(acc);
        }
        self.def_params(acc)
    }

    #[verifier::rlimit(40)]
    #[verifier::spinoff_prover]
    fn parse_def(&mut self) -> (r: Result<Stmt, String>)
        requires
            old(self).wf(),
        ensures
            final(self).wf(),
            final(self).src() == old(self).src(),
            final(self).pos as int >= old(self).pos as int,
            pr_stmt(r, (final(self).pos as int - old(self).pos as int) as nat) == p_def(old(self).src(), old(self).pos as int),
        decreases rem(old(self).src(), old(self).position()), 25nat,
    {
        proof {
            unfold_p_def(self.src(), self.pos as int);
        }
        let name = self.expect_name("expected name")?;
        self.expect(Tag::Lparen, "expected '('")?;
        let empty: ExecParams = (Vec::new(), None, None);
        proof { assert(params_view(empty.0@) =~= Seq::<(Seq<char>, Option<SExpr>)>::empty()); }
        let params = if self.match_tag(Tag::Rparen) {
            empty
        } else {
            let ps = self.def_params(empty)?;
            self.expect(Tag::Rparen, "expected ')'")?;
            ps
        };
        if self.match_tag(Tag::Rarrow) {
            let _ = self.parse_expr();
        }
        self.expect(Tag::Colon, "expected ':'")?;
        let body = self.parse_block()?;
        Ok(Stmt::FunctionDef(name, params.0, params.1, params.2, body))
    }

    fn parse_class(&mut self) -> (r: Result<Stmt, String>)
        requires
            old(self).wf(),
        ensures
            final(self).wf(),
            final(self).src() == old(self).src(),
            final(self).pos as int >= old(self).pos as int,
            pr_stmt(r, (final(self).pos as int - old(self).pos as int) as nat) == p_class(old(self).src(), old(self).pos as int),
        decreases rem(old(self).src(), old(self).position()), 25nat,
    {
        proof {
            unfold_p_class(self.src(), self.pos as int);
        }
        let name = self.expect_name("expected class name")?;
        let base = if self.match_tag(Tag::Lparen) {
            let b = self.parse_expr()?;
            self.expect(Tag::Rparen, "expected ')'")?;
            Some(b)
        } else {
            None
        };
        self.expect(Tag::Colon, "expected ':'")?;
        let body = self.parse_block()?;
        Ok(Stmt::ClassDef(name, base, body))
    }

    fn exc_names(&mut self, ts0: Vec<String>) -> (r: Result<Vec<String>, String>)
        requires
            old(self).wf(),
        ensures
            final(self).wf(),
            final(self).src() == old(self).src(),
            final(self).pos as int >= old(self).pos as int,
            pr_strs(r, (final(self).pos as int - old(self).pos as int) as nat) == p_exc_names(old(self).src(), old(self).pos as int, strs_view(ts0@)),
        decreases rem(old(self).src(), old(self).position()), 3nat,
    {
        proof {
            unfold_p_exc_names(self.src(), self.pos as int, strs_view(ts0@));
        }
        let mut ts = ts0;
        let n = self.expect_name("expected exc name")?;
        let ghost v0 = ts@;
        ts.push(n);
        proof { assert(strs_view(ts@) =~= strs_view(v0).push(ts@.last()@)); }
        if self.match_tag(Tag::Comma) {
            return self.exc_names(ts);
        }
        Ok(ts)
    }

    #[verifier::rlimit(60)]
    #[verifier::spinoff_prover]
    fn handlers(&mut self, hs0: Vec<ExecHandler>) -> (r: Result<Vec<ExecHandler>, String>)
        requires
            old(self).wf(),
        ensures
            final(self).wf(),
            final(self).src() == old(self).src(),
            final(self).pos as int >= old(self).pos as int,
            pr_handlers(r, (final(self).pos as int - old(self).pos as int) as nat) == p_handlers(old(self).src(), old(self).pos as int, handlers_view(hs0@)),
        decreases rem(old(self).src(), old(self).position()), 29nat,
    {
        proof {
            unfold_p_handlers(self.src(), self.pos as int, handlers_view(hs0@));
        }
        let mut hs = hs0;
        if !self.match_tag(Tag::Except) {
            return Ok(hs);
        }
        let types: Vec<String> = if self.match_tag(Tag::Lparen) {
            let ts0: Vec<String> = Vec::new();
            proof { assert(strs_view(ts0@) =~= Seq::<Seq<char>>::empty()); }
            let ts = self.exc_names(ts0)?;
            self.expect(Tag::Rparen, "expected ')'")?;
            ts
        } else {
            proof { self.lemma_kind_here(); }
            match &self.tokens[self.pos].kind {
                TokenKind::Name(n) => {
                    let mut ts: Vec<String> = Vec::new();
                    ts.push(n.clone());
                    self.pos = self.pos + 1;
                    proof { assert(strs_view(ts@) =~= seq![ts@[0]@]); }
                    ts
                },
                _ => {
                    let ts: Vec<String> = Vec::new();
                    proof { assert(strs_view(ts@) =~= Seq::<Seq<char>>::empty()); }
                    ts
                },
            }
        };
        let bound = if types.len() > 0 && self.match_tag(Tag::As) {
            let v = self.expect_name("expected var")?;
            Some(v)
        } else {
            None
        };
        self.expect(Tag::Colon, "expected ':'")?;
        let body = self.parse_block()?;
        self.skip_newlines();
        proof { lemma_handlers_push(hs@, (types, bound, body)); }
        hs.push((types, bound, body));
        self.handlers(hs)
    }

    fn parse_try(&mut self) -> (r: Result<Stmt, String>)
        requires
            old(self).wf(),
        ensures
            final(self).wf(),
            final(self).src() == old(self).src(),
            final(self).pos as int >= old(self).pos as int,
            pr_stmt(r, (final(self).pos as int - old(self).pos as int) as nat) == p_try(old(self).src(), old(self).pos as int),
        decreases rem(old(self).src(), old(self).position()), 30nat,
    {
        proof {
            unfold_p_try(self.src(), self.pos as int);
        }
        self.expect(Tag::Colon, "expected ':'")?;
        let body = self.parse_block()?;
        self.skip_newlines();
        let hs0: Vec<ExecHandler> = Vec::new();
        proof { assert(handlers_view(hs0@) =~= Seq::<Handler>::empty()); }
        let hs = self.handlers(hs0)?;
        if hs.len() == 0 {
            return Err("expected 'except' block".to_owned());
        }
        Ok(Stmt::Try(body, hs))
    }

    fn cond_block(&mut self) -> (r: Result<(Expr, Vec<Stmt>), String>)
        requires
            old(self).wf(),
        ensures
            final(self).wf(),
            final(self).src() == old(self).src(),
            final(self).pos as int >= old(self).pos as int,
            pr_cond_block(r, (final(self).pos as int - old(self).pos as int) as nat) == p_cond_block(old(self).src(), old(self).pos as int),
        decreases rem(old(self).src(), old(self).position()), 29nat,
    {
        proof {
            unfold_p_cond_block(self.src(), self.pos as int);
        }
        let t = self.parse_expr()?;
        self.expect(Tag::Colon, "expected ':'")?;
        let b = self.parse_block()?;
        Ok((t, b))
    }

    fn elifs(&mut self, acc0: Vec<(Expr, Vec<Stmt>)>) -> (r: Result<Vec<(Expr, Vec<Stmt>)>, String>)
        requires
            old(self).wf(),
        ensures
            final(self).wf(),
            final(self).src() == old(self).src(),
            final(self).pos as int >= old(self).pos as int,
            pr_elifs(r, (final(self).pos as int - old(self).pos as int) as nat) == p_elifs(old(self).src(), old(self).pos as int, elifs_view(acc0@)),
        decreases rem(old(self).src(), old(self).position()), 30nat,
    {
        proof {
            unfold_p_elifs(self.src(), self.pos as int, elifs_view(acc0@));
        }
        let mut acc = acc0;
        if !self.match_tag(Tag::Elif) {
            return Ok(acc);
        }
        let tb = self.cond_block()?;
        self.skip_newlines();
        let ghost v0 = acc@;
        let ghost tv = (tb.0.sv(), stmts_view(tb.1@));
        acc.push(tb);
        proof { assert(elifs_view(acc@) =~= elifs_view(v0).push(tv)); }
        self.elifs(acc)
    }

    fn parse_if(&mut self) -> (r: Result<Stmt, String>)
        requires
            old(self).wf(),
        ensures
            final(self).wf(),
            final(self).src() == old(self).src(),
            final(self).pos as int >= old(self).pos as int,
            pr_stmt(r, (final(self).pos as int - old(self).pos as int) as nat) == p_if(old(self).src(), old(self).pos as int),
        decreases rem(old(self).src(), old(self).position()), 31nat,
    {
        proof {
            unfold_p_if(self.src(), self.pos as int);
        }
        let (test, body) = self.cond_block()?;
        self.skip_newlines();
        let e0: Vec<(Expr, Vec<Stmt>)> = Vec::new();
        proof { assert(elifs_view(e0@) =~= Seq::<(SExpr, Seq<SStmt>)>::empty()); }
        let elifs = self.elifs(e0)?;
        let els = if self.match_tag(Tag::Else) {
            self.expect(Tag::Colon, "expected ':'")?;
            self.parse_block()?
        } else {
            let v: Vec<Stmt> = Vec::new();
            proof { assert(stmts_view(v@) =~= Seq::<SStmt>::empty()); }
            v
        };
        let folded = nest_elifs(elifs, els);
        Ok(Stmt::If(test, body, folded))
    }

    fn parse_while(&mut self) -> (r: Result<Stmt, String>)
        requires
            old(self).wf(),
        ensures
            final(self).wf(),
            final(self).src() == old(self).src(),
            final(self).pos as int >= old(self).pos as int,
            pr_stmt(r, (final(self).pos as int - old(self).pos as int) as nat) == p_while(old(self).src(), old(self).pos as int),
        decreases rem(old(self).src(), old(self).position()), 30nat,
    {
        proof {
            unfold_p_while(self.src(), self.pos as int);
        }
        let (test, body) = self.cond_block()?;
        Ok(Stmt::While(test, body))
    }

    fn parse_for(&mut self) -> (r: Result<Stmt, String>)
        requires
            old(self).wf(),
        ensures
            final(self).wf(),
            final(self).src() == old(self).src(),
            final(self).pos as int >= old(self).pos as int,
            pr_stmt(r, (final(self).pos as int - old(self).pos as int) as nat) == p_for(old(self).src(), old(self).pos as int),
        decreases rem(old(self).src(), old(self).position()), 30nat,
    {
        proof {
            unfold_p_for(self.src(), self.pos as int);
        }
        let target = self.parse_expr_list()?;
        self.expect(Tag::In, "expected 'in'")?;
        let iter = self.parse_expr_list()?;
        self.expect(Tag::Colon, "expected ':'")?;
        let body = self.parse_block()?;
        Ok(Stmt::For(target, iter, body))
    }

    fn assign_rest(&mut self, target: Expr, is_aug: bool, op: Op) -> (r: Result<Stmt, String>)
        requires
            old(self).wf(),
        ensures
            final(self).wf(),
            final(self).src() == old(self).src(),
            final(self).pos as int >= old(self).pos as int,
            pr_stmt(r, (final(self).pos as int - old(self).pos as int) as nat) == p_assign_rest(old(self).src(), old(self).pos as int, target.sv(), is_aug, op),
        decreases rem(old(self).src(), old(self).position()), 25nat,
    {
        proof {
            unfold_p_assign_rest(self.src(), self.pos as int, target.sv(), is_aug, op);
        }
        let val = self.parse_expr_list()?;
        self.expect(Tag::Newline, "expected newline")?;
        if is_aug {
            let bad = match &target {
                Expr::Tuple(_) => true,
                Expr::List(_) => true,
                _ => false,
            };
            if bad {
                return Err("SyntaxError: illegal target for augmentation".to_owned());
            }
            let copy = target.copy();
            return Ok(Stmt::Assign(target, Expr::BinOp(op, Box::new(copy), Box::new(val))));
        }
        Ok(Stmt::Assign(target, val))
    }

    fn stmt_tail(&mut self, e: Expr) -> (r: Result<Stmt, String>)
        requires
            old(self).wf(),
        ensures
            final(self).wf(),
            final(self).src() == old(self).src(),
            final(self).pos as int >= old(self).pos as int,
            pr_stmt(r, (final(self).pos as int - old(self).pos as int) as nat) == p_stmt_tail(old(self).src(), old(self).pos as int, e.sv()),
        decreases rem(old(self).src(), old(self).position()), 25nat,
    {
        proof {
            unfold_p_stmt_tail(self.src(), self.pos as int, e.sv());
        }
        let t = self.peek_tag();
        if t == Tag::Equal || t == Tag::PlusEq || t == Tag::MinusEq {
            self.match_tag(t);
            let op = if t == Tag::PlusEq { Op::Add } else { Op::Sub };
            return self.assign_rest(e, t != Tag::Equal, op);
        }
        if self.match_tag(Tag::Colon) {
            let t2 = self.peek_tag();
            let _ = self.parse_expr();
            if t2 == Tag::Equal || t2 == Tag::PlusEq || t2 == Tag::MinusEq {
                let plus = self.match_tag(Tag::PlusEq);
                let minus = !plus && self.match_tag(Tag::MinusEq);
                let op = if minus { Op::Sub } else { Op::Add };
                return self.assign_rest(e, plus || minus, op);
            }
            let t3 = self.peek_tag();
            if t3 == Tag::Equal || t3 == Tag::PlusEq || t3 == Tag::MinusEq {
                self.match_tag(t3);
                let op = if t3 == Tag::PlusEq { Op::Add } else { Op::Sub };
                return self.assign_rest(e, t3 != Tag::Equal, op);
            }
        }
        self.end_simple(Stmt::Expr(e))
    }

}

/// Nests `elif` clauses into the `else` branch; see `fold_elifs`.
fn nest_elifs(elifs: Vec<(Expr, Vec<Stmt>)>, els: Vec<Stmt>) -> (r: Vec<Stmt>)
    ensures
        stmts_view(r@) == fold_elifs(elifs_view(elifs@), stmts_view(els@)),
{
    let ghost all = elifs_view(elifs@);
    let ghost e0 = stmts_view(els@);
    let mut rest = elifs;
    let mut acc = els;
    while rest.len() > 0
        invariant
            fold_elifs(elifs_view(rest@), stmts_view(acc@)) == fold_elifs(all, e0),
        decreases rest.len(),
    {
        let ghost before = rest@;
        let (t, b) = rest.pop().unwrap();
        proof {
            assert(elifs_view(rest@) =~= elifs_view(before).drop_last());
        }
        let ghost tv = t.sv();
        let ghost bv = stmts_view(b@);
        let mut v: Vec<Stmt> = Vec::new();
        let ghost av = stmts_view(acc@);
        v.push(Stmt::If(t, b, acc));
        proof {
            lemma_stmts_push(Seq::empty(), v@[0]);
            assert(Seq::<Stmt>::empty().push(v@[0]) =~= v@);
            assert(stmts_view(Seq::empty()) =~= Seq::<SStmt>::empty());
            assert(stmts_view(v@) =~= seq![SStmt::If(tv, bv, av)]);
        }
        acc = v;
    }
    acc
}


/// The statements reached from `s` by following `k` else-branches: from a
/// block that is a single `if`, its `else` block.
pub open spec fn else_branch(s: Seq<SStmt>, k: nat) -> Seq<SStmt>
    decreases k,
{
    if k == 0 {
        s
    } else {
        let t = else_branch(s, (k - 1) as nat);
        if t.len() == 1 && t[0] is If {
            t[0]->If_2
        } else {
            Seq::empty()
        }
    }
}

/// The `elif` clauses of an `if` statement are tried in the order they
/// appear in the source: following the `else` branch `k` times from the
/// first `elif` reaches an `if` whose condition and body are those of the
/// `k`-th `elif`, and after the last `elif` comes the `else` block.
pub proof fn law_elifs_tried_in_order(elifs: Seq<(SExpr, Seq<SStmt>)>, els: Seq<SStmt>)
    ensures
        forall|k: nat| k < elifs.len() ==> {
            let t = #[trigger] else_branch(fold_elifs(elifs, els), k);
            &&& t.len() == 1
            &&& t[0] matches SStmt::If(c, b, _)
            &&& c == elifs[k as int].0
            &&& b == elifs[k as int].1
        },
        else_branch(fold_elifs(elifs, els), elifs.len()) == els,
    decreases elifs.len(),
{
    if elifs.len() > 0 {
        let init = elifs.drop_last();
        let last = elifs.last();
        let e2 = seq![SStmt::If(last.0, last.1, els)];
        law_elifs_tried_in_order(init, e2);
        assert(fold_elifs(elifs, els) == fold_elifs(init, e2));
        assert forall|k: nat| k < elifs.len() implies {
            let t = #[trigger] else_branch(fold_elifs(elifs, els), k);
            &&& t.len() == 1
            &&& t[0] matches SStmt::If(c, b, _)
            &&& c == elifs[k as int].0
            &&& b == elifs[k as int].1
        } by {
            if k < init.len() {
                assert(else_branch(fold_elifs(init, e2), k).len() == 1);
                assert(init[k as int] == elifs[k as int]);
            } else {
                assert(k == init.len());
                assert(else_branch(fold_elifs(init, e2), init.len()) == e2);
            }
        }
        assert(else_branch(fold_elifs(init, e2), init.len()) == e2);
        assert(else_branch(fold_elifs(elifs, els), elifs.len())
            == else_branch(fold_elifs(init, e2), (init.len() + 1) as nat));
    }
}


proof fn lemma_elifs_extend(c: Src, p: int, acc: Seq<(SExpr, Seq<SStmt>)>)
    ensures
        p_elifs(c, p, acc) matches Ok((es, _)) ==> es.len() >= acc.len() && es.subrange(0, acc.len() as int) == acc,
    decreases rem(c, p),
{
    unfold_p_elifs(c, p, acc);
    assert(acc.subrange(0, acc.len() as int) =~= acc);
    if at(c, p, Tag::Elif) {
        match p_cond_block(c, p + 1) {
            Ok((tb, n)) => {
                let nl = newlines(c, p + 1 + n);
                assert(p_elifs(c, p, acc) == bump(p_elifs(c, p + 1 + n + nl, acc.push(tb)), n + 1 + nl));
                lemma_elifs_extend(c, p + 1 + n + nl, acc.push(tb));
                match p_elifs(c, p + 1 + n + nl, acc.push(tb)) {
                    Ok((es, _)) => {
                        assert(es.subrange(0, acc.len() as int) =~= acc.push(tb).subrange(0, acc.len() as int));
                        assert(acc.push(tb).subrange(0, acc.len() as int) =~= acc);
                    },
                    Err(_) => {},
                }
            },
            Err(_) => {},
        }
    }
}

/// The `elif` clauses of an `if` are gathered in the order they appear: the
/// clause that starts where the gathering starts comes right after those
/// gathered before it, and the ones gathered before are kept as they were.
pub proof fn law_elifs_kept_in_source_order(c: Src, p: int, acc: Seq<(SExpr, Seq<SStmt>)>)
    requires
        at(c, p, Tag::Elif),
        p_cond_block(c, p + 1) is Ok,
    ensures
        p_elifs(c, p, acc) matches Ok((es, _)) ==> {
            &&& es.len() > acc.len()
            &&& es.subrange(0, acc.len() as int) == acc
            &&& es[acc.len() as int] == p_cond_block(c, p + 1)->Ok_0.0
        },
{
    unfold_p_elifs(c, p, acc);
    let (tb, n) = p_cond_block(c, p + 1)->Ok_0;
    let nl = newlines(c, p + 1 + n);
    assert(p_elifs(c, p, acc) == bump(p_elifs(c, p + 1 + n + nl, acc.push(tb)), n + 1 + nl));
    lemma_elifs_extend(c, p + 1 + n + nl, acc.push(tb));
    match p_elifs(c, p + 1 + n + nl, acc.push(tb)) {
        Ok((es, _)) => {
            assert(es.subrange(0, acc.len() as int) =~= acc.push(tb).subrange(0, acc.len() as int));
            assert(acc.push(tb).subrange(0, acc.len() as int) =~= acc);
            assert(es.subrange(0, acc.len() + 1int)[acc.len() as int] == tb);
        },
        Err(_) => {},
    }
}

} // verus!
