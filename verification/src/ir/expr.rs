use vstd::prelude::*;

use crate::ir::ast::{JsBinaryOp, JsExpr, JsLiteral, JsUnaryOp};
use crate::ir::ctx::{IRError, ParserContext};
use crate::ir::ir::{exprs_deep, lemma_exprs_deep_push, ExprView, IRExpr};
use crate::ir::lower::{binary_view, expr_lower, exprs_lower};

verus! {

/// `res` is the expression, or the error, that `out` describes.
pub open spec fn expr_is(out: Result<ExprView, IRError>, res: Result<IRExpr, IRError>) -> bool {
    match out {
        Ok(v) => res matches Ok(r) && r.deep() == v,
        Err(e) => res == Err::<IRExpr, IRError>(e),
    }
}

/// `res` is the lowering `out`, a failed lookup included.
pub open spec fn expr_outcome(out: Option<Result<ExprView, IRError>>, res: Option<Result<IRExpr, IRError>>) -> bool {
    match out {
        Some(o) => res matches Some(r) && expr_is(o, r),
        None => res is None,
    }
}

/// `res` is the list of expressions, or the error, that `out` describes.
pub open spec fn exprs_is(out: Result<Seq<ExprView>, IRError>, res: Result<Vec<IRExpr>, IRError>) -> bool {
    match out {
        Ok(vs) => res matches Ok(r) && exprs_deep(r@) == vs,
        Err(e) => res == Err::<Vec<IRExpr>, IRError>(e),
    }
}

/// `res` is the lowering `out` of a list, a failed lookup included.
pub open spec fn exprs_outcome(
    out: Option<Result<Seq<ExprView>, IRError>>,
    res: Option<Result<Vec<IRExpr>, IRError>>,
) -> bool {
    match out {
        Some(o) => res matches Some(r) && exprs_is(o, r),
        None => res is None,
    }
}

/// A list of expressions either lowers its first `j` elements, or its
/// lowering is that of those `j` elements.
pub proof fn lemma_exprs_prefix(input: Option<usize>, es: Seq<JsExpr>, j: int)
    requires
        0 <= j <= es.len(),
    ensures
        (exprs_lower(input, es.take(j)) matches Some(Ok(_))) || exprs_lower(input, es) == exprs_lower(
            input,
            es.take(j),
        ),
    decreases es.len(),
{
    if j == es.len() {
        assert(es.take(j) =~= es);
    } else {
        lemma_exprs_prefix(input, es.drop_last(), j);
        assert(es.drop_last().take(j) =~= es.take(j));
    }
}

/// Builds a binary operation on lowered operands.
fn binary_expr(op: &JsBinaryOp, l: IRExpr, r: IRExpr) -> (res: Result<IRExpr, IRError>)
    ensures
        expr_is(binary_view(*op, l.deep(), r.deep()), res),
{
    let lb = Box::new(l);
    let rb = Box::new(r);
    match op {
        JsBinaryOp::Add => Ok(IRExpr::Add(lb, rb)),
        JsBinaryOp::Sub => Ok(IRExpr::Sub(lb, rb)),
        JsBinaryOp::Mul => Ok(IRExpr::Mul(lb, rb)),
        JsBinaryOp::Div => Ok(IRExpr::Div(lb, rb)),
        JsBinaryOp::Equal | JsBinaryOp::StrictEqual => Ok(IRExpr::BoolNot(Box::new(IRExpr::Sub(lb, rb)))),
        JsBinaryOp::NotEqual | JsBinaryOp::StrictNotEqual => Ok(IRExpr::Sub(lb, rb)),
        JsBinaryOp::GreaterThan => Ok(IRExpr::Gt(lb, rb)),
        JsBinaryOp::LessThan => Ok(IRExpr::Gt(rb, lb)),
        JsBinaryOp::GreaterThanOrEqual => Ok(IRExpr::BoolNot(Box::new(IRExpr::Gt(rb, lb)))),
        JsBinaryOp::LessThanOrEqual => Ok(IRExpr::BoolNot(Box::new(IRExpr::Gt(lb, rb)))),
        JsBinaryOp::Other => Err(IRError::Unsupported),
    }
}

/// Lowers a list of expressions, in order, stopping at the first failure.
pub(crate) fn lower_args(ctx: &ParserContext, args: &Vec<JsExpr>) -> (res: Option<Result<Vec<IRExpr>, IRError>>)
    ensures
        exprs_outcome(exprs_lower(ctx.input, args@), res),
    decreases args@,
{
    let ghost input = ctx.input;
    let mut out: Vec<IRExpr> = Vec::new();
    let mut i: usize = 0;
    proof {
        assert(args@.take(0) =~= Seq::<JsExpr>::empty());
        assert(exprs_deep(out@) =~= Seq::<ExprView>::empty());
    }
    while i < args.len()
        invariant
            i <= args@.len(),
            input == ctx.input,
            exprs_lower(input, args@.take(i as int)) == Some(Ok::<Seq<ExprView>, IRError>(exprs_deep(out@))),
        decreases args@.len() - i,
    {
        proof {
            lemma_exprs_prefix(input, args@, i + 1);
            assert(args@.take(i + 1).drop_last() =~= args@.take(i as int));
            assert(args@.take(i + 1).last() == args@[i as int]);
        }
        let v = match lower_expr(ctx, &args[i]) {
            Some(Ok(v)) => v,
            Some(Err(e)) => {
                return Some(Err(e));
            },
            None => {
                return None;
            },
        };
        proof {
            lemma_exprs_deep_push(out@, v);
        }
        out.push(v);
        i = i + 1;
    }
    proof {
        assert(args@.take(i as int) =~= args@);
    }
    Some(Ok(out))
}

/// Lowers an expression; `None` where the name `input` must be looked
/// up and the source never interned it.
pub fn lower_expr(ctx: &ParserContext, expr: &JsExpr) -> (res: Option<Result<IRExpr, IRError>>)
    ensures
        expr_outcome(expr_lower(ctx.input, *expr), res),
    decreases *expr,
{
    match expr {
        JsExpr::Literal(lit) => match lit {
            JsLiteral::Bool(b) => Some(Ok(IRExpr::Const(if *b { 1 } else { 2 }))),
            JsLiteral::Int(n) => {
                if -128 <= *n && *n <= 127 {
                    Some(Ok(IRExpr::Const(*n as i8)))
                } else {
                    Some(Err(IRError::IntOutOfRange))
                }
            },
            JsLiteral::Other => Some(Err(IRError::Unsupported)),
        },
        JsExpr::Binary { op, lhs, rhs } => {
            let left = match lower_expr(ctx, lhs)? {
                Ok(v) => v,
                Err(e) => {
                    return Some(Err(e));
                },
            };
            let right = match lower_expr(ctx, rhs)? {
                Ok(v) => v,
                Err(e) => {
                    return Some(Err(e));
                },
            };
            Some(binary_expr(op, left, right))
        },
        JsExpr::Unary { op, operand } => {
            let t = match lower_expr(ctx, operand)? {
                Ok(v) => v,
                Err(e) => {
                    return Some(Err(e));
                },
            };
            match op {
                JsUnaryOp::Plus => Some(Ok(t)),
                JsUnaryOp::Minus => {
                    let zero = IRExpr::Const(0);
                    assert(zero.deep() == ExprView::Const(0i8));
                    Some(Ok(IRExpr::Sub(Box::new(zero), Box::new(t))))
                },
                JsUnaryOp::Not => Some(Ok(IRExpr::BoolNot(Box::new(t)))),
                JsUnaryOp::Other => Some(Err(IRError::Unsupported)),
            }
        },
        JsExpr::Identifier(id) => Some(Ok(IRExpr::Id { id: *id, last_use: false })),
        JsExpr::Call { function, args } => match &**function {
            JsExpr::Identifier(id) => {
                let name = ctx.input?;
                if *id == name {
                    if args.len() == 0 {
                        Some(Ok(IRExpr::Input))
                    } else {
                        Some(Err(IRError::InputArguments))
                    }
                } else {
                    match lower_args(ctx, args)? {
                        Ok(a) => Some(Ok(IRExpr::Call { id: *id, args: a })),
                        Err(e) => Some(Err(e)),
                    }
                }
            },
            _ => Some(Err(IRError::Unsupported)),
        },
        _ => Some(Err(IRError::Unimplemented)),
    }
}

/// Lowers an expression of the source program. The source must not
/// need the name `input` looked up without having interned it.
pub fn parse_expr(ctx: &mut ParserContext, expr: &JsExpr) -> (res: Result<IRExpr, IRError>)
    requires
        expr_lower(old(ctx).input, *expr) is Some,
    ensures
        *final(ctx) == *old(ctx),
        expr_is(expr_lower(old(ctx).input, *expr).unwrap(), res),
{
    match lower_expr(ctx, expr) {
        Some(r) => r,
        None => {
            assert(false);
            Err(IRError::Unimplemented)
        },
    }
}

} // verus!
