use vstd::prelude::*;

use crate::ir::ast::{JsAssignOp, JsExpr, JsForInit, JsStmt, JsUpdateOp, JsVarDecl};
use crate::ir::ctx::{IRError, PState, ParserContext};
use crate::ir::expr::{lower_args, lower_expr};
use crate::ir::ir::{
    lemma_stmts_deep_push, lemma_vars_deep_push, stmts_deep, vars_deep, ExprView, IRExpr, IRStmt, IRVarInit,
    StmtView, VarInitView,
};
use crate::ir::lower::{
    assign_view, block_lower, expr_stmt_lower, lemma_var_decls_prefix, stmt_lower, update_view, var_decls_lower,
    var_stmt_lower, Lowered,
};
use crate::ir::stmt_item::lower_nested_items;

verus! {

/// `res` is the statement, or the error, that `out` describes.
pub open spec fn stmt_is(out: Result<StmtView, IRError>, res: Result<IRStmt, IRError>) -> bool {
    match out {
        Ok(v) => res matches Ok(r) && r.deep() == v,
        Err(e) => res == Err::<IRStmt, IRError>(e),
    }
}

/// `res` is the lowering `out`, a failed lookup included.
pub open spec fn stmt_outcome(out: Option<Result<StmtView, IRError>>, res: Option<Result<IRStmt, IRError>>) -> bool {
    match out {
        Some(o) => res matches Some(r) && stmt_is(o, r),
        None => res is None,
    }
}

/// `res` is the lowering `out`, and `st` the state it leaves, unless
/// the lookup failed.
pub open spec fn stmt_lowered(out: Lowered<StmtView>, st: PState, res: Option<Result<IRStmt, IRError>>) -> bool {
    match out {
        Some((s, o)) => st == s && (res matches Some(r) && stmt_is(o, r)),
        None => res is None,
    }
}

/// `res` is the list of statements, or the error, that `out` describes.
pub open spec fn stmts_is(out: Result<Seq<StmtView>, IRError>, res: Result<Vec<IRStmt>, IRError>) -> bool {
    match out {
        Ok(vs) => res matches Ok(r) && stmts_deep(r@) == vs,
        Err(e) => res == Err::<Vec<IRStmt>, IRError>(e),
    }
}

/// `res` is the lowering `out` of a list, and `st` the state it leaves,
/// unless the lookup failed.
pub open spec fn stmts_lowered(
    out: Lowered<Seq<StmtView>>,
    st: PState,
    res: Option<Result<Vec<IRStmt>, IRError>>,
) -> bool {
    match out {
        Some((s, o)) => st == s && (res matches Some(r) && stmts_is(o, r)),
        None => res is None,
    }
}

/// A reference to the variable `id`.
fn var_ref(id: usize) -> (e: IRExpr)
    ensures
        e.deep() == (ExprView::Id { id, last_use: false }),
{
    IRExpr::Id { id, last_use: false }
}

/// The constant one.
fn one() -> (e: IRExpr)
    ensures
        e.deep() == ExprView::Const(1i8),
{
    IRExpr::Const(1)
}

/// Builds the assignment of a lowered value to `id`.
fn assign_stmt(op: &JsAssignOp, id: usize, v: IRExpr) -> (res: Result<IRStmt, IRError>)
    ensures
        stmt_is(assign_view(*op, id, v.deep()), res),
{
    match op {
        JsAssignOp::Assign => Ok(IRStmt::Assign { id, value: v }),
        JsAssignOp::Add => Ok(IRStmt::Assign { id, value: IRExpr::Add(Box::new(var_ref(id)), Box::new(v)) }),
        JsAssignOp::Sub => Ok(IRStmt::Assign { id, value: IRExpr::Sub(Box::new(var_ref(id)), Box::new(v)) }),
        JsAssignOp::Mul => Ok(IRStmt::Assign { id, value: IRExpr::Mul(Box::new(var_ref(id)), Box::new(v)) }),
        JsAssignOp::Div => Ok(IRStmt::Assign { id, value: IRExpr::Div(Box::new(var_ref(id)), Box::new(v)) }),
        JsAssignOp::Other => Err(IRError::UnsupportedAssignment),
    }
}

/// Builds the increment or decrement of `id`.
fn update_stmt(op: &JsUpdateOp, id: usize) -> (s: IRStmt)
    ensures
        s.deep() == update_view(*op, id),
{
    match op {
        JsUpdateOp::IncrementPost | JsUpdateOp::IncrementPre => IRStmt::Assign {
            id,
            value: IRExpr::Add(Box::new(var_ref(id)), Box::new(one())),
        },
        JsUpdateOp::DecrementPost | JsUpdateOp::DecrementPre => IRStmt::Assign {
            id,
            value: IRExpr::Sub(Box::new(var_ref(id)), Box::new(one())),
        },
    }
}

/// Lowers the variables of a `var` declaration into a definition.
pub(crate) fn lower_var_stmt(ctx: &ParserContext, vars: &Vec<JsVarDecl>) -> (res: Option<Result<IRStmt, IRError>>)
    ensures
        stmt_outcome(var_stmt_lower(ctx.input, vars@), res),
{
    let ghost input = ctx.input;
    let mut out: Vec<IRVarInit> = Vec::new();
    let mut i: usize = 0;
    proof {
        assert(vars@.take(0) =~= Seq::<JsVarDecl>::empty());
        assert(vars_deep(out@) =~= Seq::<VarInitView>::empty());
    }
    while i < vars.len()
        invariant
            i <= vars@.len(),
            input == ctx.input,
            var_decls_lower(input, vars@.take(i as int)) == Some(Ok::<Seq<VarInitView>, IRError>(vars_deep(out@))),
        decreases vars@.len() - i,
    {
        proof {
            lemma_var_decls_prefix(input, vars@, i + 1);
            assert(vars@.take(i + 1).drop_last() =~= vars@.take(i as int));
            assert(vars@.take(i + 1).last() == vars@[i as int]);
        }
        let d = &vars[i];
        match d.binding {
            Some(id) => {
                let init = match &d.init {
                    Some(e) => match lower_expr(ctx, e) {
                        Some(Ok(v)) => Some(v),
                        Some(Err(err)) => {
                            return Some(Err(err));
                        },
                        None => {
                            return None;
                        },
                    },
                    None => None,
                };
                let vi = IRVarInit { id, init };
                proof {
                    lemma_vars_deep_push(out@, vi);
                }
                out.push(vi);
            },
            None => {
                return Some(Err(IRError::UnsupportedVariableDeclaration));
            },
        }
        i = i + 1;
    }
    proof {
        assert(vars@.take(i as int) =~= vars@);
    }
    Some(Ok(IRStmt::VariableDefine { vars: out }))
}

/// Lowers an expression used as a statement.
pub(crate) fn lower_expr_stmt(ctx: &ParserContext, e: &JsExpr) -> (res: Option<Result<IRStmt, IRError>>)
    ensures
        stmt_outcome(expr_stmt_lower(ctx.input, *e), res),
{
    match e {
        JsExpr::Assign { op, target, rhs } => match target {
            Some(id) => match lower_expr(ctx, rhs)? {
                Ok(v) => Some(assign_stmt(op, *id, v)),
                Err(err) => Some(Err(err)),
            },
            None => Some(Err(IRError::UnsupportedAssignmentTarget)),
        },
        JsExpr::Call { function, args } => match &**function {
            JsExpr::Identifier(id) => match lower_args(ctx, args)? {
                Ok(a) => Some(Ok(IRStmt::Call { id: *id, args: a })),
                Err(err) => Some(Err(err)),
            },
            _ => Some(Err(IRError::UnsupportedCallee)),
        },
        JsExpr::Update { op, target } => match target {
            Some(id) => Some(Ok(update_stmt(op, *id))),
            None => Some(Err(IRError::UnsupportedUpdateTarget)),
        },
        _ => Some(Err(IRError::UnsupportedStatement)),
    }
}

/// Lowers the body of a loop or a conditional.
pub(crate) fn lower_block(ctx: &mut ParserContext, s: &JsStmt) -> (res: Option<Result<Vec<IRStmt>, IRError>>)
    ensures
        final(ctx).input == old(ctx).input,
        stmts_lowered(block_lower(old(ctx).input, old(ctx).state(), *s), final(ctx).state(), res),
    decreases *s, 2nat,
{
    match s {
        JsStmt::Block(items) => {
            proof {
                assert(items@.take(items@.len() as int) =~= items@);
            }
            lower_nested_items(ctx, items, items.len())
        },
        _ => {
            let v = match lower_stmt(ctx, s)? {
                Ok(v) => v,
                Err(err) => {
                    return Some(Err(err));
                },
            };
            let mut out: Vec<IRStmt> = Vec::new();
            proof {
                lemma_stmts_deep_push(out@, v);
                assert(stmts_deep(out@) =~= Seq::<StmtView>::empty());
                assert(seq![v.deep()] =~= Seq::<StmtView>::empty().push(v.deep()));
            }
            out.push(v);
            Some(Ok(out))
        },
    }
}

/// Lowers a `for` loop into a block of its initializer and a `while`
/// loop over its body and update.
fn lower_for(
    ctx: &mut ParserContext,
    init: &Option<JsForInit>,
    condition: &Option<JsExpr>,
    final_expr: &Option<JsExpr>,
    body: &Box<JsStmt>,
) -> (res: Option<Result<IRStmt, IRError>>)
    ensures
        final(ctx).input == old(ctx).input,
        stmt_lowered(
            stmt_lower(
                old(ctx).input,
                old(ctx).state(),
                (JsStmt::ForLoop { init: *init, condition: *condition, final_expr: *final_expr, body: *body }),
            ),
            final(ctx).state(),
            res,
        ),
    decreases (JsStmt::ForLoop { init: *init, condition: *condition, final_expr: *final_expr, body: *body }), 0nat,
{
    let mut head: Vec<IRStmt> = Vec::new();
    match init {
        Some(i) => {
            let r = match i {
                JsForInit::Var(vars) => lower_var_stmt(ctx, vars),
                JsForInit::Lexical(vars) => lower_var_stmt(ctx, vars),
                JsForInit::Expression(e) => lower_expr_stmt(ctx, e),
            };
            let v = match r? {
                Ok(v) => v,
                Err(err) => {
                    return Some(Err(err));
                },
            };
            proof {
                lemma_stmts_deep_push(head@, v);
                assert(stmts_deep(head@) =~= Seq::<StmtView>::empty());
                assert(seq![v.deep()] =~= Seq::<StmtView>::empty().push(v.deep()));
            }
            head.push(v);
        },
        None => {
            proof {
                assert(stmts_deep(head@) =~= Seq::<StmtView>::empty());
            }
        },
    }
    let mut loop_body = match lower_block(ctx, body)? {
        Ok(b) => b,
        Err(err) => {
            return Some(Err(err));
        },
    };
    let ghost b0 = stmts_deep(loop_body@);
    match final_expr {
        Some(u) => {
            let v = match lower_expr_stmt(ctx, u)? {
                Ok(v) => v,
                Err(err) => {
                    return Some(Err(err));
                },
            };
            proof {
                lemma_stmts_deep_push(loop_body@, v);
                assert(b0.push(v.deep()) =~= b0 + seq![v.deep()]);
            }
            loop_body.push(v);
        },
        None => {
            proof {
                assert(b0 =~= b0 + Seq::<StmtView>::empty());
            }
        },
    }
    let c = match condition {
        Some(c) => match lower_expr(ctx, c)? {
            Ok(v) => v,
            Err(err) => {
                return Some(Err(err));
            },
        },
        None => IRExpr::Const(1),
    };
    let w = IRStmt::While { condition: c, body: loop_body };
    proof {
        lemma_stmts_deep_push(head@, w);
    }
    head.push(w);
    Some(Ok(IRStmt::Block { body: head }))
}

/// Lowers a statement; `None` where the name `input` must be looked up
/// and the source never interned it.
pub fn lower_stmt(ctx: &mut ParserContext, stmt: &JsStmt) -> (res: Option<Result<IRStmt, IRError>>)
    ensures
        final(ctx).input == old(ctx).input,
        stmt_lowered(stmt_lower(old(ctx).input, old(ctx).state(), *stmt), final(ctx).state(), res),
    decreases *stmt, 1nat,
{
    match stmt {
        JsStmt::Var(vars) => lower_var_stmt(ctx, vars),
        JsStmt::Expression(e) => lower_expr_stmt(ctx, e),
        JsStmt::WhileLoop { cond, body } => {
            let c = match lower_expr(ctx, cond)? {
                Ok(v) => v,
                Err(err) => {
                    return Some(Err(err));
                },
            };
            let b = match lower_block(ctx, body)? {
                Ok(v) => v,
                Err(err) => {
                    return Some(Err(err));
                },
            };
            Some(Ok(IRStmt::While { condition: c, body: b }))
        },
        JsStmt::If { cond, body, else_node } => {
            let c = match lower_expr(ctx, cond)? {
                Ok(v) => v,
                Err(err) => {
                    return Some(Err(err));
                },
            };
            let b = match lower_block(ctx, body)? {
                Ok(v) => v,
                Err(err) => {
                    return Some(Err(err));
                },
            };
            let eb = match else_node {
                Some(en) => match lower_block(ctx, en)? {
                    Ok(v) => Some(v),
                    Err(err) => {
                        return Some(Err(err));
                    },
                },
                None => None,
            };
            Some(Ok(IRStmt::If { condition: c, body: b, else_body: eb }))
        },
        JsStmt::Block(items) => {
            proof {
                assert(items@.take(items@.len() as int) =~= items@);
            }
            match lower_nested_items(ctx, items, items.len())? {
                Ok(b) => Some(Ok(IRStmt::Block { body: b })),
                Err(err) => Some(Err(err)),
            }
        },
        JsStmt::ForLoop { init, condition, final_expr, body } => lower_for(ctx, init, condition, final_expr, body),
        JsStmt::Empty => Some(Ok(IRStmt::Noop)),
        _ => Some(Err(IRError::UnsupportedStatement)),
    }
}

/// Lowers a statement of the source program. The source must not need
/// the name `input` looked up without having interned it.
pub fn parse_stmt(ctx: &mut ParserContext, stmt: &JsStmt) -> (res: Result<IRStmt, IRError>)
    requires
        stmt_lower(old(ctx).input, old(ctx).state(), *stmt) is Some,
    ensures
        final(ctx).input == old(ctx).input,
        final(ctx).state() == stmt_lower(old(ctx).input, old(ctx).state(), *stmt).unwrap().0,
        stmt_is(stmt_lower(old(ctx).input, old(ctx).state(), *stmt).unwrap().1, res),
{
    match lower_stmt(ctx, stmt) {
        Some(r) => r,
        None => {
            assert(false);
            Err(IRError::UnsupportedStatement)
        },
    }
}

} // verus!
