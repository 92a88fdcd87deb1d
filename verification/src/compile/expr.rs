use std::collections::HashMap;

use vstd::prelude::*;

use crate::assembly::program::{lemma_ops_deep_concat, lemma_ops_deep_push, ops_deep, AssemblyOp, OpView};
use crate::compile::ctx::{
    alloc_noname_spec, free_spec, get_spec, pop_spec, push_spec, CState, CompileContext, CompileError,
};
use crate::ir::ir::{IRExpr, IRFunc};

verus! {

/// What a compiling step gives: the bookkeeping afterwards and the code or
/// the error; `None` when the step would panic.
pub type Outcome<T> = Option<(CState, Result<T, CompileError>)>;

/// Closes the expression's scope and yields its code.
pub open spec fn finish_spec(s: CState, ops: Seq<OpView>) -> Outcome<Seq<OpView>> {
    match pop_spec(s) {
        Some(s2) => Some((s2, Ok(ops))),
        None => None,
    }
}

/// The code that puts the value of `e` into cell `target`, and the
/// bookkeeping after it. The expression gets a scope of its own; a sum or a
/// difference computes its left side into `target` and its right side into a
/// fresh cell, which is then added into (or subtracted from) `target`; a
/// variable is copied into `target` through a fresh cell that restores it.
pub open spec fn expr_spec(s: CState, target: usize, e: IRExpr) -> Outcome<Seq<OpView>>
    decreases e,
{
    let s0 = push_spec(s);
    match e {
        IRExpr::Const(c) => finish_spec(s0, seq![OpView::SetCell(target, c)]),
        IRExpr::Add(l, r) | IRExpr::Sub(l, r) => {
            let factor: i8 = if e is Add { 1i8 } else { -1i8 };
            match expr_spec(s0, target, *l) {
                Some((s1, Ok(ops1))) => match alloc_noname_spec(s1) {
                    Some((s2, rp)) => match expr_spec(s2, rp, *r) {
                        Some((s3, Ok(ops2))) => match free_spec(s3, rp) {
                            Some(Ok(s4)) => finish_spec(
                                s4,
                                ops1 + ops2 + seq![OpView::Move(rp, seq![(target, factor)])],
                            ),
                            Some(Err(er)) => Some((s3, Err(er))),
                            None => None,
                        },
                        other => other,
                    },
                    None => None,
                },
                other => other,
            }
        },
        IRExpr::Id { id, last_use } => match get_spec(s0, id) {
            Ok(ptr) => match alloc_noname_spec(s0) {
                Some((s1, tmp)) => match free_spec(s1, tmp) {
                    Some(Ok(s2)) => finish_spec(
                        s2,
                        seq![
                            OpView::Move(ptr, seq![(tmp, 1i8)]),
                            OpView::Move(tmp, seq![(ptr, 1i8), (target, 1i8)]),
                        ],
                    ),
                    Some(Err(er)) => Some((s1, Err(er))),
                    None => None,
                },
                None => None,
            },
            Err(er) => Some((s0, Err(er))),
        },
        _ => Some((s0, Err(CompileError::Unimplemented))),
    }
}

/// The exec result matches the spec outcome.
pub open spec fn matches_outcome(
    out: Outcome<Seq<OpView>>,
    state: CState,
    res: Result<Vec<AssemblyOp>, CompileError>,
) -> bool {
    match out {
        Some((s, Ok(ops))) => state == s && (res matches Ok(v) && ops_deep(v@) == ops),
        Some((s, Err(e))) => state == s && res == Err::<Vec<AssemblyOp>, CompileError>(e),
        None => false,
    }
}

/// `res` is the outcome `out`, and `state` the bookkeeping it leaves,
/// unless `out` is a panic of the bookkeeping, which `res` reports as `None`.
pub open spec fn emitted(
    out: Outcome<Seq<OpView>>,
    state: CState,
    res: Option<Result<Vec<AssemblyOp>, CompileError>>,
) -> bool {
    match out {
        Some((s, Ok(ops))) => state == s && (res matches Some(Ok(v)) && ops_deep(v@) == ops),
        Some((s, Err(e))) => state == s && res == Some(Err::<Vec<AssemblyOp>, CompileError>(e)),
        None => res is None,
    }
}

/// The code of a sum or a difference, inside the expression's scope: the
/// left side into `target`, the right side into a fresh cell, then that
/// cell added into (or subtracted from) `target`.
fn emit_binary(
    ctx: &mut CompileContext,
    funcs: &HashMap<usize, IRFunc>,
    target: usize,
    expr: &IRExpr,
) -> (res: Option<Result<Vec<AssemblyOp>, CompileError>>)
    requires
        *expr is Add || *expr is Sub,
    ensures
        final(ctx).arrays == old(ctx).arrays,
        ({
            let s0 = old(ctx).state();
            let (l, r) = match *expr {
                IRExpr::Add(l, r) => (*l, *r),
                IRExpr::Sub(l, r) => (*l, *r),
                _ => (*expr, *expr),
            };
            let factor: i8 = if *expr is Add { 1i8 } else { -1i8 };
            emitted(
                match expr_spec(s0, target, l) {
                    Some((s1, Ok(ops1))) => match alloc_noname_spec(s1) {
                        Some((s2, rp)) => match expr_spec(s2, rp, r) {
                            Some((s3, Ok(ops2))) => match free_spec(s3, rp) {
                                Some(Ok(s4)) => Some(
                                    (s4, Ok(ops1 + ops2 + seq![OpView::Move(rp, seq![(target, factor)])])),
                                ),
                                Some(Err(er)) => Some((s3, Err(er))),
                                None => None,
                            },
                            other => other,
                        },
                        None => None,
                    },
                    other => other,
                },
                final(ctx).state(),
                res,
            )
        }),
    decreases *expr, 0nat,
{
    let (l, r, factor): (&IRExpr, &IRExpr, i8) = match expr {
        IRExpr::Add(l, r) => (&**l, &**r, 1),
        IRExpr::Sub(l, r) => (&**l, &**r, -1),
        _ => (expr, expr, 0),
    };
    let mut code = match emit_expr(ctx, funcs, target, l)? {
        Ok(v) => v,
        Err(e) => {
            return Some(Err(e));
        },
    };
    let ghost lv = code@;
    if ctx.usage == usize::MAX {
        return None;
    }
    let rp = ctx.alloc_noname();
    let mut right = match emit_expr(ctx, funcs, rp, r)? {
        Ok(v) => v,
        Err(e) => {
            return Some(Err(e));
        },
    };
    let ghost rv = right@;
    code.append(&mut right);
    let dests = vec![(target, factor)];
    let ghost before = code@;
    code.push(AssemblyOp::Move(rp, dests));
    proof {
        lemma_ops_deep_concat(lv, rv);
        lemma_ops_deep_push(before, AssemblyOp::Move(rp, dests));
        assert(dests@ =~= seq![(target, factor)]);
        assert(ops_deep(code@) =~= ops_deep(lv) + ops_deep(rv) + seq![OpView::Move(rp, seq![(target, factor)])]);
    }
    if ctx.usage == 0 {
        return None;
    }
    if let Err(e) = ctx.free(rp) {
        return Some(Err(e));
    }
    Some(Ok(code))
}

/// Compiles `expr` into code that leaves its value in cell `target`;
/// `None` where the bookkeeping would overflow or find no scope open.
pub fn emit_expr(
    ctx: &mut CompileContext,
    funcs: &HashMap<usize, IRFunc>,
    target: usize,
    expr: &IRExpr,
) -> (res: Option<Result<Vec<AssemblyOp>, CompileError>>)
    ensures
        emitted(expr_spec(old(ctx).state(), target, *expr), final(ctx).state(), res),
        final(ctx).arrays == old(ctx).arrays,
    decreases *expr, 1nat,
{
    let mut code: Vec<AssemblyOp> = Vec::new();
    ctx.push();

    match expr {
        IRExpr::Const(c) => {
            code.push(AssemblyOp::SetCell(target, *c));
            proof {
                lemma_ops_deep_push(Seq::empty(), AssemblyOp::SetCell(target, *c));
                assert(ops_deep(Seq::<AssemblyOp>::empty()) =~= Seq::<OpView>::empty());
                assert(ops_deep(code@) =~= seq![OpView::SetCell(target, *c)]);
            }
        },
        IRExpr::Add(..) | IRExpr::Sub(..) => {
            let mut inner = match emit_binary(ctx, funcs, target, expr)? {
                Ok(v) => v,
                Err(e) => {
                    return Some(Err(e));
                },
            };
            proof {
                assert(code@ + inner@ =~= inner@);
            }
            code.append(&mut inner);
        },
        IRExpr::Id { id, last_use: _ } => {
            let ptr = match ctx.get(*id) {
                Ok(p) => p,
                Err(e) => {
                    return Some(Err(e));
                },
            };
            if ctx.usage == usize::MAX {
                return None;
            }
            let tmp = ctx.alloc_noname();
            let d1 = vec![(tmp, 1)];
            let d2 = vec![(ptr, 1), (target, 1)];
            code.push(AssemblyOp::Move(ptr, d1));
            code.push(AssemblyOp::Move(tmp, d2));
            proof {
                lemma_ops_deep_push(Seq::empty(), AssemblyOp::Move(ptr, d1));
                lemma_ops_deep_push(seq![AssemblyOp::Move(ptr, d1)], AssemblyOp::Move(tmp, d2));
                assert(ops_deep(Seq::<AssemblyOp>::empty()) =~= Seq::<OpView>::empty());
                assert(d1@ =~= seq![(tmp, 1i8)]);
                assert(d2@ =~= seq![(ptr, 1i8), (target, 1i8)]);
                assert(code@ =~= seq![AssemblyOp::Move(ptr, d1), AssemblyOp::Move(tmp, d2)]);
                assert(ops_deep(code@) =~= seq![
                    OpView::Move(ptr, seq![(tmp, 1i8)]),
                    OpView::Move(tmp, seq![(ptr, 1i8), (target, 1i8)]),
                ]);
            }
            if ctx.usage == 0 {
                return None;
            }
            if let Err(e) = ctx.free(tmp) {
                return Some(Err(e));
            }
        },
        _ => {
            return Some(Err(CompileError::Unimplemented));
        },
    }

    if ctx.var_map.len() == 0 {
        return None;
    }
    ctx.pop();
    Some(Ok(code))
}

/// Compiles `expr` into code that leaves its value in cell `target`. The
/// bookkeeping must neither overflow nor find no scope open on the way.
pub fn compile_expr(
    ctx: &mut CompileContext,
    funcs: &HashMap<usize, IRFunc>,
    target: usize,
    expr: &IRExpr,
) -> (res: Result<Vec<AssemblyOp>, CompileError>)
    requires
        expr_spec(old(ctx).state(), target, *expr) is Some,
    ensures
        matches_outcome(expr_spec(old(ctx).state(), target, *expr), final(ctx).state(), res),
        final(ctx).arrays == old(ctx).arrays,
{
    match emit_expr(ctx, funcs, target, expr) {
        Some(r) => r,
        None => {
            assert(false);
            Err(CompileError::Unimplemented)
        },
    }
}

} // verus!
