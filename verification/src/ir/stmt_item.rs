use std::collections::HashMap;

use vstd::prelude::*;

use crate::ir::ast::{JsDeclaration, JsExpr, JsFunction, JsItem, JsParam, JsStmt, JsVarDecl};
use crate::ir::ctx::{IRError, PState, ParserContext};
use crate::ir::expr::lower_expr;
use crate::ir::ir::{
    lemma_funcs_deep_insert, lemma_stmts_deep_push, lemma_vars_deep_push, stmts_deep, vars_deep, IRFunc,
    IRExpr, IRStmt, IRVarInit, StmtView, VarInitView,
};
use crate::ir::lower::{
    item_lower, items_lower, lemma_items_prefix, lemma_lexical_prefix, lemma_params_prefix, lexical_lower,
    lexical_stmt_lower, nested_items_lower, params_lower,
};
use crate::ir::stmt::{lower_stmt, stmt_is, stmt_lowered, stmts_lowered};

verus! {

broadcast use vstd::std_specs::hash::group_hash_axioms;

/// Lowers the first `n` items, in order, stopping at the first failure.
pub(crate) fn lower_items(ctx: &mut ParserContext, items: &Vec<JsItem>, n: usize) -> (res: Option<
    Result<Vec<IRStmt>, IRError>,
>)
    requires
        n <= items@.len(),
    ensures
        final(ctx).input == old(ctx).input,
        stmts_lowered(items_lower(old(ctx).input, old(ctx).state(), items@.take(n as int)), final(ctx).state(), res),
    decreases items@, 1nat,
{
    let ghost input = ctx.input;
    let ghost st0 = ctx.state();
    let ghost whole = items@.take(n as int);
    let mut out: Vec<IRStmt> = Vec::new();
    let mut i: usize = 0;
    proof {
        assert(whole.take(0) =~= Seq::<JsItem>::empty());
        assert(stmts_deep(out@) =~= Seq::<StmtView>::empty());
    }
    while i < n
        invariant
            i <= n,
            n <= items@.len(),
            whole == items@.take(n as int),
            input == ctx.input,
            st0 == old(ctx).state(),
            input == old(ctx).input,
            items_lower(input, st0, whole.take(i as int)) == Some(
                (ctx.state(), Ok::<Seq<StmtView>, IRError>(stmts_deep(out@))),
            ),
        decreases n - i,
    {
        proof {
            lemma_items_prefix(input, st0, whole, i + 1);
            assert(whole.take(i + 1).drop_last() =~= whole.take(i as int));
            assert(whole.take(i + 1).last() == items@[i as int]);
        }
        let v = match lower_item(ctx, &items[i]) {
            Some(Ok(v)) => v,
            Some(Err(e)) => {
                return Some(Err(e));
            },
            None => {
                return None;
            },
        };
        proof {
            lemma_stmts_deep_push(out@, v);
        }
        out.push(v);
        i = i + 1;
    }
    proof {
        assert(whole.take(i as int) =~= whole);
    }
    Some(Ok(out))
}

/// Lowers the first `n` items where no function may be declared,
/// leaving the function table as it was.
pub(crate) fn lower_nested_items(ctx: &mut ParserContext, items: &Vec<JsItem>, n: usize) -> (res: Option<
    Result<Vec<IRStmt>, IRError>,
>)
    requires
        n <= items@.len(),
    ensures
        final(ctx).input == old(ctx).input,
        final(ctx).funcs == old(ctx).funcs,
        stmts_lowered(
            nested_items_lower(old(ctx).input, old(ctx).state(), items@.take(n as int)),
            final(ctx).state(),
            res,
        ),
    decreases items@, 2nat,
{
    let saved = ctx.funcs.take();
    let r = lower_items(ctx, items, n);
    ctx.funcs = saved;
    r
}

/// Lowers a `let` or `const` declaration, recording the names bound to
/// array literals.
fn lower_lexical(ctx: &mut ParserContext, vars: &Vec<JsVarDecl>) -> (res: Option<Result<IRStmt, IRError>>)
    ensures
        final(ctx).input == old(ctx).input,
        final(ctx).funcs == old(ctx).funcs,
        stmt_lowered(lexical_stmt_lower(old(ctx).input, old(ctx).state(), vars@), final(ctx).state(), res),
{
    let ghost input = ctx.input;
    let ghost st0 = ctx.state();
    let mut out: Vec<IRVarInit> = Vec::new();
    let mut i: usize = 0;
    proof {
        assert(vars@.take(0) =~= Seq::<JsVarDecl>::empty());
        assert(vars_deep(out@) =~= Seq::<VarInitView>::empty());
    }
    while i < vars.len()
        invariant
            i <= vars@.len(),
            input == ctx.input,
            input == old(ctx).input,
            st0 == old(ctx).state(),
            ctx.funcs == old(ctx).funcs,
            lexical_lower(input, st0, vars@.take(i as int)) == Some(
                (ctx.state(), Ok::<Seq<VarInitView>, IRError>(vars_deep(out@))),
            ),
        decreases vars@.len() - i,
    {
        proof {
            lemma_lexical_prefix(input, st0, vars@, i + 1);
            assert(vars@.take(i + 1).drop_last() =~= vars@.take(i as int));
            assert(vars@.take(i + 1).last() == vars@[i as int]);
        }
        let d = &vars[i];
        match d.binding {
            Some(id) => match &d.init {
                Some(JsExpr::ArrayLiteral) => {
                    ctx.arrays.push(id);
                },
                Some(e) => {
                    let v = match lower_expr(ctx, e) {
                        Some(Ok(v)) => v,
                        Some(Err(err)) => {
                            return Some(Err(err));
                        },
                        None => {
                            return None;
                        },
                    };
                    let vi = IRVarInit { id, init: Some(v) };
                    proof {
                        lemma_vars_deep_push(out@, vi);
                    }
                    out.push(vi);
                },
                None => {
                    let vi = IRVarInit { id, init: None };
                    proof {
                        lemma_vars_deep_push(out@, vi);
                    }
                    out.push(vi);
                },
            },
            None => {
                return Some(Err(IRError::UnsupportedVariableDeclaration));
            },
        }
        i = i + 1;
    }
    proof {
        assert(vars@.take(i as int) =~= vars@);
    }
    Some(Ok(IRStmt::VariableDefine { vars: out }))
}

/// Lowers the parameters of a function, in order, stopping at the
/// first one refused.
pub(crate) fn parse_params(ps: &Vec<JsParam>) -> (res: Result<Vec<usize>, IRError>)
    ensures
        match params_lower(ps@) {
            Ok(ids) => res matches Ok(r) && r@ == ids,
            Err(e) => res == Err::<Vec<usize>, IRError>(e),
        },
{
    let mut out: Vec<usize> = Vec::new();
    let mut i: usize = 0;
    proof {
        assert(ps@.take(0) =~= Seq::<JsParam>::empty());
    }
    while i < ps.len()
        invariant
            i <= ps@.len(),
            params_lower(ps@.take(i as int)) == Ok::<Seq<usize>, IRError>(out@),
        decreases ps@.len() - i,
    {
        proof {
            lemma_params_prefix(ps@, i + 1);
            assert(ps@.take(i + 1).drop_last() =~= ps@.take(i as int));
            assert(ps@.take(i + 1).last() == ps@[i as int]);
        }
        let p = &ps[i];
        if p.is_rest {
            return Err(IRError::SpreadArgument);
        }
        if p.has_init {
            return Err(IRError::ArgumentInit);
        }
        match p.binding {
            Some(id) => out.push(id),
            None => {
                return Err(IRError::UnsupportedArgument);
            },
        }
        i = i + 1;
    }
    proof {
        assert(ps@.take(i as int) =~= ps@);
    }
    Ok(out)
}

/// Lowers a function declaration into the function table.
fn lower_function(ctx: &mut ParserContext, f: &JsFunction) -> (res: Option<Result<IRStmt, IRError>>)
    requires
        old(ctx).funcs is Some,
    ensures
        final(ctx).input == old(ctx).input,
        stmt_lowered(
            item_lower(old(ctx).input, old(ctx).state(), JsItem::Declaration(JsDeclaration::Function(*f))),
            final(ctx).state(),
            res,
        ),
    decreases (JsItem::Declaration(JsDeclaration::Function(*f))), 0nat,
{
    let n = f.body.len();
    let mut result: Option<IRExpr> = None;
    let mut code_len: usize = n;
    if n > 0 {
        match &f.body[n - 1] {
            JsItem::Statement(JsStmt::Return(Some(r))) => {
                let v = match lower_expr(ctx, r)? {
                    Ok(v) => v,
                    Err(err) => {
                        return Some(Err(err));
                    },
                };
                result = Some(v);
                code_len = n - 1;
            },
            _ => {},
        }
    }
    proof {
        if code_len < n {
            assert(f.body@.drop_last() =~= f.body@.take(code_len as int));
        } else {
            assert(f.body@ =~= f.body@.take(code_len as int));
        }
    }
    let args = match parse_params(&f.params) {
        Ok(a) => a,
        Err(err) => {
            return Some(Err(err));
        },
    };
    let code = match lower_nested_items(ctx, &f.body, code_len)? {
        Ok(c) => c,
        Err(err) => {
            return Some(Err(err));
        },
    };
    let mut m = ctx.funcs.take().unwrap();
    let func = IRFunc { args, code, result };
    proof {
        lemma_funcs_deep_insert(m@, f.name, func);
    }
    m.insert(f.name, func);
    ctx.funcs = Some(m);
    Some(Ok(IRStmt::Noop))
}

/// Lowers an item; `None` where the name `input` must be looked up and
/// the source never interned it.
pub fn lower_item(ctx: &mut ParserContext, item: &JsItem) -> (res: Option<Result<IRStmt, IRError>>)
    ensures
        final(ctx).input == old(ctx).input,
        stmt_lowered(item_lower(old(ctx).input, old(ctx).state(), *item), final(ctx).state(), res),
    decreases *item, 1nat,
{
    match item {
        JsItem::Statement(s) => lower_stmt(ctx, s),
        JsItem::Declaration(d) => match d {
            JsDeclaration::Lexical(vars) => lower_lexical(ctx, vars),
            JsDeclaration::Function(f) => {
                if ctx.funcs.is_none() {
                    Some(Err(IRError::UnsupportedFunctionDeclaration))
                } else {
                    lower_function(ctx, f)
                }
            },
            JsDeclaration::Other => Some(Err(IRError::UnsupportedDeclaration)),
        },
    }
}

/// Lowers an item of a statement list: a statement, a variable
/// declaration, or a function declaration where the context has a function
/// table. The source must not need the name `input` looked up without
/// having interned it.
pub fn parse_statement_item(ctx: &mut ParserContext, statement: &JsItem) -> (res: Result<IRStmt, IRError>)
    requires
        item_lower(old(ctx).input, old(ctx).state(), *statement) is Some,
    ensures
        final(ctx).input == old(ctx).input,
        final(ctx).state() == item_lower(old(ctx).input, old(ctx).state(), *statement).unwrap().0,
        stmt_is(item_lower(old(ctx).input, old(ctx).state(), *statement).unwrap().1, res),
{
    match lower_item(ctx, statement) {
        Some(r) => r,
        None => {
            assert(false);
            Err(IRError::UnsupportedDeclaration)
        },
    }
}

} // verus!
