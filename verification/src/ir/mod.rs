use std::collections::HashMap;

use vstd::prelude::*;

use crate::ir::ast::{JsDeclaration, JsFunction, JsItem, JsStmt};
use crate::ir::ctx::{IRError, ParserContext};
use crate::ir::expr::lower_expr;
use crate::ir::ir::{funcs_deep, lemma_funcs_deep_insert, lemma_stmts_deep_push, stmts_deep, FuncView, IRExpr, IRFunc, IRStmt, IRView, StmtView, IR};
use crate::ir::lower::{body_lower, lemma_body_prefix, lemma_stmt_keeps_funcs, lemma_top_prefix, top_function_lower, top_items_lower};
use crate::ir::stmt::{lower_stmt, stmts_is};
use crate::ir::stmt_item::parse_params;

pub mod ast;
pub mod ctx;
pub mod expr;
pub mod ir;
pub mod laws;
pub mod lower;
pub mod source;
pub mod stmt;
pub mod stmt_item;

verus! {

broadcast use vstd::std_specs::hash::group_hash_axioms;

/// The lowering of a whole program: its top-level statements give the main
/// statements, its top-level functions the function table, and the names
/// bound to array literals are gathered throughout. `None` where the name
/// `input` must be looked up and the source never interned it.
pub open spec fn script_lower(input: Option<usize>, script: Seq<JsItem>) -> Option<Result<IRView, IRError>> {
    match top_items_lower(input, script) {
        Some((arrays, funcs, Ok(main))) => Some(Ok(IRView { main, funcs, arrays })),
        Some((_, _, Err(e))) => Some(Err(e)),
        None => None,
    }
}

/// Lowers the first `n` items of a top-level function's body, which must
/// all be statements.
fn lower_body(ctx: &mut ParserContext, items: &Vec<JsItem>, n: usize) -> (res: Option<Result<Vec<IRStmt>, IRError>>)
    requires
        n <= items@.len(),
        old(ctx).funcs is None,
    ensures
        final(ctx).input == old(ctx).input,
        res is Some ==> final(ctx).funcs is None,
        match body_lower(old(ctx).input, old(ctx).arrays@, items@.take(n as int)) {
            Some((a, o)) => final(ctx).arrays@ == a && (res matches Some(r) && stmts_is(o, r)),
            None => res is None,
        },
{
    let ghost input = ctx.input;
    let ghost a0 = ctx.arrays@;
    let ghost whole = items@.take(n as int);
    let mut out: Vec<IRStmt> = Vec::new();
    let mut i: usize = 0;
    proof {
        assert(whole.take(0) =~= Seq::<JsItem>::empty());
        assert(stmts_deep(out@) =~= Seq::<StmtView>::empty());
    }
    while i < n
        invariant
            i <= n,
            n <= items@.len(),
            whole == items@.take(n as int),
            input == ctx.input,
            input == old(ctx).input,
            a0 == old(ctx).arrays@,
            ctx.funcs is None,
            body_lower(input, a0, whole.take(i as int)) == Some(
                (ctx.arrays@, Ok::<Seq<StmtView>, IRError>(stmts_deep(out@))),
            ),
        decreases n - i,
    {
        proof {
            lemma_body_prefix(input, a0, whole, i + 1);
            assert(whole.take(i + 1).drop_last() =~= whole.take(i as int));
            assert(whole.take(i + 1).last() == items@[i as int]);
        }
        match &items[i] {
            JsItem::Statement(s) => {
                proof {
                    lemma_stmt_keeps_funcs(input, ctx.state(), *s);
                }
                let v = match lower_stmt(ctx, s)? {
                    Ok(v) => v,
                    Err(e) => {
                        return Some(Err(e));
                    },
                };
                proof {
                    lemma_stmts_deep_push(out@, v);
                }
                out.push(v);
            },
            JsItem::Declaration(_) => {
                return Some(Err(IRError::DeclarationInFunction));
            },
        }
        i = i + 1;
    }
    proof {
        assert(whole.take(i as int) =~= whole);
    }
    Some(Ok(out))
}

/// Lowers a top-level function declaration into the function table.
fn lower_top_function(ctx: &mut ParserContext, funcs: &mut HashMap<usize, IRFunc>, f: &JsFunction) -> (res: Option<
    Result<(), IRError>,
>)
    requires
        old(ctx).funcs is None,
    ensures
        final(ctx).input == old(ctx).input,
        res is Some ==> final(ctx).funcs is None,
        match top_function_lower(old(ctx).input, old(ctx).arrays@, funcs_deep(old(funcs)@), *f) {
            Some((a, m, o)) => final(ctx).arrays@ == a && funcs_deep(final(funcs)@) == m && res == Some(o),
            None => res is None,
        },
{
    let n = f.body.len();
    let mut result: Option<IRExpr> = None;
    let mut code_len: usize = n;
    if n > 0 {
        match &f.body[n - 1] {
            JsItem::Statement(JsStmt::Return(Some(r))) => {
                let v = match lower_expr(ctx, r)? {
                    Ok(v) => v,
                    Err(err) => {
                        return Some(Err(err));
                    },
                };
                result = Some(v);
                code_len = n - 1;
            },
            _ => {},
        }
    }
    proof {
        if code_len < n {
            assert(f.body@.drop_last() =~= f.body@.take(code_len as int));
        } else {
            assert(f.body@ =~= f.body@.take(code_len as int));
        }
    }
    let args = match parse_params(&f.params) {
        Ok(a) => a,
        Err(err) => {
            return Some(Err(err));
        },
    };
    let code = match lower_body(ctx, &f.body, code_len)? {
        Ok(c) => c,
        Err(err) => {
            return Some(Err(err));
        },
    };
    let func = IRFunc { args, code, result };
    proof {
        lemma_funcs_deep_insert(funcs@, f.name, func);
    }
    funcs.insert(f.name, func);
    Some(Ok(()))
}

/// Lowers a whole program, given the symbol of the name `input` if the
/// source interned it; `None` where that name must be looked up and was not
/// interned.
pub fn parse_to_ir_checked(script: &Vec<JsItem>, input: Option<usize>) -> (res: Option<Result<IR, IRError>>)
    ensures
        match script_lower(input, script@) {
            Some(Ok(v)) => res matches Some(Ok(ir)) && ir.deep() == v,
            Some(Err(e)) => res == Some(Err::<IR, IRError>(e)),
            None => res is None,
        },
{
    let mut ctx = ParserContext { input, funcs: None, arrays: Vec::new() };
    let mut funcs: HashMap<usize, IRFunc> = HashMap::new();
    let mut main: Vec<IRStmt> = Vec::new();
    let mut i: usize = 0;
    proof {
        assert(script@.take(0) =~= Seq::<JsItem>::empty());
        assert(stmts_deep(main@) =~= Seq::<StmtView>::empty());
        assert(funcs_deep(funcs@) =~= Map::<usize, FuncView>::empty());
        assert(ctx.arrays@ =~= Seq::<usize>::empty());
    }
    while i < script.len()
        invariant
            i <= script@.len(),
            ctx.input == input,
            ctx.funcs is None,
            top_items_lower(input, script@.take(i as int)) == Some(
                (ctx.arrays@, funcs_deep(funcs@), Ok::<Seq<StmtView>, IRError>(stmts_deep(main@))),
            ),
        decreases script@.len() - i,
    {
        proof {
            lemma_top_prefix(input, script@, i + 1);
            assert(script@.take(i + 1).drop_last() =~= script@.take(i as int));
            assert(script@.take(i + 1).last() == script@[i as int]);
        }
        match &script[i] {
            JsItem::Statement(s) => {
                proof {
                    lemma_stmt_keeps_funcs(input, ctx.state(), *s);
                }
                let v = match lower_stmt(&mut ctx, s)? {
                    Ok(v) => v,
                    Err(e) => {
                        return Some(Err(e));
                    },
                };
                proof {
                    lemma_stmts_deep_push(main@, v);
                }
                main.push(v);
            },
            JsItem::Declaration(JsDeclaration::Function(f)) => {
                if let Err(e) = lower_top_function(&mut ctx, &mut funcs, f)? {
                    return Some(Err(e));
                }
            },
            JsItem::Declaration(_) => {
                return Some(Err(IRError::UnsupportedTopDeclaration));
            },
        }
        i = i + 1;
    }
    proof {
        assert(script@.take(i as int) =~= script@);
    }
    Some(Ok(IR { main, funcs, arrays: ctx.arrays }))
}

/// Lowers a whole program, given the symbol of the name `input` if the
/// source interned it. The source must not need that name looked up
/// without having interned it.
pub fn parse_to_ir(script: &Vec<JsItem>, input: Option<usize>) -> (res: Result<IR, IRError>)
    requires
        script_lower(input, script@) is Some,
    ensures
        match script_lower(input, script@) {
            Some(Ok(v)) => res matches Ok(ir) && ir.deep() == v,
            Some(Err(e)) => res == Err::<IR, IRError>(e),
            None => false,
        },
{
    match parse_to_ir_checked(script, input) {
        Some(r) => r,
        None => {
            assert(false);
            Err(IRError::Unsupported)
        },
    }
}

} // verus!
