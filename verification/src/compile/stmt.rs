use std::collections::HashMap;

use vstd::prelude::*;

use crate::assembly::program::{lemma_ops_deep_concat, lemma_ops_deep_push, ops_deep, AssemblyOp, OpView};
use crate::compile::ctx::{
    alloc_noname_spec, alloc_spec, free_spec, get_spec, pop_spec, push_spec, CState, CompileContext,
    CompileError,
};
use crate::compile::expr::{emit_expr, emitted, expr_spec, matches_outcome, Outcome};
use crate::ir::ir::{IRExpr, IRFunc, IRStmt, IRVarInit};

verus! {

broadcast use vstd::std_specs::hash::group_hash_axioms;

/// How many functions may still be expanded: those defined and not yet on the call stack.
pub open spec fn open_count(funcs: Map<usize, IRFunc>, callstack: Seq<usize>) -> nat {
    funcs.dom().filter(|k: usize| !callstack.contains(k)).len()
}

/// No more functions may be expanded in `s2` than in `s`.
pub open spec fn within(funcs: Map<usize, IRFunc>, s2: CState, s: CState) -> bool {
    open_count(funcs, s2.callstack) <= open_count(funcs, s.callstack)
}

/// Each variable of a definition gets a named cell in the innermost scope,
/// and its initial value, if any, is computed into that cell.
pub open spec fn vars_spec(s: CState, vars: Seq<IRVarInit>) -> Outcome<Seq<OpView>>
    decreases vars.len(),
{
    if vars.len() == 0 {
        Some((s, Ok(Seq::empty())))
    } else {
        match vars_spec(s, vars.drop_last()) {
            Some((s1, Ok(ops1))) => match alloc_spec(s1, vars.last().id) {
                Some((s2, ptr)) => match vars.last().init {
                    Some(init) => match expr_spec(s2, ptr, init) {
                        Some((s3, Ok(ops2))) => Some((s3, Ok(ops1 + ops2))),
                        other => other,
                    },
                    None => Some((s2, Ok(ops1))),
                },
                None => None,
            },
            other => other,
        }
    }
}

/// The first `n` parameters each get a named cell, filled with the matching argument.
pub open spec fn args_spec(s: CState, params: Seq<usize>, args: Seq<IRExpr>, n: nat) -> Outcome<Seq<OpView>>
    decreases n,
{
    if n == 0 {
        Some((s, Ok(Seq::empty())))
    } else {
        match args_spec(s, params, args, (n - 1) as nat) {
            Some((s1, Ok(ops1))) => match alloc_spec(s1, params[n - 1]) {
                Some((s2, ptr)) => match expr_spec(s2, ptr, args[n - 1]) {
                    Some((s3, Ok(ops2))) => Some((s3, Ok(ops1 + ops2))),
                    other => other,
                },
                None => None,
            },
            other => other,
        }
    }
}

/// A body in a scope of its own: the code and the state after the scope closes.
pub open spec fn scoped_spec(s: CState, funcs: Map<usize, IRFunc>, body: Seq<IRStmt>, outer: CState) -> Outcome<Seq<OpView>>
    decreases open_count(funcs, outer.callstack), body, 3nat,
{
    let s1 = push_spec(s);
    if within(funcs, s1, outer) {
        match stmts_spec(s1, funcs, body) {
            Some((s2, Ok(ops))) => match pop_spec(s2) {
                Some(s3) => Some((s3, Ok(ops))),
                None => None,
            },
            other => other,
        }
    } else {
        None
    }
}

/// Releases a cell after a successful step, keeping that step's code.
pub open spec fn free_after(out: Outcome<Seq<OpView>>, ptr: usize) -> Outcome<Seq<OpView>> {
    match out {
        Some((s, Ok(ops))) => match free_spec(s, ptr) {
            Some(Ok(s2)) => Some((s2, Ok(ops))),
            Some(Err(e)) => Some((s, Err(e))),
            None => None,
        },
        other => other,
    }
}

/// The code for one statement, and the bookkeeping after it.
///
/// A definition names a cell per variable; an assignment computes into a
/// fresh cell and moves it into the variable; a call expands the function's
/// body in a scope where its parameters are named cells holding the
/// arguments, at most once per function; an output computes into a fresh
/// cell and prints it; a loop computes its condition into a fresh cell and
/// repeats its body, recomputing the condition, while the cell is not zero;
/// a conditional runs its body at most once through a loop whose cell it
/// clears, and its else body through a second flag cell; a block is a scope.
pub open spec fn stmt_spec(s: CState, funcs: Map<usize, IRFunc>, stmt: IRStmt) -> Outcome<Seq<OpView>>
    decreases open_count(funcs, s.callstack), stmt, 1nat,
{
    match stmt {
        IRStmt::Noop => Some((s, Ok(Seq::empty()))),
        IRStmt::VariableDefine { vars } => vars_spec(s, vars@),
        IRStmt::Assign { id, value } => match alloc_noname_spec(s) {
            Some((s1, val_p)) => match expr_spec(s1, val_p, value) {
                Some((s2, Ok(ops))) => match get_spec(s2, id) {
                    Ok(ptr) => free_after(Some((s2, Ok(ops.push(OpView::Move(val_p, seq![(ptr, 1i8)]))))), val_p),
                    Err(e) => Some((s2, Err(e))),
                },
                other => other,
            },
            None => None,
        },
        IRStmt::Call { id, args } => if s.callstack.contains(id) {
            Some((s, Err(CompileError::RecursiveCall)))
        } else {
            let s1 = CState { callstack: s.callstack.push(id), ..s };
            if !funcs.contains_key(id) {
                Some((s1, Err(CompileError::UndefinedFunction)))
            } else if funcs[id].args@.len() != args@.len() {
                Some((s1, Err(CompileError::ArgsLengthMismatch)))
            } else {
                let s2 = push_spec(s1);
                match args_spec(s2, funcs[id].args@, args@, args@.len()) {
                    Some((s3, Ok(ops1))) => if open_count(funcs, s3.callstack) < open_count(funcs, s.callstack) {
                        match stmts_spec(s3, funcs, funcs[id].code@) {
                            Some((s4, Ok(ops2))) => match pop_spec(s4) {
                                Some(s5) => Some((s5, Ok(ops1 + ops2))),
                                None => None,
                            },
                            other => other,
                        }
                    } else {
                        None
                    },
                    other => other,
                }
            }
        },
        IRStmt::Out { val } => match alloc_noname_spec(s) {
            Some((s1, val_p)) => match expr_spec(s1, val_p, val) {
                Some((s2, Ok(ops))) => free_after(Some((s2, Ok(ops.push(OpView::Out(val_p))))), val_p),
                other => other,
            },
            None => None,
        },
        IRStmt::While { condition, body } => match alloc_noname_spec(s) {
            Some((s1, cond_p)) => match expr_spec(s1, cond_p, condition) {
                Some((s2, Ok(ops1))) => match scoped_spec(s2, funcs, body@, s) {
                    Some((s3, Ok(body_ops))) => match expr_spec(s3, cond_p, condition) {
                        Some((s4, Ok(ops3))) => free_after(
                            Some((s4, Ok(ops1.push(OpView::Loop(cond_p, body_ops + ops3))))),
                            cond_p,
                        ),
                        other => other,
                    },
                    other => other,
                },
                other => other,
            },
            None => None,
        },
        IRStmt::If { condition, body, else_body } => match else_body {
            Some(else_b) => match alloc_noname_spec(s) {
                Some((s1, cond_p)) => match alloc_noname_spec(s1) {
                    Some((s2, else_p)) => match expr_spec(s2, cond_p, condition) {
                        Some((s3, Ok(ops1))) => match scoped_spec(s3, funcs, body@, s) {
                            Some((s4, Ok(b))) => {
                                let then_loop = OpView::Loop(
                                    cond_p,
                                    b.push(OpView::SetCell(cond_p, 0)).push(OpView::SetCell(else_p, 0)),
                                );
                                let head = seq![OpView::SetCell(else_p, 1)] + ops1.push(then_loop);
                                match scoped_spec(s4, funcs, else_b@, s) {
                                    Some((s5, Ok(e))) => free_after(
                                        free_after(
                                            Some((s5, Ok(head.push(OpView::Loop(else_p, e.push(OpView::SetCell(else_p, 0))))))),
                                            else_p,
                                        ),
                                        cond_p,
                                    ),
                                    other => other,
                                }
                            },
                            other => other,
                        },
                        other => other,
                    },
                    None => None,
                },
                None => None,
            },
            None => match alloc_noname_spec(s) {
                Some((s1, cond_p)) => match expr_spec(s1, cond_p, condition) {
                    Some((s2, Ok(ops1))) => match scoped_spec(s2, funcs, body@, s) {
                        Some((s3, Ok(b))) => free_after(
                            Some((s3, Ok(ops1.push(OpView::Loop(cond_p, b.push(OpView::SetCell(cond_p, 0))))))),
                            cond_p,
                        ),
                        other => other,
                    },
                    other => other,
                },
                None => None,
            },
        },
        IRStmt::Block { body } => scoped_spec(s, funcs, body@, s),
    }
}

/// The code for a sequence of statements, in order, and the bookkeeping after it.
pub open spec fn stmts_spec(s: CState, funcs: Map<usize, IRFunc>, stmts: Seq<IRStmt>) -> Outcome<Seq<OpView>>
    decreases open_count(funcs, s.callstack), stmts, 2nat,
{
    if stmts.len() == 0 {
        Some((s, Ok(Seq::empty())))
    } else {
        match stmts_spec(s, funcs, stmts.drop_last()) {
            Some((s1, Ok(ops1))) => if within(funcs, s1, s) {
                match stmt_spec(s1, funcs, stmts.last()) {
                    Some((s2, Ok(ops2))) => Some((s2, Ok(ops1 + ops2))),
                    other => other,
                }
            } else {
                None
            },
            other => other,
        }
    }
}


/// Appending a call to the call stack leaves one function fewer to expand.
pub proof fn lemma_count_call(funcs: Map<usize, IRFunc>, cs: Seq<usize>, id: usize)
    requires
        funcs.dom().finite(),
        funcs.dom().contains(id),
        !cs.contains(id),
    ensures
        open_count(funcs, cs.push(id)) < open_count(funcs, cs),
{
    let f1 = funcs.dom().filter(|k: usize| !cs.contains(k));
    let f2 = funcs.dom().filter(|k: usize| !cs.push(id).contains(k));
    assert forall|k: usize| cs.push(id).contains(k) <==> cs.contains(k) || k == id by {
        if cs.push(id).contains(k) {
            let j = choose|j: int| 0 <= j < cs.push(id).len() && cs.push(id)[j] == k;
            if j < cs.len() {
                assert(cs[j] == k);
            }
        }
        if cs.contains(k) {
            let j = choose|j: int| 0 <= j < cs.len() && cs[j] == k;
            assert(cs.push(id)[j] == k);
        }
        if k == id {
            assert(cs.push(id)[cs.len() as int] == k);
        }
    }
    assert(f2 =~= f1.remove(id));
    funcs.dom().lemma_len_filter(|k: usize| !cs.contains(k));
}

/// A longer call stack leaves no more functions to expand.
pub proof fn lemma_count_prefix(funcs: Map<usize, IRFunc>, a: Seq<usize>, b: Seq<usize>)
    requires
        funcs.dom().finite(),
        a.is_prefix_of(b),
    ensures
        open_count(funcs, b) <= open_count(funcs, a),
{
    let f1 = funcs.dom().filter(|k: usize| !a.contains(k));
    let f2 = funcs.dom().filter(|k: usize| !b.contains(k));
    assert forall|k: usize| f2.contains(k) implies f1.contains(k) by {
        if a.contains(k) {
            let j = choose|j: int| 0 <= j < a.len() && a[j] == k;
            assert(b[j] == a[j]);
        }
    }
    funcs.dom().lemma_len_filter(|k: usize| !a.contains(k));
    vstd::set_lib::lemma_len_subset(f2, f1);
}

/// Compiling an expression never touches the call stack.
pub proof fn lemma_expr_callstack(s: CState, target: usize, e: IRExpr)
    ensures
        expr_spec(s, target, e) matches Some((s2, _)) ==> s2.callstack == s.callstack,
    decreases e,
{
    match e {
        IRExpr::Add(l, r) | IRExpr::Sub(l, r) => {
            lemma_expr_callstack(push_spec(s), target, *l);
            if let Some((s1, Ok(_))) = expr_spec(push_spec(s), target, *l) {
                if let Some((s2, rp)) = alloc_noname_spec(s1) {
                    lemma_expr_callstack(s2, rp, *r);
                }
            }
        },
        _ => {},
    }
}

pub proof fn lemma_vars_callstack(s: CState, vars: Seq<IRVarInit>)
    ensures
        vars_spec(s, vars) matches Some((s2, _)) ==> s2.callstack == s.callstack,
    decreases vars.len(),
{
    if vars.len() > 0 {
        lemma_vars_callstack(s, vars.drop_last());
        if let Some((s1, Ok(_))) = vars_spec(s, vars.drop_last()) {
            if let Some((s2, ptr)) = alloc_spec(s1, vars.last().id) {
                if let Some(init) = vars.last().init {
                    lemma_expr_callstack(s2, ptr, init);
                }
            }
        }
    }
}

pub proof fn lemma_args_callstack(s: CState, params: Seq<usize>, args: Seq<IRExpr>, n: nat)
    ensures
        args_spec(s, params, args, n) matches Some((s2, _)) ==> s2.callstack == s.callstack,
    decreases n,
{
    if n > 0 {
        lemma_args_callstack(s, params, args, (n - 1) as nat);
        if let Some((s1, Ok(_))) = args_spec(s, params, args, (n - 1) as nat) {
            if let Some((s2, ptr)) = alloc_spec(s1, params[n - 1]) {
                lemma_expr_callstack(s2, ptr, args[n - 1]);
            }
        }
    }
}

/// Compiling statements only ever appends to the call stack.
pub proof fn lemma_stmts_callstack(s: CState, funcs: Map<usize, IRFunc>, stmts: Seq<IRStmt>)
    ensures
        stmts_spec(s, funcs, stmts) matches Some((s2, _)) ==> s.callstack.is_prefix_of(s2.callstack),
    decreases open_count(funcs, s.callstack), stmts, 2nat,
{
    if stmts.len() > 0 {
        lemma_stmts_callstack(s, funcs, stmts.drop_last());
        if let Some((s1, Ok(_))) = stmts_spec(s, funcs, stmts.drop_last()) {
            if within(funcs, s1, s) {
                lemma_stmt_callstack(s1, funcs, stmts.last());
                if let Some((s2, _)) = stmt_spec(s1, funcs, stmts.last()) {
                    lemma_prefix_trans(s.callstack, s1.callstack, s2.callstack);
                }
            }
        }
    } else {
        assert(s.callstack.is_prefix_of(s.callstack));
    }
}

pub proof fn lemma_scoped_callstack(s: CState, funcs: Map<usize, IRFunc>, body: Seq<IRStmt>, outer: CState)
    ensures
        scoped_spec(s, funcs, body, outer) matches Some((s2, _)) ==> s.callstack.is_prefix_of(s2.callstack),
    decreases open_count(funcs, outer.callstack), body, 3nat,
{
    if within(funcs, push_spec(s), outer) {
        lemma_stmts_callstack(push_spec(s), funcs, body);
    }
}

proof fn lemma_prefix_trans(a: Seq<usize>, b: Seq<usize>, c: Seq<usize>)
    requires
        a.is_prefix_of(b),
        b.is_prefix_of(c),
    ensures
        a.is_prefix_of(c),
{
    assert forall|i: int| 0 <= i < a.len() implies a[i] == c.subrange(0, a.len() as int)[i] by {
        assert(a[i] == b[i]);
        assert(b[i] == c[i]);
    }
    assert(a =~= c.subrange(0, a.len() as int));
}

proof fn lemma_call_callstack(s: CState, funcs: Map<usize, IRFunc>, stmt: IRStmt)
    requires
        stmt is Call,
    ensures
        stmt_spec(s, funcs, stmt) matches Some((s2, _)) ==> s.callstack.is_prefix_of(s2.callstack),
    decreases open_count(funcs, s.callstack), stmt, 0nat,
{
    if let IRStmt::Call { id, args } = stmt {
        assert(s.callstack.is_prefix_of(s.callstack));
        if !s.callstack.contains(id) {
            let s1 = CState { callstack: s.callstack.push(id), ..s };
            assert(s.callstack.is_prefix_of(s1.callstack));
            if funcs.contains_key(id) && funcs[id].args@.len() == args@.len() {
                let s2 = push_spec(s1);
                lemma_args_callstack(s2, funcs[id].args@, args@, args@.len());
                if let Some((s3, Ok(_))) = args_spec(s2, funcs[id].args@, args@, args@.len()) {
                    if open_count(funcs, s3.callstack) < open_count(funcs, s.callstack) {
                        lemma_stmts_callstack(s3, funcs, funcs[id].code@);
                        if let Some((s4, _)) = stmts_spec(s3, funcs, funcs[id].code@) {
                            lemma_prefix_trans(s.callstack, s3.callstack, s4.callstack);
                        }
                    }
                }
            }
        }
    }
}

/// Each function is expanded at most once in a compilation: once a call of
/// `id` has compiled, a later call of `id`, after any statements that
/// compiled, is refused as recursive.
pub proof fn lemma_call_at_most_once(
    s: CState,
    funcs: Map<usize, IRFunc>,
    id: usize,
    args: Vec<IRExpr>,
    between: Seq<IRStmt>,
    args2: Vec<IRExpr>,
)
    requires
        stmt_spec(s, funcs, IRStmt::Call { id, args }) matches Some((s1, Ok(_))) && stmts_spec(s1, funcs, between) matches Some((_, Ok(_))),
    ensures
        ({
            let s2 = stmts_spec(stmt_spec(s, funcs, IRStmt::Call { id, args }).unwrap().0, funcs, between).unwrap().0;
            stmt_spec(s2, funcs, IRStmt::Call { id, args: args2 }) == Some((s2, Err::<Seq<OpView>, CompileError>(CompileError::RecursiveCall)))
        }),
{
    let s1 = stmt_spec(s, funcs, IRStmt::Call { id, args }).unwrap().0;
    let s2 = stmts_spec(s1, funcs, between).unwrap().0;
    let t = CState { callstack: s.callstack.push(id), ..s };
    let t2 = push_spec(t);
    lemma_args_callstack(t2, funcs[id].args@, args@, args@.len());
    let s3 = args_spec(t2, funcs[id].args@, args@, args@.len()).unwrap().0;
    lemma_stmts_callstack(s3, funcs, funcs[id].code@);
    let s4 = stmts_spec(s3, funcs, funcs[id].code@).unwrap().0;
    assert(s.callstack.push(id).is_prefix_of(s4.callstack));
    assert(s1.callstack == s4.callstack);
    lemma_stmts_callstack(s1, funcs, between);
    lemma_prefix_trans(s.callstack.push(id), s1.callstack, s2.callstack);
    let k = s.callstack.len() as int;
    assert(s.callstack.push(id)[k] == id);
    assert(s2.callstack[k] == id);
    assert(s2.callstack.contains(id));
}

proof fn lemma_while_callstack(s: CState, funcs: Map<usize, IRFunc>, stmt: IRStmt)
    requires
        stmt is While,
    ensures
        stmt_spec(s, funcs, stmt) matches Some((s2, _)) ==> s.callstack.is_prefix_of(s2.callstack),
    decreases open_count(funcs, s.callstack), stmt, 0nat,
{
    if let IRStmt::While { condition, body } = stmt {
        if let Some((s1, cond_p)) = alloc_noname_spec(s) {
            lemma_expr_callstack(s1, cond_p, condition);
            if let Some((s2, Ok(_))) = expr_spec(s1, cond_p, condition) {
                lemma_scoped_callstack(s2, funcs, body@, s);
                if let Some((s3, Ok(_))) = scoped_spec(s2, funcs, body@, s) {
                    lemma_expr_callstack(s3, cond_p, condition);
                }
            }
        }
    }
}

#[verifier::rlimit(40)]
proof fn lemma_if_callstack(s: CState, funcs: Map<usize, IRFunc>, stmt: IRStmt)
    requires
        stmt is If,
    ensures
        stmt_spec(s, funcs, stmt) matches Some((s2, _)) ==> s.callstack.is_prefix_of(s2.callstack),
    decreases open_count(funcs, s.callstack), stmt, 0nat,
{
    if let IRStmt::If { condition, body, else_body } = stmt {
        match else_body {
            Some(else_b) => {
                if let Some((s1, cond_p)) = alloc_noname_spec(s) {
                    if let Some((s2, else_p)) = alloc_noname_spec(s1) {
                        lemma_expr_callstack(s2, cond_p, condition);
                        if let Some((s3, Ok(_))) = expr_spec(s2, cond_p, condition) {
                            lemma_scoped_callstack(s3, funcs, body@, s);
                            if let Some((s4, Ok(_))) = scoped_spec(s3, funcs, body@, s) {
                                lemma_scoped_callstack(s4, funcs, else_b@, s);
                                if let Some((s5, _)) = scoped_spec(s4, funcs, else_b@, s) {
                                    lemma_prefix_trans(s.callstack, s4.callstack, s5.callstack);
                                }
                            }
                        }
                    }
                }
            },
            None => {
                if let Some((s1, cond_p)) = alloc_noname_spec(s) {
                    lemma_expr_callstack(s1, cond_p, condition);
                    if let Some((s2, Ok(_))) = expr_spec(s1, cond_p, condition) {
                        lemma_scoped_callstack(s2, funcs, body@, s);
                    }
                }
            },
        }
    }
}

pub proof fn lemma_stmt_callstack(s: CState, funcs: Map<usize, IRFunc>, stmt: IRStmt)
    ensures
        stmt_spec(s, funcs, stmt) matches Some((s2, _)) ==> s.callstack.is_prefix_of(s2.callstack),
    decreases open_count(funcs, s.callstack), stmt, 1nat,
{
    assert(s.callstack.is_prefix_of(s.callstack));
    match stmt {
        IRStmt::VariableDefine { vars } => {
            lemma_vars_callstack(s, vars@);
        },
        IRStmt::Assign { id, value } => {
            if let Some((s1, val_p)) = alloc_noname_spec(s) {
                lemma_expr_callstack(s1, val_p, value);
            }
        },
        IRStmt::Call { .. } => {
            lemma_call_callstack(s, funcs, stmt);
        },
        IRStmt::Out { val } => {
            if let Some((s1, val_p)) = alloc_noname_spec(s) {
                lemma_expr_callstack(s1, val_p, val);
            }
        },
        IRStmt::While { .. } => {
            lemma_while_callstack(s, funcs, stmt);
        },
        IRStmt::If { .. } => {
            lemma_if_callstack(s, funcs, stmt);
        },
        IRStmt::Block { body } => {
            lemma_scoped_callstack(s, funcs, body@, s);
        },
        IRStmt::Noop => {},
    }
}


/// A sequence of statements either compiles its first `j` statements
/// successfully, or its outcome is that of those `j` statements.
pub proof fn lemma_stmts_prefix(s: CState, funcs: Map<usize, IRFunc>, stmts: Seq<IRStmt>, j: int)
    requires
        0 <= j <= stmts.len(),
    ensures
        (stmts_spec(s, funcs, stmts.take(j)) matches Some((_, Ok(_))))
            || stmts_spec(s, funcs, stmts) == stmts_spec(s, funcs, stmts.take(j)),
    decreases stmts.len(),
{
    if j == stmts.len() {
        assert(stmts.take(j) =~= stmts);
    } else {
        lemma_stmts_prefix(s, funcs, stmts.drop_last(), j);
        assert(stmts.drop_last().take(j) =~= stmts.take(j));
    }
}

pub proof fn lemma_vars_prefix(s: CState, vars: Seq<IRVarInit>, j: int)
    requires
        0 <= j <= vars.len(),
    ensures
        (vars_spec(s, vars.take(j)) matches Some((_, Ok(_)))) || vars_spec(s, vars) == vars_spec(s, vars.take(j)),
    decreases vars.len(),
{
    if j == vars.len() {
        assert(vars.take(j) =~= vars);
    } else {
        lemma_vars_prefix(s, vars.drop_last(), j);
        assert(vars.drop_last().take(j) =~= vars.take(j));
    }
}

pub proof fn lemma_args_prefix(s: CState, params: Seq<usize>, args: Seq<IRExpr>, n: nat, j: nat)
    requires
        j <= n,
    ensures
        (args_spec(s, params, args, j) matches Some((_, Ok(_)))) || args_spec(s, params, args, n) == args_spec(
            s,
            params,
            args,
            j,
        ),
    decreases n,
{
    if j < n {
        lemma_args_prefix(s, params, args, (n - 1) as nat, j);
    }
}

/// Whether `id` is on the call stack.
fn callstack_contains(callstack: &Vec<usize>, id: usize) -> (b: bool)
    ensures
        b == callstack@.contains(id),
{
    let mut i: usize = 0;
    while i < callstack.len()
        invariant
            i <= callstack@.len(),
            forall|k: int| 0 <= k < i ==> callstack@[k] != id,
        decreases callstack@.len() - i,
    {
        if callstack[i] == id {
            assert(callstack@[i as int] == id);
            return true;
        }
        i = i + 1;
    }
    false
}

/// Compiles a variable definition.
fn emit_var_define(ctx: &mut CompileContext, funcs: &HashMap<usize, IRFunc>, vars: &Vec<IRVarInit>) -> (res: Option<
    Result<Vec<AssemblyOp>, CompileError>,
>)
    ensures
        emitted(vars_spec(old(ctx).state(), vars@), final(ctx).state(), res),
        final(ctx).arrays == old(ctx).arrays,
{
    let ghost s0 = ctx.state();
    let mut code: Vec<AssemblyOp> = Vec::new();
    let mut j: usize = 0;
    proof {
        assert(vars@.take(0) =~= Seq::<IRVarInit>::empty());
        assert(ops_deep(code@) =~= Seq::<OpView>::empty());
    }
    while j < vars.len()
        invariant
            j <= vars@.len(),
            s0 == old(ctx).state(),
            ctx.arrays == old(ctx).arrays,
            vars_spec(s0, vars@.take(j as int)) == Some((ctx.state(), Ok::<Seq<OpView>, CompileError>(ops_deep(code@)))),
        decreases vars@.len() - j,
    {
        proof {
            lemma_vars_prefix(s0, vars@, j + 1);
            assert(vars@.take(j + 1).drop_last() =~= vars@.take(j as int));
            assert(vars@.take(j + 1).last() == vars@[j as int]);
        }
        if ctx.usage == usize::MAX || ctx.var_map.len() == 0 {
            return None;
        }
        let ptr = ctx.alloc_var(vars[j].id);
        match &vars[j].init {
            Some(init) => {
                let mut e = match emit_expr(ctx, funcs, ptr, init)? {
                    Ok(e) => e,
                    Err(er) => {
                        return Some(Err(er));
                    },
                };
                let ghost before = code@;
                let ghost ev = e@;
                code.append(&mut e);
                proof {
                    lemma_ops_deep_concat(before, ev);
                }
            },
            None => {},
        }
        j = j + 1;
    }
    proof {
        assert(vars@.take(j as int) =~= vars@);
    }
    Some(Ok(code))
}

/// Compiles an assignment.
fn emit_assign(ctx: &mut CompileContext, funcs: &HashMap<usize, IRFunc>, id: usize, value: &IRExpr) -> (res: Option<
    Result<Vec<AssemblyOp>, CompileError>,
>)
    ensures
        emitted(stmt_spec(old(ctx).state(), funcs@, (IRStmt::Assign { id, value: *value })), final(ctx).state(), res),
        final(ctx).arrays == old(ctx).arrays,
{
    if ctx.usage == usize::MAX {
        return None;
    }
    let val_p = ctx.alloc_noname();
    let mut code = match emit_expr(ctx, funcs, val_p, value)? {
        Ok(c) => c,
        Err(e) => {
            return Some(Err(e));
        },
    };
    let ptr = match ctx.get(id) {
        Ok(p) => p,
        Err(e) => {
            return Some(Err(e));
        },
    };
    let dests = vec![(ptr, 1)];
    let ghost before = code@;
    code.push(AssemblyOp::Move(val_p, dests));
    proof {
        lemma_ops_deep_push(before, AssemblyOp::Move(val_p, dests));
        assert(dests@ =~= seq![(ptr, 1i8)]);
    }
    if ctx.usage == 0 {
        return None;
    }
    if let Err(e) = ctx.free(val_p) {
        return Some(Err(e));
    }
    Some(Ok(code))
}

/// Compiles an output statement.
fn emit_out(ctx: &mut CompileContext, funcs: &HashMap<usize, IRFunc>, val: &IRExpr) -> (res: Option<
    Result<Vec<AssemblyOp>, CompileError>,
>)
    ensures
        emitted(stmt_spec(old(ctx).state(), funcs@, (IRStmt::Out { val: *val })), final(ctx).state(), res),
        final(ctx).arrays == old(ctx).arrays,
{
    if ctx.usage == usize::MAX {
        return None;
    }
    let val_p = ctx.alloc_noname();
    let mut code = match emit_expr(ctx, funcs, val_p, val)? {
        Ok(c) => c,
        Err(e) => {
            return Some(Err(e));
        },
    };
    let ghost before = code@;
    code.push(AssemblyOp::Out(val_p));
    proof {
        lemma_ops_deep_push(before, AssemblyOp::Out(val_p));
    }
    if ctx.usage == 0 {
        return None;
    }
    if let Err(e) = ctx.free(val_p) {
        return Some(Err(e));
    }
    Some(Ok(code))
}

/// Compiles a call by expanding the function's body.
fn emit_call(ctx: &mut CompileContext, funcs: &HashMap<usize, IRFunc>, id: usize, args: &Vec<IRExpr>) -> (res: Option<
    Result<Vec<AssemblyOp>, CompileError>,
>)
    ensures
        emitted(stmt_spec(old(ctx).state(), funcs@, (IRStmt::Call { id, args: *args })), final(ctx).state(), res),
        final(ctx).arrays == old(ctx).arrays,
    decreases open_count(funcs@, old(ctx).callstack@), (IRStmt::Call { id, args: *args }), 0nat,
{
    let ghost s = ctx.state();
    if callstack_contains(&ctx.callstack, id) {
        return Some(Err(CompileError::RecursiveCall));
    }
    ctx.callstack.push(id);
    let ghost s1 = ctx.state();
    assert(s1 == CState { callstack: s.callstack.push(id), ..s });
    let func = match funcs.get(&id) {
        Some(f) => f,
        None => {
            return Some(Err(CompileError::UndefinedFunction));
        },
    };
    if func.args.len() != args.len() {
        return Some(Err(CompileError::ArgsLengthMismatch));
    }
    ctx.push();
    let ghost s2 = ctx.state();
    let mut code: Vec<AssemblyOp> = Vec::new();
    let mut i: usize = 0;
    proof {
        assert(ops_deep(code@) =~= Seq::<OpView>::empty());
    }
    while i < func.args.len()
        invariant
            i <= func.args@.len(),
            func.args@.len() == args@.len(),
            funcs@.contains_key(id),
            *func == funcs@[id],
            s2 == push_spec(s1),
            s1 == (CState { callstack: s.callstack.push(id), ..s }),
            s == old(ctx).state(),
            !s.callstack.contains(id),
            ctx.arrays == old(ctx).arrays,
            args_spec(s2, func.args@, args@, i as nat) == Some((ctx.state(), Ok::<Seq<OpView>, CompileError>(ops_deep(code@)))),
        decreases func.args@.len() - i,
    {
        proof {
            lemma_args_prefix(s2, func.args@, args@, args@.len(), (i + 1) as nat);
        }
        if ctx.usage == usize::MAX || ctx.var_map.len() == 0 {
            return None;
        }
        let ptr = ctx.alloc_var(func.args[i]);
        let mut e = match emit_expr(ctx, funcs, ptr, &args[i])? {
            Ok(e) => e,
            Err(er) => {
                return Some(Err(er));
            },
        };
        let ghost before = code@;
        let ghost ev = e@;
        code.append(&mut e);
        proof {
            lemma_ops_deep_concat(before, ev);
        }
        i = i + 1;
    }
    proof {
        lemma_args_callstack(s2, func.args@, args@, args@.len());
        lemma_count_call(funcs@, s.callstack, id);
        assert(open_count(funcs@, ctx.callstack@) < open_count(funcs@, old(ctx).callstack@));
    }
    let mut body = match emit_stmts(ctx, funcs, func.code.as_slice())? {
        Ok(b) => b,
        Err(er) => {
            return Some(Err(er));
        },
    };
    let ghost before = code@;
    let ghost bv = body@;
    code.append(&mut body);
    proof {
        lemma_ops_deep_concat(before, bv);
    }
    if ctx.var_map.len() == 0 {
        return None;
    }
    ctx.pop();
    Some(Ok(code))
}

/// Compiles a body in a scope of its own, closed afterwards.
fn emit_scoped(ctx: &mut CompileContext, funcs: &HashMap<usize, IRFunc>, body: &Vec<IRStmt>, Ghost(outer): Ghost<
    CState,
>) -> (res: Option<Result<Vec<AssemblyOp>, CompileError>>)
    requires
        outer.callstack.is_prefix_of(old(ctx).callstack@),
    ensures
        emitted(scoped_spec(old(ctx).state(), funcs@, body@, outer), final(ctx).state(), res),
        final(ctx).arrays == old(ctx).arrays,
    decreases open_count(funcs@, outer.callstack), body@, 3nat,
{
    proof {
        lemma_count_prefix(funcs@, outer.callstack, ctx.callstack@);
    }
    ctx.push();
    let code = match emit_stmts(ctx, funcs, body.as_slice())? {
        Ok(c) => c,
        Err(e) => {
            return Some(Err(e));
        },
    };
    if ctx.var_map.len() == 0 {
        return None;
    }
    ctx.pop();
    Some(Ok(code))
}

/// Compiles a loop.
fn emit_while(ctx: &mut CompileContext, funcs: &HashMap<usize, IRFunc>, condition: &IRExpr, body: &Vec<IRStmt>) -> (res: Option<
    Result<Vec<AssemblyOp>, CompileError>,
>)
    ensures
        emitted(
            stmt_spec(old(ctx).state(), funcs@, (IRStmt::While { condition: *condition, body: *body })),
            final(ctx).state(),
            res,
        ),
        final(ctx).arrays == old(ctx).arrays,
    decreases open_count(funcs@, old(ctx).callstack@), (IRStmt::While { condition: *condition, body: *body }), 0nat,
{
    let ghost s = ctx.state();
    if ctx.usage == usize::MAX {
        return None;
    }
    let cond_p = ctx.alloc_noname();
    let ghost s1 = ctx.state();
    let mut code = match emit_expr(ctx, funcs, cond_p, condition)? {
        Ok(c) => c,
        Err(e) => {
            return Some(Err(e));
        },
    };
    proof {
        lemma_expr_callstack(s1, cond_p, *condition);
    }
    let mut asm_body = match emit_scoped(ctx, funcs, body, Ghost(s))? {
        Ok(c) => c,
        Err(e) => {
            return Some(Err(e));
        },
    };
    let mut again = match emit_expr(ctx, funcs, cond_p, condition)? {
        Ok(c) => c,
        Err(e) => {
            return Some(Err(e));
        },
    };
    let ghost bv = asm_body@;
    let ghost av = again@;
    asm_body.append(&mut again);
    let ghost before = code@;
    code.push(AssemblyOp::Loop(cond_p, asm_body));
    proof {
        lemma_ops_deep_concat(bv, av);
        lemma_ops_deep_push(before, AssemblyOp::Loop(cond_p, asm_body));
    }
    if ctx.usage == 0 {
        return None;
    }
    if let Err(e) = ctx.free(cond_p) {
        return Some(Err(e));
    }
    Some(Ok(code))
}

/// Compiles a conditional with an else body.
#[verifier::rlimit(40)]
fn emit_if_else(
    ctx: &mut CompileContext,
    funcs: &HashMap<usize, IRFunc>,
    condition: &IRExpr,
    body: &Vec<IRStmt>,
    else_b: &Vec<IRStmt>,
) -> (res: Option<Result<Vec<AssemblyOp>, CompileError>>)
    ensures
        emitted(
            stmt_spec(
                old(ctx).state(),
                funcs@,
                (IRStmt::If { condition: *condition, body: *body, else_body: Some(*else_b) }),
            ),
            final(ctx).state(),
            res,
        ),
        final(ctx).arrays == old(ctx).arrays,
    decreases open_count(funcs@, old(ctx).callstack@), (IRStmt::If {
        condition: *condition,
        body: *body,
        else_body: Some(*else_b),
    }), 0nat,
{
    let ghost s = ctx.state();
    if ctx.usage == usize::MAX {
        return None;
    }
    let cond_p = ctx.alloc_noname();
    if ctx.usage == usize::MAX {
        return None;
    }
    let else_p = ctx.alloc_noname();
    let ghost s2 = ctx.state();
    let mut code: Vec<AssemblyOp> = Vec::new();
    code.push(AssemblyOp::SetCell(else_p, 1));
    let mut cond_code = match emit_expr(ctx, funcs, cond_p, condition)? {
        Ok(c) => c,
        Err(e) => {
            return Some(Err(e));
        },
    };
    proof {
        lemma_expr_callstack(s2, cond_p, *condition);
    }
    let ghost cv = cond_code@;
    code.append(&mut cond_code);
    let ghost s3 = ctx.state();
    let mut asm_body = match emit_scoped(ctx, funcs, body, Ghost(s))? {
        Ok(c) => c,
        Err(e) => {
            return Some(Err(e));
        },
    };
    let ghost bv = asm_body@;
    asm_body.push(AssemblyOp::SetCell(cond_p, 0));
    asm_body.push(AssemblyOp::SetCell(else_p, 0));
    let ghost before = code@;
    code.push(AssemblyOp::Loop(cond_p, asm_body));
    proof {
        lemma_ops_deep_push(bv, AssemblyOp::SetCell(cond_p, 0));
        lemma_ops_deep_push(bv.push(AssemblyOp::SetCell(cond_p, 0)), AssemblyOp::SetCell(else_p, 0));
        lemma_ops_deep_push(Seq::empty(), AssemblyOp::SetCell(else_p, 1));
        assert(ops_deep(Seq::<AssemblyOp>::empty()) =~= Seq::<OpView>::empty());
        lemma_ops_deep_concat(seq![AssemblyOp::SetCell(else_p, 1)], cv);
        lemma_ops_deep_push(before, AssemblyOp::Loop(cond_p, asm_body));
        assert(ops_deep(before) =~= seq![OpView::SetCell(else_p, 1)] + ops_deep(cv));
        lemma_scoped_callstack(s3, funcs@, body@, s);
    }
    let mut else_code = match emit_scoped(ctx, funcs, else_b, Ghost(s))? {
        Ok(c) => c,
        Err(e) => {
            return Some(Err(e));
        },
    };
    let ghost ev = else_code@;
    else_code.push(AssemblyOp::SetCell(else_p, 0));
    let ghost before2 = code@;
    code.push(AssemblyOp::Loop(else_p, else_code));
    proof {
        lemma_ops_deep_push(ev, AssemblyOp::SetCell(else_p, 0));
        lemma_ops_deep_push(before2, AssemblyOp::Loop(else_p, else_code));
    }
    if ctx.usage == 0 {
        return None;
    }
    if let Err(e) = ctx.free(else_p) {
        return Some(Err(e));
    }
    if ctx.usage == 0 {
        return None;
    }
    if let Err(e) = ctx.free(cond_p) {
        return Some(Err(e));
    }
    Some(Ok(code))
}

/// Compiles a conditional without an else body.
fn emit_if(ctx: &mut CompileContext, funcs: &HashMap<usize, IRFunc>, condition: &IRExpr, body: &Vec<IRStmt>) -> (res: Option<
    Result<Vec<AssemblyOp>, CompileError>,
>)
    ensures
        emitted(
            stmt_spec(old(ctx).state(), funcs@, (IRStmt::If { condition: *condition, body: *body, else_body: None })),
            final(ctx).state(),
            res,
        ),
        final(ctx).arrays == old(ctx).arrays,
    decreases open_count(funcs@, old(ctx).callstack@), (IRStmt::If {
        condition: *condition,
        body: *body,
        else_body: None,
    }), 0nat,
{
    let ghost s = ctx.state();
    if ctx.usage == usize::MAX {
        return None;
    }
    let cond_p = ctx.alloc_noname();
    let ghost s1 = ctx.state();
    let mut code = match emit_expr(ctx, funcs, cond_p, condition)? {
        Ok(c) => c,
        Err(e) => {
            return Some(Err(e));
        },
    };
    proof {
        lemma_expr_callstack(s1, cond_p, *condition);
    }
    let mut asm_body = match emit_scoped(ctx, funcs, body, Ghost(s))? {
        Ok(c) => c,
        Err(e) => {
            return Some(Err(e));
        },
    };
    let ghost bv = asm_body@;
    asm_body.push(AssemblyOp::SetCell(cond_p, 0));
    let ghost before = code@;
    code.push(AssemblyOp::Loop(cond_p, asm_body));
    proof {
        lemma_ops_deep_push(bv, AssemblyOp::SetCell(cond_p, 0));
        lemma_ops_deep_push(before, AssemblyOp::Loop(cond_p, asm_body));
    }
    if ctx.usage == 0 {
        return None;
    }
    if let Err(e) = ctx.free(cond_p) {
        return Some(Err(e));
    }
    Some(Ok(code))
}

/// Compiles one statement.
fn emit_stmt(ctx: &mut CompileContext, funcs: &HashMap<usize, IRFunc>, stmt: &IRStmt) -> (res: Option<
    Result<Vec<AssemblyOp>, CompileError>,
>)
    ensures
        emitted(stmt_spec(old(ctx).state(), funcs@, *stmt), final(ctx).state(), res),
        final(ctx).arrays == old(ctx).arrays,
    decreases open_count(funcs@, old(ctx).callstack@), *stmt, 1nat,
{
    match stmt {
        IRStmt::Noop => {
            let code: Vec<AssemblyOp> = Vec::new();
            assert(ops_deep(code@) =~= Seq::<OpView>::empty());
            Some(Ok(code))
        },
        IRStmt::VariableDefine { vars } => emit_var_define(ctx, funcs, vars),
        IRStmt::Assign { id, value } => emit_assign(ctx, funcs, *id, value),
        IRStmt::Call { id, args } => emit_call(ctx, funcs, *id, args),
        IRStmt::Out { val } => emit_out(ctx, funcs, val),
        IRStmt::While { condition, body } => emit_while(ctx, funcs, condition, body),
        IRStmt::If { condition, body, else_body } => match else_body {
            Some(else_b) => emit_if_else(ctx, funcs, condition, body, else_b),
            None => emit_if(ctx, funcs, condition, body),
        },
        IRStmt::Block { body } => {
            let ghost s = ctx.state();
            proof {
                assert(s.callstack.is_prefix_of(s.callstack));
            }
            emit_scoped(ctx, funcs, body, Ghost(s))
        },
    }
}

/// Compiles a sequence of statements, in order; `None` where the
/// bookkeeping would overflow or find no scope open.
pub fn emit_stmts(ctx: &mut CompileContext, funcs: &HashMap<usize, IRFunc>, stmts: &[IRStmt]) -> (res: Option<
    Result<Vec<AssemblyOp>, CompileError>,
>)
    ensures
        emitted(stmts_spec(old(ctx).state(), funcs@, stmts@), final(ctx).state(), res),
        final(ctx).arrays == old(ctx).arrays,
    decreases open_count(funcs@, old(ctx).callstack@), stmts@, 2nat,
{
    let ghost s0 = ctx.state();
    let mut code: Vec<AssemblyOp> = Vec::new();
    let mut i: usize = 0;
    proof {
        assert(stmts@.take(0) =~= Seq::<IRStmt>::empty());
        assert(ops_deep(code@) =~= Seq::<OpView>::empty());
        assert(s0.callstack.is_prefix_of(s0.callstack));
    }
    while i < stmts.len()
        invariant
            i <= stmts@.len(),
            s0 == old(ctx).state(),
            ctx.arrays == old(ctx).arrays,
            stmts_spec(s0, funcs@, stmts@.take(i as int)) == Some((ctx.state(), Ok::<Seq<OpView>, CompileError>(ops_deep(code@)))),
            s0.callstack.is_prefix_of(ctx.state().callstack),
        decreases stmts@.len() - i,
    {
        proof {
            lemma_stmts_prefix(s0, funcs@, stmts@, i + 1);
            assert(stmts@.take(i + 1).drop_last() =~= stmts@.take(i as int));
            assert(stmts@.take(i + 1).last() == stmts@[i as int]);
            lemma_count_prefix(funcs@, s0.callstack, ctx.callstack@);
        }
        let ghost si = ctx.state();
        let mut e = match emit_stmt(ctx, funcs, &stmts[i])? {
            Ok(e) => e,
            Err(er) => {
                return Some(Err(er));
            },
        };
        proof {
            lemma_stmt_callstack(si, funcs@, stmts@[i as int]);
            lemma_prefix_trans(s0.callstack, si.callstack, ctx.state().callstack);
        }
        let ghost before = code@;
        let ghost ev = e@;
        code.append(&mut e);
        proof {
            lemma_ops_deep_concat(before, ev);
        }
        i = i + 1;
    }
    proof {
        assert(stmts@.take(i as int) =~= stmts@);
    }
    Some(Ok(code))
}

/// Compiles a sequence of statements, in order. The bookkeeping must
/// neither overflow nor find no scope open on the way.
pub fn compile_stmts(ctx: &mut CompileContext, funcs: &HashMap<usize, IRFunc>, stmts: &[IRStmt]) -> (res: Result<
    Vec<AssemblyOp>,
    CompileError,
>)
    requires
        stmts_spec(old(ctx).state(), funcs@, stmts@) is Some,
    ensures
        matches_outcome(stmts_spec(old(ctx).state(), funcs@, stmts@), final(ctx).state(), res),
        final(ctx).arrays == old(ctx).arrays,
{
    match emit_stmts(ctx, funcs, stmts) {
        Some(r) => r,
        None => {
            assert(false);
            Err(CompileError::Unimplemented)
        },
    }
}

} // verus!
