use vstd::prelude::*;

use crate::assembly::semantics::{run, tape_ok, with_cell};
use vstd::arithmetic::div_mod::lemma_add_mod_noop_right;

use crate::assembly::program::OpView;
use crate::assembly::semantics::moves_effect;
use crate::compile::ctx::{alloc_noname_spec, alloc_spec, get_spec, push_spec, CState, CompileError};
use crate::compile::expr::expr_spec;
use crate::compile::layout::{
    expr_value, layout_ok, lemma_alloc_layout, lemma_alloc_noname_layout, lemma_expr_computes, lemma_expr_layout,
    lemma_get_below, lemma_reads_below, lemma_value_with_cell, lemma_restored_layout, lemma_run_concat, lemma_same_names, reads_not,
};
use crate::compile::stmt::{args_spec, scoped_spec, stmt_spec, stmts_spec, vars_spec};
use crate::ir::ir::{IRExpr, IRFunc, IRStmt, IRVarInit};

verus! {

/// What a definition leaves in the cell of its `i`-th variable: the value
/// of its initializer, wrapped around at 256, computed in the bookkeeping
/// that names the variable and on the tape that the definitions before it
/// left; 0 where it has no initializer.
pub open spec fn defined_value(s: CState, vars: Seq<IRVarInit>, t: spec_fn(int) -> int, i: int) -> int {
    match vars_spec(s, vars.take(i)) {
        Some((si, Ok(pi))) => match alloc_spec(si, vars[i].id) {
            Some((s2, _)) => match vars[i].init {
                Some(e) => match run(t, pi) {
                    Some(ti) => expr_value(s2, e, ti) % 256,
                    None => 0,
                },
                None => 0,
            },
            None => 0,
        },
        _ => 0,
    }
}

/// The `i`-th initializer of a definition reads no variable standing in
/// the cell it initializes.
pub open spec fn init_reads_not_own(s: CState, vars: Seq<IRVarInit>, i: int) -> bool {
    match vars_spec(s, vars.take(i)) {
        Some((si, Ok(_))) => match alloc_spec(si, vars[i].id) {
            Some((s2, p)) => match vars[i].init {
                Some(e) => reads_not(s2, e, p),
                None => true,
            },
            None => true,
        },
        _ => true,
    }
}

/// A variable definition's code, run on a tape whose cells not in use
/// hold 0, gives its `i`-th variable the `i`-th cell not in use and leaves
/// there what `defined_value` says, for every `i`: the initializer's value
/// where there is one, 0 otherwise. Every cell below the new ones keeps
/// its value and every cell above them holds 0 again. This holds where no
/// initializer reads the variable it defines.
pub proof fn lemma_vars_compute(s: CState, vars: Seq<IRVarInit>, t: spec_fn(int) -> int)
    requires
        layout_ok(s),
        tape_ok(t),
        forall|x: int| x >= s.usage ==> #[trigger] t(x) == 0,
        vars_spec(s, vars) matches Some((_, Ok(_))),
        forall|i: int| 0 <= i < vars.len() ==> #[trigger] init_reads_not_own(s, vars, i),
    ensures
        vars_spec(s, vars) matches Some((s2, Ok(ops))) && s2.usage == s.usage + vars.len() && layout_ok(s2) && (run(
            t,
            ops,
        ) matches Some(t2) && tape_ok(t2) && (forall|x: int| x < s.usage ==> #[trigger] t2(x) == t(x)) && (forall|
            x: int,
        |
            x >= s.usage + vars.len() ==> #[trigger] t2(x) == 0) && (forall|i: int|
            0 <= i < vars.len() ==> #[trigger] t2(s.usage + i) == defined_value(s, vars, t, i))),
    decreases vars.len(),
{
    if vars.len() == 0 {
        assert(run(t, Seq::<crate::assembly::program::OpView>::empty()) == Some(t));
    } else {
        let k = vars.len() - 1;
        let rest = vars.drop_last();
        let last = vars.last();
        assert forall|i: int| 0 <= i <= k implies #[trigger] vars.take(i) == rest.take(i) by {
            assert(vars.take(i) =~= rest.take(i));
        }
        assert(vars.take(k) == rest);
        assert forall|i: int| 0 <= i < rest.len() implies #[trigger] init_reads_not_own(s, rest, i) by {
            assert(init_reads_not_own(s, vars, i));
            assert(vars.take(i) == rest.take(i));
            assert(vars[i] == rest[i]);
        }
        lemma_vars_compute(s, rest, t);
        let (s1, r1) = vars_spec(s, rest).unwrap();
        let ops1 = r1.unwrap();
        let t1 = run(t, ops1).unwrap();
        lemma_alloc_layout(s1, last.id);
        let (s2, ptr) = alloc_spec(s1, last.id).unwrap();
        assert(ptr == s.usage + k);
        assert(s2.usage == ptr + 1);
        assert(init_reads_not_own(s, vars, k));
        assert forall|i: int| 0 <= i < k implies #[trigger] defined_value(s, vars, t, i) == defined_value(
            s,
            rest,
            t,
            i,
        ) by {
            assert(vars.take(i) == rest.take(i));
            assert(vars[i] == rest[i]);
        }
        match last.init {
            Some(e) => {
                assert forall|x: int| x >= s2.usage implies #[trigger] t1(x) == 0 by {
                    assert(x >= s.usage + rest.len());
                }
                lemma_expr_computes(s2, ptr, e, t1);
                lemma_expr_layout(s2, ptr, e);
                let (s3, r2) = expr_spec(s2, ptr, e).unwrap();
                let ops2 = r2.unwrap();
                lemma_restored_layout(s2, s3);
                lemma_run_concat(t, ops1, ops2);
                let t2 = with_cell(t1, ptr as int, expr_value(s2, e, t1) % 256);
                assert(run(t, ops1 + ops2) == Some(t2));
                assert(tape_ok(t2)) by {
                    assert forall|x: int| 0 <= #[trigger] t2(x) < 256 by {
                        assert(0 <= t1(x) < 256);
                    }
                }
                assert forall|i: int| 0 <= i < vars.len() implies #[trigger] t2(s.usage + i) == defined_value(
                    s,
                    vars,
                    t,
                    i,
                ) by {
                    if i < k {
                        assert(t1(s.usage + i) == defined_value(s, rest, t, i));
                    }
                }
                assert forall|x: int| x < s.usage implies #[trigger] t2(x) == t(x) by {
                    assert(t1(x) == t(x));
                }
                assert forall|x: int| x >= s.usage + vars.len() implies #[trigger] t2(x) == 0 by {
                    assert(t1(x) == 0);
                }
            },
            None => {
                assert forall|i: int| 0 <= i < vars.len() implies #[trigger] t1(s.usage + i) == defined_value(
                    s,
                    vars,
                    t,
                    i,
                ) by {
                    if i < k {
                        assert(t1(s.usage + i) == defined_value(s, rest, t, i));
                    } else {
                        assert(t1(s.usage + k) == 0);
                    }
                }
                assert forall|x: int| x >= s.usage + vars.len() implies #[trigger] t1(x) == 0 by {
                    assert(x >= s.usage + rest.len());
                }
            },
        }
    }
}

/// What binding the parameters of a call leaves in the cell of its
/// `i`-th parameter: the value of the `i`-th argument, wrapped around at
/// 256, computed in the bookkeeping that names the parameter and on the
/// tape that binding the parameters before it left.
pub open spec fn bound_value(s: CState, params: Seq<usize>, args: Seq<IRExpr>, t: spec_fn(int) -> int, i: int) -> int {
    match args_spec(s, params, args, i as nat) {
        Some((si, Ok(pi))) => match alloc_spec(si, params[i]) {
            Some((s2, _)) => match run(t, pi) {
                Some(ti) => expr_value(s2, args[i], ti) % 256,
                None => 0,
            },
            None => 0,
        },
        _ => 0,
    }
}

/// The `i`-th argument of a call reads no variable standing in the cell
/// of the `i`-th parameter.
pub open spec fn arg_reads_not_own(s: CState, params: Seq<usize>, args: Seq<IRExpr>, i: int) -> bool {
    match args_spec(s, params, args, i as nat) {
        Some((si, Ok(_))) => match alloc_spec(si, params[i]) {
            Some((s2, p)) => reads_not(s2, args[i], p),
            None => true,
        },
        _ => true,
    }
}

/// Binding the first `n` parameters of a call, run on a tape whose cells
/// not in use hold 0, gives the `i`-th parameter the `i`-th cell not in
/// use and computes the `i`-th argument into it, for every `i`, as
/// `bound_value` says. Every cell below the new ones keeps its value and
/// every cell above them holds 0 again. This holds where no argument reads
/// a variable standing in its parameter's cell.
pub proof fn lemma_args_compute(s: CState, params: Seq<usize>, args: Seq<IRExpr>, n: nat, t: spec_fn(int) -> int)
    requires
        layout_ok(s),
        tape_ok(t),
        forall|x: int| x >= s.usage ==> #[trigger] t(x) == 0,
        n <= params.len(),
        n <= args.len(),
        args_spec(s, params, args, n) matches Some((_, Ok(_))),
        forall|i: int| 0 <= i < n ==> #[trigger] arg_reads_not_own(s, params, args, i),
    ensures
        args_spec(s, params, args, n) matches Some((s2, Ok(ops))) && s2.usage == s.usage + n && layout_ok(s2) && (run(
            t,
            ops,
        ) matches Some(t2) && tape_ok(t2) && (forall|x: int| x < s.usage ==> #[trigger] t2(x) == t(x)) && (forall|
            x: int,
        | x >= s.usage + n ==> #[trigger] t2(x) == 0) && (forall|i: int|
            0 <= i < n ==> #[trigger] t2(s.usage + i) == bound_value(s, params, args, t, i))),
    decreases n,
{
    if n == 0 {
        assert(run(t, Seq::<crate::assembly::program::OpView>::empty()) == Some(t));
    } else {
        let k = (n - 1) as nat;
        lemma_args_compute(s, params, args, k, t);
        let (s1, r1) = args_spec(s, params, args, k).unwrap();
        let ops1 = r1.unwrap();
        let t1 = run(t, ops1).unwrap();
        lemma_alloc_layout(s1, params[k as int]);
        let (s2, ptr) = alloc_spec(s1, params[k as int]).unwrap();
        assert(ptr == s.usage + k);
        assert(s2.usage == ptr + 1);
        assert(arg_reads_not_own(s, params, args, k as int));
        let e = args[k as int];
        assert forall|x: int| x >= s2.usage implies #[trigger] t1(x) == 0 by {
            assert(x >= s.usage + k);
        }
        lemma_expr_computes(s2, ptr, e, t1);
        lemma_expr_layout(s2, ptr, e);
        let (s3, r2) = expr_spec(s2, ptr, e).unwrap();
        let ops2 = r2.unwrap();
        lemma_restored_layout(s2, s3);
        lemma_run_concat(t, ops1, ops2);
        let t2 = with_cell(t1, ptr as int, expr_value(s2, e, t1) % 256);
        assert(run(t, ops1 + ops2) == Some(t2));
        assert(tape_ok(t2)) by {
            assert forall|x: int| 0 <= #[trigger] t2(x) < 256 by {
                assert(0 <= t1(x) < 256);
            }
        }
        assert forall|i: int| 0 <= i < n implies #[trigger] t2(s.usage + i) == bound_value(s, params, args, t, i) by {
            if i < k {
                assert(t1(s.usage + i) == bound_value(s, params, args, t, i));
            }
        }
        assert forall|x: int| x < s.usage implies #[trigger] t2(x) == t(x) by {
            assert(t1(x) == t(x));
        }
        assert forall|x: int| x >= s.usage + n implies #[trigger] t2(x) == 0 by {
            assert(t1(x) == 0);
        }
    }
}

/// The code of a variable definition is that of binding its variables,
/// in order, in the bookkeeping it starts from.
pub proof fn lemma_define_binds(s: CState, funcs: Map<usize, IRFunc>, vars: Vec<IRVarInit>)
    ensures
        stmt_spec(s, funcs, IRStmt::VariableDefine { vars }) == vars_spec(s, vars@),
{
}

/// The code of a call starts with binding the function's parameters to
/// the call's own arguments, in order, in a fresh scope of the caller's
/// bookkeeping with the function on the call stack.
pub proof fn lemma_call_binds(s: CState, funcs: Map<usize, IRFunc>, id: usize, args: Vec<IRExpr>)
    ensures
        stmt_spec(s, funcs, IRStmt::Call { id, args }) matches Some((_, Ok(ops))) ==> (args_spec(
            push_spec(CState { callstack: s.callstack.push(id), ..s }),
            funcs[id].args@,
            args@,
            args@.len(),
        ) matches Some((_, Ok(a))) && a.is_prefix_of(ops) && funcs[id].args@.len() == args@.len()),
{
    if let Some((_, Ok(ops))) = stmt_spec(s, funcs, IRStmt::Call { id, args }) {
        let s2 = push_spec(CState { callstack: s.callstack.push(id), ..s });
        let (s3, r1) = args_spec(s2, funcs[id].args@, args@, args@.len()).unwrap();
        let a = r1.unwrap();
        let (s4, r2) = stmts_spec(s3, funcs, funcs[id].code@).unwrap();
        assert(ops == a + r2.unwrap());
        assert(a =~= ops.subrange(0, a.len() as int));
    }
}

/// An assignment's code, run on a tape whose cells not in use hold 0,
/// adds the value of the right side, wrapped around at 256, into the
/// variable's cell, and leaves every other cell as it was.
pub proof fn lemma_assign_compute(
    s: CState,
    funcs: Map<usize, IRFunc>,
    id: usize,
    value: IRExpr,
    t: spec_fn(int) -> int,
)
    requires
        layout_ok(s),
        tape_ok(t),
        forall|x: int| x >= s.usage ==> #[trigger] t(x) == 0,
        stmt_spec(s, funcs, IRStmt::Assign { id, value }) matches Some((_, Ok(_))),
    ensures
        get_spec(s, id) matches Ok(ptr) && stmt_spec(s, funcs, IRStmt::Assign { id, value }) matches Some((_, Ok(ops)))
            && run(t, ops) == Some(
            with_cell(t, ptr as int, (t(ptr as int) + expr_value(s, value, t)) % 256),
        ),
{
    lemma_alloc_noname_layout(s);
    let (s1, vp) = alloc_noname_spec(s).unwrap();
    assert forall|i: usize| #[trigger] get_spec(s, i) == get_spec(s1, i) by {
        assert(s1.var_map == s.var_map);
    }
    lemma_reads_below(s, value, vp);
    lemma_same_names(s, s1, value, vp, t);
    assert forall|x: int| x >= s1.usage implies #[trigger] t(x) == 0 by {
        assert(x >= s.usage);
    }
    lemma_expr_computes(s1, vp, value, t);
    lemma_expr_layout(s1, vp, value);
    let (s2, r) = expr_spec(s1, vp, value).unwrap();
    let ops1 = r.unwrap();
    assert(s2.var_map == s.var_map);
    assert(get_spec(s2, id) == get_spec(s, id));
    lemma_get_below(s, id);
    let ptr = get_spec(s, id)->Ok_0;
    let v = expr_value(s, value, t);
    let t1 = with_cell(t, vp as int, v % 256);
    let d = seq![(ptr, 1i8)];
    let ops = ops1.push(OpView::Move(vp, d));
    assert(ops.drop_last() == ops1);
    assert(d.drop_last() =~= Seq::<(usize, i8)>::empty());
    assert(moves_effect(t1, Seq::<(usize, i8)>::empty(), t1(vp as int)) == t1);
    let t2 = with_cell(with_cell(t1, ptr as int, (t1(ptr as int) + 1 * t1(vp as int)) % 256), vp as int, 0);
    assert(run(t, ops) == Some(t2));
    lemma_add_mod_noop_right(t(ptr as int), v, 256);
    assert(t2 =~= with_cell(t, ptr as int, (t(ptr as int) + v) % 256)) by {
        assert(t(vp as int) == 0);
    }
}

/// An output's code, run on a tape whose cells not in use hold 0, first
/// leaves the value of its expression, wrapped around at 256, in the first
/// cell not in use, changing no other cell, and then prints that cell.
pub proof fn lemma_out_compute(s: CState, funcs: Map<usize, IRFunc>, val: IRExpr, t: spec_fn(int) -> int)
    requires
        layout_ok(s),
        tape_ok(t),
        forall|x: int| x >= s.usage ==> #[trigger] t(x) == 0,
        stmt_spec(s, funcs, IRStmt::Out { val }) matches Some((_, Ok(_))),
    ensures
        stmt_spec(s, funcs, IRStmt::Out { val }) matches Some((_, Ok(ops))) && ops.len() > 0 && ops.last()
            == OpView::Out(s.usage) && run(t, ops.drop_last()) == Some(
            with_cell(t, s.usage as int, expr_value(s, val, t) % 256),
        ),
{
    lemma_alloc_noname_layout(s);
    let (s1, vp) = alloc_noname_spec(s).unwrap();
    assert forall|i: usize| #[trigger] get_spec(s, i) == get_spec(s1, i) by {
        assert(s1.var_map == s.var_map);
    }
    lemma_reads_below(s, val, vp);
    lemma_same_names(s, s1, val, vp, t);
    assert forall|x: int| x >= s1.usage implies #[trigger] t(x) == 0 by {
        assert(x >= s.usage);
    }
    lemma_expr_computes(s1, vp, val, t);
    let (s2, r) = expr_spec(s1, vp, val).unwrap();
    let ops1 = r.unwrap();
    assert(ops1.push(OpView::Out(vp)).drop_last() == ops1);
}

/// A loop's code, run on a tape whose cells not in use hold 0, first
/// leaves the value of its condition, wrapped around at 256, in the first
/// cell not in use, changing no other cell, and then loops on that cell.
pub proof fn lemma_while_tests_condition(
    s: CState,
    funcs: Map<usize, IRFunc>,
    condition: IRExpr,
    body: Vec<IRStmt>,
    t: spec_fn(int) -> int,
)
    requires
        layout_ok(s),
        tape_ok(t),
        forall|x: int| x >= s.usage ==> #[trigger] t(x) == 0,
        stmt_spec(s, funcs, IRStmt::While { condition, body }) matches Some((_, Ok(_))),
    ensures
        stmt_spec(s, funcs, IRStmt::While { condition, body }) matches Some((_, Ok(ops))) && ops.len() > 0 && (
        ops.last() matches OpView::Loop(c, _) && c == s.usage) && run(t, ops.drop_last()) == Some(
            with_cell(t, s.usage as int, expr_value(s, condition, t) % 256),
        ),
{
    lemma_alloc_noname_layout(s);
    let (s1, cp) = alloc_noname_spec(s).unwrap();
    assert forall|i: usize| #[trigger] get_spec(s, i) == get_spec(s1, i) by {
        assert(s1.var_map == s.var_map);
    }
    lemma_reads_below(s, condition, cp);
    lemma_same_names(s, s1, condition, cp, t);
    assert forall|x: int| x >= s1.usage implies #[trigger] t(x) == 0 by {
        assert(x >= s.usage);
    }
    lemma_expr_computes(s1, cp, condition, t);
    let (s2, r) = expr_spec(s1, cp, condition).unwrap();
    let ops1 = r.unwrap();
    let (s3, rb) = scoped_spec(s2, funcs, body@, s).unwrap();
    let (s4, r3) = expr_spec(s3, cp, condition).unwrap();
    let l = OpView::Loop(cp, rb.unwrap() + r3.unwrap());
    assert(ops1.push(l).drop_last() == ops1);
}

/// A call is refused as recursive exactly where its function is already on
/// the call stack, then as undefined where no such function exists, then
/// for a wrong number of arguments; a call that compiles passes all three
/// checks.
pub proof fn lemma_call_checks(s: CState, funcs: Map<usize, IRFunc>, id: usize, args: Vec<IRExpr>)
    ensures
        s.callstack.contains(id) ==> stmt_spec(s, funcs, IRStmt::Call { id, args }) == Some(
            (s, Err::<Seq<OpView>, CompileError>(CompileError::RecursiveCall)),
        ),
        !s.callstack.contains(id) && !funcs.contains_key(id) ==> stmt_spec(s, funcs, IRStmt::Call { id, args }) matches Some(
            (_, Err(CompileError::UndefinedFunction)),
        ),
        !s.callstack.contains(id) && funcs.contains_key(id) && funcs[id].args@.len() != args@.len() ==> stmt_spec(
            s,
            funcs,
            IRStmt::Call { id, args },
        ) matches Some((_, Err(CompileError::ArgsLengthMismatch))),
        stmt_spec(s, funcs, IRStmt::Call { id, args }) matches Some((_, Ok(_))) ==> !s.callstack.contains(id)
            && funcs.contains_key(id) && funcs[id].args@.len() == args@.len(),
{
}

/// A conditional without an else branch, run on a tape whose cells not in
/// use hold 0, first leaves the value of its condition, wrapped around at
/// 256, in the first cell not in use, changing no other cell, and then
/// loops on that cell, clearing it at the end of the body so that the body
/// runs at most once.
pub proof fn lemma_if_tests_condition(
    s: CState,
    funcs: Map<usize, IRFunc>,
    condition: IRExpr,
    body: Vec<IRStmt>,
    t: spec_fn(int) -> int,
)
    requires
        layout_ok(s),
        tape_ok(t),
        forall|x: int| x >= s.usage ==> #[trigger] t(x) == 0,
        stmt_spec(s, funcs, IRStmt::If { condition, body, else_body: None }) matches Some((_, Ok(_))),
    ensures
        stmt_spec(s, funcs, IRStmt::If { condition, body, else_body: None }) matches Some((_, Ok(ops))) && ops.len() > 0
            && (ops.last() matches OpView::Loop(c, inner) && c == s.usage && inner.len() > 0 && inner.last()
            == OpView::SetCell(c, 0)) && run(t, ops.drop_last()) == Some(
            with_cell(t, s.usage as int, expr_value(s, condition, t) % 256),
        ),
{
    lemma_alloc_noname_layout(s);
    let (s1, cp) = alloc_noname_spec(s).unwrap();
    assert forall|i: usize| #[trigger] get_spec(s, i) == get_spec(s1, i) by {
        assert(s1.var_map == s.var_map);
    }
    lemma_reads_below(s, condition, cp);
    lemma_same_names(s, s1, condition, cp, t);
    assert forall|x: int| x >= s1.usage implies #[trigger] t(x) == 0 by {
        assert(x >= s.usage);
    }
    lemma_expr_computes(s1, cp, condition, t);
    let (s2, r) = expr_spec(s1, cp, condition).unwrap();
    let ops1 = r.unwrap();
    let (s3, rb) = scoped_spec(s2, funcs, body@, s).unwrap();
    let l = OpView::Loop(cp, rb.unwrap().push(OpView::SetCell(cp, 0)));
    assert(ops1.push(l).drop_last() == ops1);
}

/// A conditional with an else branch, run on a tape whose cells not in use
/// hold 0, first sets a flag in the second cell not in use and leaves the
/// value of its condition, wrapped around at 256, in the first, changing no
/// other cell; then it loops on the condition's cell, clearing it and the
/// flag at the end of the body, and then loops on the flag, clearing it at
/// the end of the else branch: exactly one of the two runs, once.
pub proof fn lemma_if_else_tests_condition(
    s: CState,
    funcs: Map<usize, IRFunc>,
    condition: IRExpr,
    body: Vec<IRStmt>,
    else_b: Vec<IRStmt>,
    t: spec_fn(int) -> int,
)
    requires
        layout_ok(s),
        tape_ok(t),
        forall|x: int| x >= s.usage ==> #[trigger] t(x) == 0,
        stmt_spec(s, funcs, IRStmt::If { condition, body, else_body: Some(else_b) }) matches Some((_, Ok(_))),
    ensures
        stmt_spec(s, funcs, IRStmt::If { condition, body, else_body: Some(else_b) }) matches Some((_, Ok(ops)))
            && ops.len() >= 3 && ops[0] == OpView::SetCell((s.usage + 1) as usize, 1) && (ops[ops.len() - 2] matches OpView::Loop(
            c,
            inner,
        ) && c == s.usage && inner.len() >= 2 && inner[inner.len() - 2] == OpView::SetCell(c, 0) && inner.last()
            == OpView::SetCell((s.usage + 1) as usize, 0)) && (ops.last() matches OpView::Loop(f, inner2) && f == s.usage + 1
            && inner2.len() > 0 && inner2.last() == OpView::SetCell(f, 0)) && run(t, ops.subrange(0, ops.len() - 2))
            == Some(with_cell(with_cell(t, s.usage + 1, 1), s.usage as int, expr_value(s, condition, t) % 256)),
{
    lemma_alloc_noname_layout(s);
    let (s1, cp) = alloc_noname_spec(s).unwrap();
    lemma_alloc_noname_layout(s1);
    let (s2, ep) = alloc_noname_spec(s1).unwrap();
    assert forall|i: usize| #[trigger] get_spec(s, i) == get_spec(s2, i) by {
        assert(s2.var_map == s.var_map);
    }
    lemma_reads_below(s, condition, cp);
    lemma_reads_below(s, condition, ep);
    lemma_same_names(s, s2, condition, cp, t);
    let t0 = with_cell(t, ep as int, 1);
    assert(tape_ok(t0)) by {
        assert forall|x: int| 0 <= #[trigger] t0(x) < 256 by {
            assert(0 <= t(x) < 256);
        }
    }
    assert forall|x: int| x >= s2.usage implies #[trigger] t0(x) == 0 by {
        assert(x >= s.usage);
    }
    lemma_expr_computes(s2, cp, condition, t0);
    lemma_same_names(s, s2, condition, cp, t0);
    lemma_value_with_cell(s, condition, t, ep, 1);
    let (s3, r) = expr_spec(s2, cp, condition).unwrap();
    let ops1 = r.unwrap();
    let (s4, rb) = scoped_spec(s3, funcs, body@, s).unwrap();
    let b = rb.unwrap();
    let then_loop = OpView::Loop(cp, b.push(OpView::SetCell(cp, 0)).push(OpView::SetCell(ep, 0)));
    let head = seq![OpView::SetCell(ep, 1)] + ops1.push(then_loop);
    let (s5, re) = scoped_spec(s4, funcs, else_b@, s).unwrap();
    let ops = head.push(OpView::Loop(ep, re.unwrap().push(OpView::SetCell(ep, 0))));
    let pre = seq![OpView::SetCell(ep, 1)] + ops1;
    assert(ops.subrange(0, ops.len() - 2) =~= pre);
    assert(seq![OpView::SetCell(ep, 1)].drop_last() =~= Seq::<OpView>::empty());
    assert(run(t, seq![OpView::SetCell(ep, 1)]) == Some(t0)) by {
        assert(run(t, Seq::<OpView>::empty()) == Some(t));
        assert(seq![OpView::SetCell(ep, 1)].last() == OpView::SetCell(ep, 1));
        assert(with_cell(t, ep as int, (1i8 as int) % 256) =~= t0);
    }
    lemma_run_concat(t, seq![OpView::SetCell(ep, 1)], ops1);
    let bb = b.push(OpView::SetCell(cp, 0)).push(OpView::SetCell(ep, 0));
    assert(bb[bb.len() - 2] == OpView::SetCell(cp, 0));
    assert(ops[ops.len() - 2] == then_loop);
}

} // verus!
