use vstd::arithmetic::div_mod::{lemma_add_mod_noop, lemma_sub_mod_noop};
use vstd::prelude::*;

use crate::assembly::cells::{lemma_ops_within_concat, lemma_ops_within_mono, lemma_ops_within_push, op_within, ops_within};
use crate::assembly::program::OpView;
use crate::compile::ctx::{lemma_free_undoes_alloc, lemma_pop_undoes_push, alloc_noname_spec, alloc_spec, free_spec, get_spec, lookup, pop_spec, push_spec, CState, CompileError};
use crate::compile::expr::{expr_spec, finish_spec, Outcome};
use crate::compile::stmt::{args_spec, free_after, open_count, scoped_spec, stmt_spec, stmts_spec, vars_spec, within};
use crate::assembly::semantics::{moves_effect, run, tape_ok, with_cell};
use crate::ir::ir::{IRExpr, IRFunc, IRStmt, IRVarInit};

verus! {

/// Where the cells named in scope `i` end: at the opening of the next
/// scope, or at the cells in use for the innermost one.
pub open spec fn scope_end(s: CState, i: int) -> int {
    if i + 1 < s.var_map.len() {
        s.var_map[i + 1].0 as int
    } else {
        s.usage as int
    }
}

/// The bookkeeping is consistent: no more cells in use than the most ever
/// used; scopes opened in order, none above the cells in use; and each
/// named cell below the end of its scope.
pub open spec fn layout_ok(s: CState) -> bool {
    &&& s.usage <= s.max_usage
    &&& forall|i: int, j: int| 0 <= i <= j < s.var_map.len() ==> s.var_map[i].0 <= s.var_map[j].0
    &&& forall|i: int| 0 <= i < s.var_map.len() ==> s.var_map[i].0 <= s.usage
    &&& forall|i: int, k: usize|
        0 <= i < s.var_map.len() && #[trigger] s.var_map[i].1.contains_key(k) ==> s.var_map[i].1[k] < scope_end(
            s,
            i,
        )
}

/// An expression's compilation leaves the cells in use, the scopes and the
/// call stack as they were, raises the most ever used at most, names only
/// cells below it, and never frees out of order.
pub open spec fn expr_framed(s: CState, out: Outcome<Seq<OpView>>) -> bool {
    match out {
        Some((s2, Ok(ops))) => s2 == (CState { max_usage: s2.max_usage, ..s }) && s.max_usage <= s2.max_usage
            && ops_within(ops, s2.max_usage as int),
        Some((_, Err(e))) => e != CompileError::FreeMismatch,
        None => true,
    }
}

proof fn lemma_lookup_below(vm: Seq<(usize, Map<usize, usize>)>, u: int, id: usize)
    requires
        forall|i: int, j: int| 0 <= i <= j < vm.len() ==> vm[i].0 <= vm[j].0,
        forall|i: int| 0 <= i < vm.len() ==> vm[i].0 <= u,
        forall|i: int, k: usize|
            0 <= i < vm.len() && #[trigger] vm[i].1.contains_key(k) ==> vm[i].1[k] < (if i + 1 < vm.len() {
                vm[i + 1].0 as int
            } else {
                u
            }),
    ensures
        lookup(vm, id) matches Some(p) ==> p < u,
    decreases vm.len(),
{
    if vm.len() > 0 && !vm.last().1.contains_key(id) {
        let d = vm.drop_last();
        let u2 = vm.last().0 as int;
        assert forall|i: int, k: usize| 0 <= i < d.len() && #[trigger] d[i].1.contains_key(k) implies d[i].1[k] < (if i
            + 1 < d.len() {
            d[i + 1].0 as int
        } else {
            u2
        }) by {
            assert(vm[i].1.contains_key(k));
        }
        assert forall|i: int| 0 <= i < d.len() implies d[i].0 <= u2 by {
            assert(vm[i].0 <= vm[vm.len() - 1].0);
        }
        lemma_lookup_below(d, u2, id);
    }
}

/// Under a consistent layout, a variable's cell is one in use.
pub proof fn lemma_get_below(s: CState, id: usize)
    requires
        layout_ok(s),
    ensures
        get_spec(s, id) matches Ok(p) ==> p < s.usage,
{
    assert forall|i: int, k: usize| 0 <= i < s.var_map.len() && #[trigger] s.var_map[i].1.contains_key(k) implies s.var_map[
        i].1[k] < (if i + 1 < s.var_map.len() {
        s.var_map[i + 1].0 as int
    } else {
        s.usage as int
    }) by {
        assert(s.var_map[i].1[k] < scope_end(s, i));
    }
    lemma_lookup_below(s.var_map, s.usage as int, id);
}

/// Opening a scope keeps the layout consistent, and closing it again gives the bookkeeping back.
pub proof fn lemma_push_layout(s: CState)
    requires
        layout_ok(s),
    ensures
        layout_ok(push_spec(s)),
        pop_spec(push_spec(s)) == Some(s),
{
    let t = push_spec(s);
    assert forall|i: int, k: usize| 0 <= i < t.var_map.len() && #[trigger] t.var_map[i].1.contains_key(k) implies t.var_map[
        i].1[k] < scope_end(t, i) by {
        if i < s.var_map.len() {
            assert(t.var_map[i] == s.var_map[i]);
            assert(s.var_map[i].1.contains_key(k));
        }
    }
    lemma_pop_undoes_push(s);
}

/// Taking a fresh cell keeps the layout consistent; the cell is the first one not in use.
pub proof fn lemma_alloc_noname_layout(s: CState)
    requires
        layout_ok(s),
    ensures
        alloc_noname_spec(s) matches Some((s2, p)) ==> layout_ok(s2) && p == s.usage && s2 == (CState {
            usage: (s.usage + 1) as usize,
            max_usage: s2.max_usage,
            ..s
        }) && s.max_usage <= s2.max_usage && s2.usage <= s2.max_usage,
{
    if let Some((s2, p)) = alloc_noname_spec(s) {
        assert forall|i: int, k: usize| 0 <= i < s2.var_map.len() && #[trigger] s2.var_map[i].1.contains_key(k) implies s2.var_map[
            i].1[k] < scope_end(s2, i) by {
            assert(s.var_map[i].1.contains_key(k));
        }
    }
}

/// Compiling an expression into a cell in use leaves the cells in use, the
/// scopes and the call stack as they were, names only cells below the most
/// ever used, and never frees out of order.
pub proof fn lemma_expr_layout(s: CState, target: usize, e: IRExpr)
    requires
        layout_ok(s),
        target < s.usage,
    ensures
        expr_framed(s, expr_spec(s, target, e)),
    decreases e,
{
    let s0 = push_spec(s);
    lemma_push_layout(s);
    match e {
        IRExpr::Const(c) => {
            assert(ops_within(seq![OpView::SetCell(target, c)], s.max_usage as int)) by {
                lemma_ops_within_push(Seq::empty(), OpView::SetCell(target, c), s.max_usage as int);
                assert(seq![OpView::SetCell(target, c)] =~= Seq::<OpView>::empty().push(OpView::SetCell(target, c)));
            }
        },
        IRExpr::Add(l, r) | IRExpr::Sub(l, r) => {
            let factor: i8 = if e is Add { 1i8 } else { -1i8 };
            lemma_expr_layout(s0, target, *l);
            if let Some((s1, Ok(ops1))) = expr_spec(s0, target, *l) {
                assert(layout_ok(s1));
                lemma_alloc_noname_layout(s1);
                if let Some((s2, rp)) = alloc_noname_spec(s1) {
                    lemma_expr_layout(s2, rp, *r);
                    if let Some((s3, Ok(ops2))) = expr_spec(s2, rp, *r) {
                        lemma_free_undoes_alloc(s1, s3);
                        let s4 = CState { max_usage: s3.max_usage, ..s1 };
                        assert(pop_spec(s4) == Some(CState { max_usage: s3.max_usage, ..s }));
                        let m = s3.max_usage as int;
                        let mv = OpView::Move(rp, seq![(target, factor)]);
                        lemma_ops_within_mono(ops1, s1.max_usage as int, m);
                        lemma_ops_within_concat(ops1, ops2, m);
                        assert(op_within(mv, m)) by {
                            assert(seq![(target, factor)][0].0 == target);
                        }
                        lemma_ops_within_push(Seq::empty(), mv, m);
                        assert(seq![mv] =~= Seq::<OpView>::empty().push(mv));
                        lemma_ops_within_concat(ops1 + ops2, seq![mv], m);
                    }
                }
            }
        },
        IRExpr::Id { id, last_use } => {
            lemma_get_below(s0, id);
            if let Ok(ptr) = get_spec(s0, id) {
                lemma_alloc_noname_layout(s0);
                if let Some((s1, tmp)) = alloc_noname_spec(s0) {
                    lemma_free_undoes_alloc(s0, s1);
                    let s2 = CState { max_usage: s1.max_usage, ..s0 };
                    assert(pop_spec(s2) == Some(CState { max_usage: s1.max_usage, ..s }));
                    let m = s1.max_usage as int;
                    let a = OpView::Move(ptr, seq![(tmp, 1i8)]);
                    let b = OpView::Move(tmp, seq![(ptr, 1i8), (target, 1i8)]);
                    assert(op_within(a, m)) by {
                        assert(seq![(tmp, 1i8)][0].0 == tmp);
                    }
                    assert(op_within(b, m)) by {
                        let d = seq![(ptr, 1i8), (target, 1i8)];
                        assert(d[0].0 == ptr && d[1].0 == target);
                    }
                    lemma_ops_within_push(Seq::empty(), a, m);
                    lemma_ops_within_push(seq![a], b, m);
                    assert(seq![a] =~= Seq::<OpView>::empty().push(a));
                    assert(seq![a, b] =~= seq![a].push(b));
                }
            }
        },
        _ => {},
    }
}

/// After a statement, the scopes other than the innermost are as they
/// were, the innermost opened where it did, and the most ever used is no lower.
pub open spec fn frame(s: CState, s2: CState) -> bool {
    &&& s.max_usage <= s2.max_usage
    &&& s2.var_map.len() == s.var_map.len()
    &&& s.var_map.len() > 0 ==> s2.var_map.drop_last() == s.var_map.drop_last() && s2.var_map.last().0
        == s.var_map.last().0
}

/// A statement's compilation keeps the layout consistent and framed,
/// names only cells below the most ever used, and never frees out of order.
pub open spec fn stmt_framed(s: CState, out: Outcome<Seq<OpView>>) -> bool {
    match out {
        Some((s2, Ok(ops))) => layout_ok(s2) && frame(s, s2) && ops_within(ops, s2.max_usage as int),
        Some((_, Err(e))) => e != CompileError::FreeMismatch,
        None => true,
    }
}

/// A scope's compilation gives back the cells in use and the scopes as
/// they were, names only cells below the most ever used, and never frees
/// out of order.
pub open spec fn scoped_framed(s: CState, out: Outcome<Seq<OpView>>) -> bool {
    match out {
        Some((s2, Ok(ops))) => s2 == (CState { max_usage: s2.max_usage, callstack: s2.callstack, ..s })
            && s.max_usage <= s2.max_usage && ops_within(ops, s2.max_usage as int),
        Some((_, Err(e))) => e != CompileError::FreeMismatch,
        None => true,
    }
}

/// Naming a fresh cell in the innermost scope keeps the layout consistent and framed.
pub proof fn lemma_alloc_layout(s: CState, id: usize)
    requires
        layout_ok(s),
    ensures
        alloc_spec(s, id) matches Some((s2, p)) ==> layout_ok(s2) && frame(s, s2) && p == s.usage && p
            < s2.usage,
{
    lemma_alloc_noname_layout(s);
    if let Some((s1, p)) = alloc_noname_spec(s) {
        if s1.var_map.len() > 0 {
            let s2 = alloc_spec(s, id).unwrap().0;
            let n = s1.var_map.len() - 1;
            assert forall|i: int, k: usize| 0 <= i < s2.var_map.len() && #[trigger] s2.var_map[i].1.contains_key(k) implies s2.var_map[
                i].1[k] < scope_end(s2, i) by {
                if i < n {
                    assert(s2.var_map[i] == s1.var_map[i]);
                    assert(s1.var_map[i].1.contains_key(k));
                } else if k != id {
                    assert(s1.var_map[i].1.contains_key(k));
                }
            }
            assert forall|i: int, j: int| 0 <= i <= j < s2.var_map.len() implies s2.var_map[i].0 <= s2.var_map[j].0 by {
                assert(s1.var_map[i].0 <= s1.var_map[j].0);
            }
            assert(s2.var_map.drop_last() =~= s.var_map.drop_last());
        }
    }
}

/// Bookkeeping that differs only in the most cells ever used and the call
/// stack keeps a consistent layout.
pub proof fn lemma_restored_layout(s: CState, s2: CState)
    requires
        layout_ok(s),
        s2 == (CState { max_usage: s2.max_usage, callstack: s2.callstack, ..s }),
        s.max_usage <= s2.max_usage,
    ensures
        layout_ok(s2),
        frame(s, s2),
{
    assert forall|i: int, k: usize| 0 <= i < s2.var_map.len() && #[trigger] s2.var_map[i].1.contains_key(k) implies s2.var_map[
        i].1[k] < scope_end(s2, i) by {
        assert(s.var_map[i].1.contains_key(k));
    }
}

proof fn lemma_frame_trans(a: CState, b: CState, c: CState)
    requires
        frame(a, b),
        frame(b, c),
    ensures
        frame(a, c),
{
}

proof fn lemma_seq1_within(op: OpView, m: int)
    requires
        op_within(op, m),
    ensures
        ops_within(seq![op], m),
{
    lemma_ops_within_push(Seq::empty(), op, m);
    assert(seq![op] =~= Seq::<OpView>::empty().push(op));
}

/// A variable definition keeps the layout consistent and framed.
pub proof fn lemma_vars_layout(s: CState, vars: Seq<IRVarInit>)
    requires
        layout_ok(s),
    ensures
        stmt_framed(s, vars_spec(s, vars)),
    decreases vars.len(),
{
    if vars.len() > 0 {
        lemma_vars_layout(s, vars.drop_last());
        if let Some((s1, Ok(ops1))) = vars_spec(s, vars.drop_last()) {
            lemma_alloc_layout(s1, vars.last().id);
            if let Some((s2, ptr)) = alloc_spec(s1, vars.last().id) {
                if let Some(init) = vars.last().init {
                    lemma_expr_layout(s2, ptr, init);
                    if let Some((s3, Ok(ops2))) = expr_spec(s2, ptr, init) {
                        lemma_restored_layout(s2, s3);
                        lemma_ops_within_mono(ops1, s1.max_usage as int, s3.max_usage as int);
                        lemma_ops_within_concat(ops1, ops2, s3.max_usage as int);
                    }
                } else {
                    lemma_ops_within_mono(ops1, s1.max_usage as int, s2.max_usage as int);
                }
            }
        }
    } else {
        assert(frame(s, s));
    }
}

/// Binding the parameters of a call keeps the layout consistent and framed.
pub proof fn lemma_args_layout(s: CState, params: Seq<usize>, args: Seq<IRExpr>, n: nat)
    requires
        layout_ok(s),
    ensures
        stmt_framed(s, args_spec(s, params, args, n)),
    decreases n,
{
    if n > 0 {
        lemma_args_layout(s, params, args, (n - 1) as nat);
        if let Some((s1, Ok(ops1))) = args_spec(s, params, args, (n - 1) as nat) {
            lemma_alloc_layout(s1, params[n - 1]);
            if let Some((s2, ptr)) = alloc_spec(s1, params[n - 1]) {
                lemma_expr_layout(s2, ptr, args[n - 1]);
                if let Some((s3, Ok(ops2))) = expr_spec(s2, ptr, args[n - 1]) {
                    lemma_restored_layout(s2, s3);
                    lemma_ops_within_mono(ops1, s1.max_usage as int, s3.max_usage as int);
                    lemma_ops_within_concat(ops1, ops2, s3.max_usage as int);
                }
            }
        }
    } else {
        assert(frame(s, s));
    }
}

/// A body compiled in a scope of its own gives back the cells in use and the scopes.
pub proof fn lemma_scoped_layout(s: CState, funcs: Map<usize, IRFunc>, body: Seq<IRStmt>, outer: CState)
    requires
        layout_ok(s),
    ensures
        scoped_framed(s, scoped_spec(s, funcs, body, outer)),
    decreases open_count(funcs, outer.callstack), body, 3nat,
{
    let s1 = push_spec(s);
    lemma_push_layout(s);
    if within(funcs, s1, outer) {
        lemma_stmts_layout(s1, funcs, body);
        if let Some((s2, Ok(ops))) = stmts_spec(s1, funcs, body) {
            assert(s1.var_map.drop_last() =~= s.var_map);
            assert(s2.var_map.drop_last() == s.var_map);
            assert(pop_spec(s2) == Some(CState { max_usage: s2.max_usage, callstack: s2.callstack, ..s }));
        }
    }
}

/// Compiling statements from a consistent layout keeps it consistent and
/// framed, names only cells below the most ever used, and never frees out
/// of order.
pub proof fn lemma_stmts_layout(s: CState, funcs: Map<usize, IRFunc>, stmts: Seq<IRStmt>)
    requires
        layout_ok(s),
    ensures
        stmt_framed(s, stmts_spec(s, funcs, stmts)),
    decreases open_count(funcs, s.callstack), stmts, 2nat,
{
    if stmts.len() > 0 {
        lemma_stmts_layout(s, funcs, stmts.drop_last());
        if let Some((s1, Ok(ops1))) = stmts_spec(s, funcs, stmts.drop_last()) {
            if within(funcs, s1, s) {
                lemma_stmt_layout(s1, funcs, stmts.last());
                if let Some((s2, Ok(ops2))) = stmt_spec(s1, funcs, stmts.last()) {
                    lemma_frame_trans(s, s1, s2);
                    lemma_ops_within_mono(ops1, s1.max_usage as int, s2.max_usage as int);
                    lemma_ops_within_concat(ops1, ops2, s2.max_usage as int);
                }
            }
        }
    } else {
        assert(frame(s, s));
    }
}

proof fn lemma_call_layout(s: CState, funcs: Map<usize, IRFunc>, stmt: IRStmt)
    requires
        stmt is Call,
        layout_ok(s),
    ensures
        stmt_framed(s, stmt_spec(s, funcs, stmt)),
    decreases open_count(funcs, s.callstack), stmt, 0nat,
{
    if let IRStmt::Call { id, args } = stmt {
        if !s.callstack.contains(id) {
            let s1 = CState { callstack: s.callstack.push(id), ..s };
            if funcs.contains_key(id) && funcs[id].args@.len() == args@.len() {
                let s2 = push_spec(s1);
                lemma_push_layout(s1);
                lemma_args_layout(s2, funcs[id].args@, args@, args@.len());
                if let Some((s3, Ok(ops1))) = args_spec(s2, funcs[id].args@, args@, args@.len()) {
                    if open_count(funcs, s3.callstack) < open_count(funcs, s.callstack) {
                        lemma_stmts_layout(s3, funcs, funcs[id].code@);
                        if let Some((s4, Ok(ops2))) = stmts_spec(s3, funcs, funcs[id].code@) {
                            lemma_frame_trans(s2, s3, s4);
                            assert(s2.var_map.drop_last() =~= s.var_map);
                            let s5 = CState { max_usage: s4.max_usage, callstack: s4.callstack, ..s };
                            assert(pop_spec(s4) == Some(s5));
                            lemma_restored_layout(s, s5);
                            lemma_ops_within_mono(ops1, s3.max_usage as int, s4.max_usage as int);
                            lemma_ops_within_concat(ops1, ops2, s4.max_usage as int);
                        }
                    }
                }
            }
        }
    }
}

proof fn lemma_while_layout(s: CState, funcs: Map<usize, IRFunc>, stmt: IRStmt)
    requires
        stmt is While,
        layout_ok(s),
    ensures
        stmt_framed(s, stmt_spec(s, funcs, stmt)),
    decreases open_count(funcs, s.callstack), stmt, 0nat,
{
    if let IRStmt::While { condition, body } = stmt {
        lemma_alloc_noname_layout(s);
        if let Some((s1, cond_p)) = alloc_noname_spec(s) {
            lemma_expr_layout(s1, cond_p, condition);
            if let Some((s2, Ok(ops1))) = expr_spec(s1, cond_p, condition) {
                lemma_restored_layout(s1, s2);
                lemma_scoped_layout(s2, funcs, body@, s);
                if let Some((s3, Ok(body_ops))) = scoped_spec(s2, funcs, body@, s) {
                    lemma_restored_layout(s2, s3);
                    lemma_expr_layout(s3, cond_p, condition);
                    if let Some((s4, Ok(ops3))) = expr_spec(s3, cond_p, condition) {
                        let m = s4.max_usage as int;
                        let s5 = CState { max_usage: s4.max_usage, callstack: s4.callstack, ..s };
                        assert(free_spec(s4, cond_p) == Some(Ok::<CState, CompileError>(s5)));
                        lemma_restored_layout(s, s5);
                        lemma_ops_within_mono(ops1, s2.max_usage as int, m);
                        lemma_ops_within_mono(body_ops, s3.max_usage as int, m);
                        lemma_ops_within_concat(body_ops, ops3, m);
                        lemma_ops_within_push(ops1, OpView::Loop(cond_p, body_ops + ops3), m);
                    }
                }
            }
        }
    }
}

#[verifier::rlimit(40)]
proof fn lemma_if_layout(s: CState, funcs: Map<usize, IRFunc>, stmt: IRStmt)
    requires
        stmt is If,
        layout_ok(s),
    ensures
        stmt_framed(s, stmt_spec(s, funcs, stmt)),
    decreases open_count(funcs, s.callstack), stmt, 0nat,
{
    if let IRStmt::If { condition, body, else_body } = stmt {
        lemma_alloc_noname_layout(s);
        match else_body {
            Some(else_b) => {
                if let Some((s1, cond_p)) = alloc_noname_spec(s) {
                    lemma_alloc_noname_layout(s1);
                    if let Some((s2, else_p)) = alloc_noname_spec(s1) {
                        lemma_expr_layout(s2, cond_p, condition);
                        if let Some((s3, Ok(ops1))) = expr_spec(s2, cond_p, condition) {
                            lemma_restored_layout(s2, s3);
                            lemma_scoped_layout(s3, funcs, body@, s);
                            if let Some((s4, Ok(b))) = scoped_spec(s3, funcs, body@, s) {
                                lemma_restored_layout(s3, s4);
                                lemma_scoped_layout(s4, funcs, else_b@, s);
                                if let Some((s5, Ok(e))) = scoped_spec(s4, funcs, else_b@, s) {
                                    let m = s5.max_usage as int;
                                    let s6 = CState { max_usage: s5.max_usage, callstack: s5.callstack, ..s1 };
                                    let s7 = CState { max_usage: s5.max_usage, callstack: s5.callstack, ..s };
                                    assert(free_spec(s5, else_p) == Some(Ok::<CState, CompileError>(s6)));
                                    assert(free_spec(s6, cond_p) == Some(Ok::<CState, CompileError>(s7)));
                                    lemma_restored_layout(s, s7);
                                    let then_loop = OpView::Loop(
                                        cond_p,
                                        b.push(OpView::SetCell(cond_p, 0)).push(OpView::SetCell(else_p, 0)),
                                    );
                                    lemma_ops_within_mono(b, s4.max_usage as int, m);
                                    lemma_ops_within_push(b, OpView::SetCell(cond_p, 0), m);
                                    lemma_ops_within_push(b.push(OpView::SetCell(cond_p, 0)), OpView::SetCell(else_p, 0), m);
                                    lemma_ops_within_mono(ops1, s3.max_usage as int, m);
                                    lemma_ops_within_push(ops1, then_loop, m);
                                    lemma_seq1_within(OpView::SetCell(else_p, 1), m);
                                    lemma_ops_within_concat(seq![OpView::SetCell(else_p, 1)], ops1.push(then_loop), m);
                                    let head = seq![OpView::SetCell(else_p, 1)] + ops1.push(then_loop);
                                    lemma_ops_within_push(e, OpView::SetCell(else_p, 0), m);
                                    lemma_ops_within_push(head, OpView::Loop(else_p, e.push(OpView::SetCell(else_p, 0))), m);
                                }
                            }
                        }
                    }
                }
            },
            None => {
                if let Some((s1, cond_p)) = alloc_noname_spec(s) {
                    lemma_expr_layout(s1, cond_p, condition);
                    if let Some((s2, Ok(ops1))) = expr_spec(s1, cond_p, condition) {
                        lemma_restored_layout(s1, s2);
                        lemma_scoped_layout(s2, funcs, body@, s);
                        if let Some((s3, Ok(b))) = scoped_spec(s2, funcs, body@, s) {
                            let m = s3.max_usage as int;
                            let s4 = CState { max_usage: s3.max_usage, callstack: s3.callstack, ..s };
                            assert(free_spec(s3, cond_p) == Some(Ok::<CState, CompileError>(s4)));
                            lemma_restored_layout(s, s4);
                            lemma_ops_within_mono(ops1, s2.max_usage as int, m);
                            lemma_ops_within_push(b, OpView::SetCell(cond_p, 0), m);
                            lemma_ops_within_push(ops1, OpView::Loop(cond_p, b.push(OpView::SetCell(cond_p, 0))), m);
                        }
                    }
                }
            },
        }
    }
}

/// Compiling one statement from a consistent layout keeps it consistent and
/// framed, names only cells below the most ever used, and never frees out
/// of order.
pub proof fn lemma_stmt_layout(s: CState, funcs: Map<usize, IRFunc>, stmt: IRStmt)
    requires
        layout_ok(s),
    ensures
        stmt_framed(s, stmt_spec(s, funcs, stmt)),
    decreases open_count(funcs, s.callstack), stmt, 1nat,
{
    match stmt {
        IRStmt::Noop => {
            assert(frame(s, s));
        },
        IRStmt::VariableDefine { vars } => {
            lemma_vars_layout(s, vars@);
        },
        IRStmt::Assign { id, value } => {
            lemma_alloc_noname_layout(s);
            if let Some((s1, val_p)) = alloc_noname_spec(s) {
                lemma_expr_layout(s1, val_p, value);
                if let Some((s2, Ok(ops))) = expr_spec(s1, val_p, value) {
                    lemma_restored_layout(s1, s2);
                    lemma_get_below(s2, id);
                    if let Ok(ptr) = get_spec(s2, id) {
                        let m = s2.max_usage as int;
                        let s3 = CState { max_usage: s2.max_usage, ..s };
                        assert(free_spec(s2, val_p) == Some(Ok::<CState, CompileError>(s3)));
                        lemma_restored_layout(s, s3);
                        let mv = OpView::Move(val_p, seq![(ptr, 1i8)]);
                        assert(op_within(mv, m)) by {
                            assert(seq![(ptr, 1i8)][0].0 == ptr);
                        }
                        lemma_ops_within_push(ops, mv, m);
                    }
                }
            }
        },
        IRStmt::Call { .. } => {
            lemma_call_layout(s, funcs, stmt);
        },
        IRStmt::Out { val } => {
            lemma_alloc_noname_layout(s);
            if let Some((s1, val_p)) = alloc_noname_spec(s) {
                lemma_expr_layout(s1, val_p, val);
                if let Some((s2, Ok(ops))) = expr_spec(s1, val_p, val) {
                    let m = s2.max_usage as int;
                    let s3 = CState { max_usage: s2.max_usage, ..s };
                    assert(free_spec(s2, val_p) == Some(Ok::<CState, CompileError>(s3)));
                    lemma_restored_layout(s, s3);
                    lemma_ops_within_push(ops, OpView::Out(val_p), m);
                }
            }
        },
        IRStmt::While { .. } => {
            lemma_while_layout(s, funcs, stmt);
        },
        IRStmt::If { .. } => {
            lemma_if_layout(s, funcs, stmt);
        },
        IRStmt::Block { body } => {
            lemma_scoped_layout(s, funcs, body@, s);
            if let Some((s2, Ok(_))) = scoped_spec(s, funcs, body@, s) {
                lemma_restored_layout(s, s2);
            }
        },
    }
}

/// Reading a variable into a cell copies it through a fresh temporary cell:
/// when the temporary starts empty and the target is not the variable's own
/// cell, the code adds the variable's value into the target and leaves every
/// other cell, the variable and the temporary included, as it was.
pub proof fn lemma_copy_through_temp(s: CState, target: usize, id: usize, last_use: bool, t: spec_fn(int) -> int)
    requires
        layout_ok(s),
        target < s.usage,
        tape_ok(t),
        t(s.usage as int) == 0,
        get_spec(s, id) != Ok::<usize, CompileError>(target),
        expr_spec(s, target, IRExpr::Id { id, last_use }) matches Some((_, Ok(_))),
    ensures
        ({
            let ptr = get_spec(s, id)->Ok_0;
            let ops = expr_spec(s, target, IRExpr::Id { id, last_use })->Some_0.1->Ok_0;
            run(t, ops) == Some(with_cell(t, target as int, (t(target as int) + t(ptr as int)) % 256))
        }),
{
    let s0 = push_spec(s);
    lemma_push_layout(s);
    lemma_get_below(s0, id);
    let ptr = get_spec(s0, id)->Ok_0;
    assert(get_spec(s0, id) == get_spec(s, id)) by {
        assert(s0.var_map.drop_last() =~= s.var_map);
    }
    let tmp = s.usage;
    let d1 = seq![(tmp, 1i8)];
    let d2 = seq![(ptr, 1i8), (target, 1i8)];
    let ops = seq![OpView::Move(ptr, d1), OpView::Move(tmp, d2)];
    assert(expr_spec(s, target, IRExpr::Id { id, last_use })->Some_0.1->Ok_0 == ops);
    let v = t(ptr as int);
    // the first move empties the variable into the temporary
    assert(d1.drop_last() =~= Seq::<(usize, i8)>::empty());
    assert(ptr < tmp);
    assert(0 <= v < 256);
    assert(moves_effect(t, Seq::<(usize, i8)>::empty(), v) == t);
    let m1 = moves_effect(t, d1, v);
    assert(m1 == with_cell(t, tmp as int, (t(tmp as int) + 1 * v) % 256));
    let t1 = with_cell(m1, ptr as int, 0);
    assert(run(t, Seq::<OpView>::empty()) == Some(t));
    assert(forall|j: int| 0 <= j < d1.len() ==> d1[j].0 != ptr);
    assert(run(t, seq![OpView::Move(ptr, d1)]) == Some(t1)) by {
        assert(seq![OpView::Move(ptr, d1)].drop_last() =~= Seq::<OpView>::empty());
    }
    assert(t1(tmp as int) == v);
    // the second empties the temporary back into the variable and into the target
    assert(forall|j: int| 0 <= j < d2.len() ==> d2[j].0 != tmp);
    assert(d2.drop_last() =~= seq![(ptr, 1i8)]);
    assert(seq![(ptr, 1i8)].drop_last() =~= Seq::<(usize, i8)>::empty());
    assert(moves_effect(t1, Seq::<(usize, i8)>::empty(), v) == t1);
    let m2a = moves_effect(t1, seq![(ptr, 1i8)], v);
    assert(m2a == with_cell(t1, ptr as int, (t1(ptr as int) + 1 * v) % 256));
    let m2 = moves_effect(t1, d2, v);
    assert(m2 == with_cell(m2a, target as int, (m2a(target as int) + 1 * v) % 256));
    let t2 = with_cell(m2, tmp as int, 0);
    assert(ops.drop_last() =~= seq![OpView::Move(ptr, d1)]);
    assert(run(t, ops) == Some(t2));
    let expected = with_cell(t, target as int, (t(target as int) + v) % 256);
    assert(t2 =~= expected) by {
        assert forall|i: int| #[trigger] t2(i) == expected(i) by {
            assert(0 <= t(i) < 256);
            assert(0 <= v < 256);
        }
    }
}

/// The value of an expression on the tape `t`, before wrapping around at
/// 256, its variables standing in the cells the bookkeeping gives them.
pub open spec fn expr_value(s: CState, e: IRExpr, t: spec_fn(int) -> int) -> int
    decreases e,
{
    match e {
        IRExpr::Const(c) => c as int,
        IRExpr::Add(l, r) => expr_value(s, *l, t) + expr_value(s, *r, t),
        IRExpr::Sub(l, r) => expr_value(s, *l, t) - expr_value(s, *r, t),
        IRExpr::Id { id, .. } => match get_spec(s, id) {
            Ok(p) => t(p as int),
            Err(_) => 0,
        },
        _ => 0,
    }
}

/// The expression reads no variable that stands in cell `c`.
pub open spec fn reads_not(s: CState, e: IRExpr, c: usize) -> bool
    decreases e,
{
    match e {
        IRExpr::Add(l, r) => reads_not(s, *l, c) && reads_not(s, *r, c),
        IRExpr::Sub(l, r) => reads_not(s, *l, c) && reads_not(s, *r, c),
        IRExpr::Id { id, .. } => get_spec(s, id) != Ok::<usize, CompileError>(c),
        _ => true,
    }
}

/// Bookkeeping that names the same cells reads and values an expression
/// alike.
pub proof fn lemma_same_names(s: CState, s2: CState, e: IRExpr, c: usize, t: spec_fn(int) -> int)
    requires
        forall|id: usize| #[trigger] get_spec(s, id) == get_spec(s2, id),
    ensures
        reads_not(s, e, c) == reads_not(s2, e, c),
        expr_value(s, e, t) == expr_value(s2, e, t),
    decreases e,
{
    match e {
        IRExpr::Add(l, r) => {
            lemma_same_names(s, s2, *l, c, t);
            lemma_same_names(s, s2, *r, c, t);
        },
        IRExpr::Sub(l, r) => {
            lemma_same_names(s, s2, *l, c, t);
            lemma_same_names(s, s2, *r, c, t);
        },
        IRExpr::Id { id, .. } => {
            assert(get_spec(s, id) == get_spec(s2, id));
        },
        _ => {},
    }
}

/// An expression reads no cell at or above the cells in use.
pub proof fn lemma_reads_below(s: CState, e: IRExpr, c: usize)
    requires
        layout_ok(s),
        c >= s.usage,
    ensures
        reads_not(s, e, c),
    decreases e,
{
    match e {
        IRExpr::Add(l, r) => {
            lemma_reads_below(s, *l, c);
            lemma_reads_below(s, *r, c);
        },
        IRExpr::Sub(l, r) => {
            lemma_reads_below(s, *l, c);
            lemma_reads_below(s, *r, c);
        },
        IRExpr::Id { id, .. } => {
            lemma_get_below(s, id);
        },
        _ => {},
    }
}

/// Changing a cell the expression does not read leaves its value.
pub proof fn lemma_value_with_cell(s: CState, e: IRExpr, t: spec_fn(int) -> int, c: usize, v: int)
    requires
        reads_not(s, e, c),
    ensures
        expr_value(s, e, with_cell(t, c as int, v)) == expr_value(s, e, t),
    decreases e,
{
    match e {
        IRExpr::Add(l, r) => {
            lemma_value_with_cell(s, *l, t, c, v);
            lemma_value_with_cell(s, *r, t, c, v);
        },
        IRExpr::Sub(l, r) => {
            lemma_value_with_cell(s, *l, t, c, v);
            lemma_value_with_cell(s, *r, t, c, v);
        },
        _ => {},
    }
}

/// Running operations one block after another.
pub proof fn lemma_run_concat(t: spec_fn(int) -> int, a: Seq<OpView>, b: Seq<OpView>)
    ensures
        run(t, a + b) == (match run(t, a) {
            Some(t1) => run(t1, b),
            None => None,
        }),
    decreases b.len(),
{
    if b.len() == 0 {
        assert(a + b =~= a);
    } else {
        lemma_run_concat(t, a, b.drop_last());
        assert((a + b).drop_last() =~= a + b.drop_last());
        assert((a + b).last() == b.last());
    }
}

/// Compiled expression code computes the expression: run on a tape whose
/// target cell and every cell not in use hold 0, where the expression
/// reads no variable standing in the target, it leaves the expression's
/// value, wrapped around at 256, in the target and every other cell as it
/// was.
pub proof fn lemma_expr_computes(s: CState, target: usize, e: IRExpr, t: spec_fn(int) -> int)
    requires
        layout_ok(s),
        target < s.usage,
        tape_ok(t),
        t(target as int) == 0,
        forall|i: int| i >= s.usage ==> #[trigger] t(i) == 0,
        reads_not(s, e, target),
        expr_spec(s, target, e) matches Some((_, Ok(_))),
    ensures
        run(t, expr_spec(s, target, e)->Some_0.1->Ok_0) == Some(
            with_cell(t, target as int, expr_value(s, e, t) % 256),
        ),
    decreases e,
{
    let s0 = push_spec(s);
    lemma_push_layout(s);
    assert forall|id: usize| #[trigger] get_spec(s, id) == get_spec(s0, id) by {
        assert(s0.var_map.drop_last() =~= s.var_map);
    }
    match e {
        IRExpr::Const(c) => {
            let ops = seq![OpView::SetCell(target, c)];
            assert(ops.drop_last() =~= Seq::<OpView>::empty());
            assert(run(t, ops.drop_last()) == Some(t));
            assert(expr_spec(s, target, e)->Some_0.1->Ok_0 == ops);
        },
        IRExpr::Id { id, last_use } => {
            lemma_copy_through_temp(s, target, id, last_use, t);
            assert(t(s.usage as int) == 0);
            let expected = with_cell(t, target as int, expr_value(s, e, t) % 256);
            let ptr = get_spec(s, id)->Ok_0;
            assert(with_cell(t, target as int, (t(target as int) + t(ptr as int)) % 256) =~= expected) by {
                lemma_get_below(s, id);
                assert(0 <= t(ptr as int) < 256);
            }
        },
        IRExpr::Add(l, r) | IRExpr::Sub(l, r) => {
            lemma_add_sub_computes(s, target, e, t);
        },
        _ => {},
    }
}

/// The sum or difference case of `lemma_expr_computes`.
proof fn lemma_add_sub_computes(s: CState, target: usize, e: IRExpr, t: spec_fn(int) -> int)
    requires
        e is Add || e is Sub,
        layout_ok(s),
        target < s.usage,
        tape_ok(t),
        t(target as int) == 0,
        forall|i: int| i >= s.usage ==> #[trigger] t(i) == 0,
        reads_not(s, e, target),
        expr_spec(s, target, e) matches Some((_, Ok(_))),
    ensures
        run(t, expr_spec(s, target, e)->Some_0.1->Ok_0) == Some(
            with_cell(t, target as int, expr_value(s, e, t) % 256),
        ),
    decreases e, 0nat,
{
    let (l, r) = match e {
        IRExpr::Add(l, r) => (*l, *r),
        IRExpr::Sub(l, r) => (*l, *r),
        _ => (e, e),
    };
    let factor: i8 = if e is Add { 1i8 } else { -1i8 };
    let s0 = push_spec(s);
    lemma_push_layout(s);
    assert forall|id: usize| #[trigger] get_spec(s, id) == get_spec(s0, id) by {
        assert(s0.var_map.drop_last() =~= s.var_map);
    }
    lemma_same_names(s, s0, l, target, t);
    lemma_expr_layout(s0, target, l);
    let (s1, ops1) = match expr_spec(s0, target, l) {
        Some((s1, Ok(ops1))) => (s1, ops1),
        _ => (s0, Seq::empty()),
    };
    let (s2, rp) = alloc_noname_spec(s1).unwrap();
    lemma_alloc_noname_layout(s1);
    let (s3, ops2) = match expr_spec(s2, rp, r) {
        Some((s3, Ok(ops2))) => (s3, ops2),
        _ => (s2, Seq::empty()),
    };
    let ops = ops1 + ops2 + seq![OpView::Move(rp, seq![(target, factor)])];
    assert(expr_spec(s, target, e)->Some_0.1->Ok_0 == ops);
    // the left side into the target
    lemma_expr_computes(s0, target, l, t);
    lemma_same_names(s, s0, l, target, t);
    let vl = expr_value(s, l, t);
    let t1 = with_cell(t, target as int, vl % 256);
    // the right side into the fresh cell
    assert(rp == s.usage);
    assert forall|id: usize| #[trigger] get_spec(s, id) == get_spec(s2, id) by {
        assert(s2.var_map == s0.var_map);
    }
    lemma_same_names(s, s2, r, target, t);
    lemma_same_names(s, s2, r, rp, t1);
    lemma_same_names(s, s2, r, rp, t);
    lemma_reads_below(s, r, rp);
    assert(tape_ok(t1)) by {
        assert forall|i: int| 0 <= #[trigger] t1(i) < 256 by {
            assert(0 <= t(i) < 256);
        }
    }
    assert forall|i: int| i >= s2.usage implies #[trigger] t1(i) == 0 by {
        assert(t(i) == 0);
    }
    lemma_expr_computes(s2, rp, r, t1);
    lemma_value_with_cell(s, r, t, target, vl % 256);
    let vr = expr_value(s, r, t);
    let t2 = with_cell(t1, rp as int, vr % 256);
    // the fresh cell moved into the target
    lemma_run_concat(t, ops1, ops2);
    lemma_run_concat(t, ops1 + ops2, seq![OpView::Move(rp, seq![(target, factor)])]);
    let mv = seq![OpView::Move(rp, seq![(target, factor)])];
    assert(mv.drop_last() =~= Seq::<OpView>::empty());
    let d = seq![(target, factor)];
    assert(d.drop_last() =~= Seq::<(usize, i8)>::empty());
    assert(moves_effect(t2, Seq::<(usize, i8)>::empty(), t2(rp as int)) == t2);
    let t3 = with_cell(with_cell(t2, target as int, (t2(target as int) + factor * t2(rp as int)) % 256), rp as int, 0);
    assert(run(t, ops1) == Some(t1));
    assert(expr_value(s2, r, t1) == vr);
    assert(run(t1, ops2) == Some(t2));
    assert(target != rp);
    assert(run(t2, mv) == Some(t3)) by {
        assert(run(t2, mv.drop_last()) == Some(t2));
        assert(mv.last() == OpView::Move(rp, d));
        assert(forall|j: int| 0 <= j < d.len() ==> d[j].0 != rp);
        assert(moves_effect(t2, d, t2(rp as int)) == with_cell(t2, target as int, (t2(target as int) + factor * t2(rp as int)) % 256));
    }
    assert(run(t, ops) == Some(t3));
    if e is Add {
        lemma_add_mod_noop(vl, vr, 256);
        assert(expr_value(s, e, t) == vl + vr);
    } else {
        lemma_sub_mod_noop(vl, vr, 256);
        assert(expr_value(s, e, t) == vl - vr);
    }
    assert(t3 =~= with_cell(t, target as int, expr_value(s, e, t) % 256));
}

} // verus!
