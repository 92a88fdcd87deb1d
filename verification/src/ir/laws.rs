use vstd::prelude::*;

use crate::ir::ast::{
    JsAssignOp, JsBinaryOp, JsDeclaration, JsExpr, JsForInit, JsFunction, JsItem, JsLiteral, JsParam, JsStmt,
    JsUnaryOp, JsUpdateOp, JsVarDecl,
};
use crate::ir::ctx::{IRError, PState};
use crate::ir::ir::{ExprView, FuncView, StmtView, VarInitView};
use crate::ir::lower::{
    binary_view, block_lower, expr_lower, expr_stmt_lower, exprs_lower, for_init_lower, item_lower, lexical_lower,
    params_lower, ret_target, stmt_lower, top_items_lower, var_decls_lower,
};

verus! {

/// A `for` loop with an initializer lowers to a block of two statements:
/// first the initializer, lowered on its own, whatever kind it is, then the
/// `while` loop.
pub proof fn lemma_for_init_runs_first(
    input: Option<usize>,
    st: PState,
    init: JsForInit,
    condition: Option<JsExpr>,
    final_expr: Option<JsExpr>,
    body: Box<JsStmt>,
)
    ensures
        stmt_lower(input, st, JsStmt::ForLoop { init: Some(init), condition, final_expr, body }) matches Some(
            (_, Ok(v)),
        ) ==> (for_init_lower(input, init) matches Some(Ok(w)) && v matches StmtView::Block { body: b } && b.len()
            == 2 && b[0] == w && b[1] is While),
{
}

/// A `for` loop without an initializer lowers to a block of the `while`
/// loop alone.
pub proof fn lemma_for_without_init(
    input: Option<usize>,
    st: PState,
    condition: Option<JsExpr>,
    final_expr: Option<JsExpr>,
    body: Box<JsStmt>,
)
    ensures
        stmt_lower(input, st, JsStmt::ForLoop { init: None, condition, final_expr, body }) matches Some(
            (_, Ok(v)),
        ) ==> (v matches StmtView::Block { body: b } && b.len() == 1 && b[0] is While),
{
}

/// The variables a `let` or `const` declaration defines, in order: each
/// binding that is a plain name and is not initialized with an array
/// literal, with whether it has an initializer.
pub open spec fn declared(vars: Seq<JsVarDecl>) -> Seq<(usize, bool)>
    decreases vars.len(),
{
    if vars.len() == 0 {
        Seq::empty()
    } else {
        let rest = declared(vars.drop_last());
        match vars.last().binding {
            Some(id) => match vars.last().init {
                Some(JsExpr::ArrayLiteral) => rest,
                Some(_) => rest.push((id, true)),
                None => rest.push((id, false)),
            },
            None => rest,
        }
    }
}

/// The name of a lowered variable and whether it has an initializer.
pub open spec fn var_shape(v: VarInitView) -> (usize, bool) {
    (v.id, v.init is Some)
}

/// Lowering a `let` or `const` declaration defines exactly the declared
/// variables, in order, each with an initializer exactly when the source
/// gives one.
pub proof fn lemma_lexical_defines_declared(input: Option<usize>, st: PState, vars: Seq<JsVarDecl>)
    ensures
        lexical_lower(input, st, vars) matches Some((_, Ok(vs))) ==> vs.map_values(|v: VarInitView| var_shape(v))
            == declared(vars),
    decreases vars.len(),
{
    if vars.len() > 0 {
        lemma_lexical_defines_declared(input, st, vars.drop_last());
        if let Some((_, Ok(vs))) = lexical_lower(input, st, vars) {
            let (_, r) = lexical_lower(input, st, vars.drop_last()).unwrap();
            let vs1 = r.unwrap();
            if vs.len() == vs1.len() + 1 {
                assert(vs =~= vs1.push(vs.last()));
                assert(vs.map_values(|v: VarInitView| var_shape(v)) =~= vs1.map_values(
                    |v: VarInitView| var_shape(v),
                ).push(var_shape(vs.last())));
            }
        }
    } else {
        assert(Seq::<VarInitView>::empty().map_values(|v: VarInitView| var_shape(v)) =~= Seq::<(usize, bool)>::empty());
    }
}

/// The value of an arithmetic or logical expression, variables read from
/// `env`: a comparison is 1 when it holds and 0 otherwise, logical
/// negation is 1 exactly of 0; calls, input and memory are not described.
pub open spec fn view_value(e: ExprView, env: spec_fn(usize) -> int) -> int
    decreases e,
{
    match e {
        ExprView::Const(c) => c as int,
        ExprView::Add(l, r) => view_value(*l, env) + view_value(*r, env),
        ExprView::Sub(l, r) => view_value(*l, env) - view_value(*r, env),
        ExprView::Mul(l, r) => view_value(*l, env) * view_value(*r, env),
        ExprView::Id { id, .. } => env(id),
        ExprView::Gt(l, r) => if view_value(*l, env) > view_value(*r, env) {
            1
        } else {
            0
        },
        ExprView::BoolNot(x) => if view_value(*x, env) == 0 {
            1
        } else {
            0
        },
        _ => 0,
    }
}

/// Whether the comparison `op` holds of `a` and `b`, as in the source;
/// the strict and the loose (in)equalities agree on numbers.
pub open spec fn compares(op: JsBinaryOp, a: int, b: int) -> bool {
    match op {
        JsBinaryOp::Equal | JsBinaryOp::StrictEqual => a == b,
        JsBinaryOp::NotEqual | JsBinaryOp::StrictNotEqual => a != b,
        JsBinaryOp::GreaterThan => a > b,
        JsBinaryOp::LessThan => a < b,
        JsBinaryOp::GreaterThanOrEqual => a >= b,
        JsBinaryOp::LessThanOrEqual => a <= b,
        _ => false,
    }
}

/// Lowering a comparison keeps its meaning: the lowered expression is not
/// zero exactly when the comparison holds of the operands' values,
/// whatever the operands and the variables' values.
pub proof fn lemma_comparison_meaning(op: JsBinaryOp, l: ExprView, r: ExprView, env: spec_fn(usize) -> int)
    requires
        is_comparison(op),
    ensures
        binary_view(op, l, r) matches Ok(e) && (view_value(e, env) != 0 <==> compares(
            op,
            view_value(l, env),
            view_value(r, env),
        )),
{
    reveal_with_fuel(view_value, 3);
}

/// Lowering a sum, a difference or a product keeps its value.
pub proof fn lemma_arithmetic_meaning(op: JsBinaryOp, l: ExprView, r: ExprView, env: spec_fn(usize) -> int)
    requires
        op is Add || op is Sub || op is Mul,
    ensures
        binary_view(op, l, r) matches Ok(e) && view_value(e, env) == (match op {
            JsBinaryOp::Add => view_value(l, env) + view_value(r, env),
            JsBinaryOp::Sub => view_value(l, env) - view_value(r, env),
            _ => view_value(l, env) * view_value(r, env),
        }),
{
}

/// Whether `op` compares its operands.
pub open spec fn is_comparison(op: JsBinaryOp) -> bool {
    op is Equal || op is StrictEqual || op is NotEqual || op is StrictNotEqual || op is GreaterThan || op is LessThan
        || op is GreaterThanOrEqual || op is LessThanOrEqual
}

/// A binary expression lowers to one whose meaning is its operator
/// applied to the meanings of its lowered operands, the left one first.
pub proof fn lemma_binary_expr_meaning(
    input: Option<usize>,
    op: JsBinaryOp,
    lhs: JsExpr,
    rhs: JsExpr,
    env: spec_fn(usize) -> int,
)
    ensures
        expr_lower(input, JsExpr::Binary { op, lhs: Box::new(lhs), rhs: Box::new(rhs) }) matches Some(Ok(e)) ==> (
        expr_lower(input, lhs) matches Some(Ok(l)) && expr_lower(input, rhs) matches Some(Ok(r)) && (is_comparison(op)
            ==> (view_value(e, env) != 0 <==> compares(op, view_value(l, env), view_value(r, env)))) && (op is Add
            ==> view_value(e, env) == view_value(l, env) + view_value(r, env)) && (op is Sub ==> view_value(e, env)
            == view_value(l, env) - view_value(r, env)) && (op is Mul ==> view_value(e, env) == view_value(l, env)
            * view_value(r, env))),
{
    if let Some(Ok(e)) = expr_lower(input, JsExpr::Binary { op, lhs: Box::new(lhs), rhs: Box::new(rhs) }) {
        let l = expr_lower(input, lhs).unwrap().unwrap();
        let r = expr_lower(input, rhs).unwrap().unwrap();
        if is_comparison(op) {
            lemma_comparison_meaning(op, l, r, env);
        }
        if op is Add || op is Sub || op is Mul {
            lemma_arithmetic_meaning(op, l, r, env);
        }
    }
}

/// A unary expression lowers to one whose meaning is its operator applied
/// to the meaning of its lowered operand: plus keeps it, minus negates it,
/// not is 1 exactly of 0.
pub proof fn lemma_unary_expr_meaning(input: Option<usize>, op: JsUnaryOp, operand: JsExpr, env: spec_fn(usize) -> int)
    ensures
        expr_lower(input, JsExpr::Unary { op, operand: Box::new(operand) }) matches Some(Ok(e)) ==> (expr_lower(
            input,
            operand,
        ) matches Some(Ok(x)) && (op is Plus ==> view_value(e, env) == view_value(x, env)) && (op is Minus
            ==> view_value(e, env) == -view_value(x, env)) && (op is Not ==> view_value(e, env) == (if view_value(
            x,
            env,
        ) == 0 {
            1int
        } else {
            0int
        }))),
{
    reveal_with_fuel(view_value, 3);
}

/// An assignment lowers to an assignment of the same variable whose value
/// means the right side for `=`, and the variable's value combined with the
/// right side for `+=`, `-=` and `*=`.
pub proof fn lemma_assign_meaning(
    input: Option<usize>,
    op: JsAssignOp,
    id: usize,
    rhs: JsExpr,
    env: spec_fn(usize) -> int,
)
    ensures
        expr_stmt_lower(input, JsExpr::Assign { op, target: Some(id), rhs: Box::new(rhs) }) matches Some(Ok(v)) ==> (
        expr_lower(input, rhs) matches Some(Ok(r)) && v matches StmtView::Assign { id: x, value } && x == id && (op is Assign
            ==> view_value(value, env) == view_value(r, env)) && (op is Add ==> view_value(value, env) == env(id)
            + view_value(r, env)) && (op is Sub ==> view_value(value, env) == env(id) - view_value(r, env)) && (op is Mul
            ==> view_value(value, env) == env(id) * view_value(r, env))),
{
    reveal_with_fuel(view_value, 2);
}

/// An increment or a decrement lowers to an assignment of the same
/// variable whose value means the variable's value plus or minus one.
pub proof fn lemma_update_meaning(op: JsUpdateOp, id: usize, input: Option<usize>, env: spec_fn(usize) -> int)
    ensures
        expr_stmt_lower(input, JsExpr::Update { op, target: Some(id) }) matches Some(Ok(StmtView::Assign { id: x, value }))
            && x == id && view_value(value, env) == (if op is IncrementPost || op is IncrementPre {
            env(id) + 1
        } else {
            env(id) - 1
        }),
{
    reveal_with_fuel(view_value, 2);
}

/// A list of expressions lowers element by element, in order.
pub proof fn lemma_exprs_in_order(input: Option<usize>, es: Seq<JsExpr>)
    ensures
        exprs_lower(input, es) matches Some(Ok(vs)) ==> vs.len() == es.len() && forall|i: int|
            0 <= i < es.len() ==> #[trigger] expr_lower(input, es[i]) == Some(Ok::<ExprView, IRError>(vs[i])),
    decreases es.len(),
{
    if es.len() > 0 {
        lemma_exprs_in_order(input, es.drop_last());
        if let Some(Ok(vs)) = exprs_lower(input, es) {
            let vs1 = exprs_lower(input, es.drop_last()).unwrap().unwrap();
            assert forall|i: int| 0 <= i < es.len() implies #[trigger] expr_lower(input, es[i]) == Some(
                Ok::<ExprView, IRError>(vs[i]),
            ) by {
                if i < es.len() - 1 {
                    assert(es[i] == es.drop_last()[i]);
                    assert(expr_lower(input, es.drop_last()[i]) == Some(Ok::<ExprView, IRError>(vs1[i])));
                }
            }
        }
    }
}

/// The variables a `var` declaration defines, in order: each with whether
/// it has an initializer.
pub open spec fn var_declared(vars: Seq<JsVarDecl>) -> Seq<(usize, bool)>
    decreases vars.len(),
{
    if vars.len() == 0 {
        Seq::empty()
    } else {
        match vars.last().binding {
            Some(id) => var_declared(vars.drop_last()).push((id, vars.last().init is Some)),
            None => var_declared(vars.drop_last()),
        }
    }
}

/// Lowering a `var` declaration defines exactly its variables, in order,
/// each with an initializer exactly when the source gives one.
pub proof fn lemma_var_defines_declared(input: Option<usize>, vars: Seq<JsVarDecl>)
    ensures
        var_decls_lower(input, vars) matches Some(Ok(vs)) ==> vs.map_values(|v: VarInitView| var_shape(v)) == var_declared(
            vars,
        ),
    decreases vars.len(),
{
    if vars.len() > 0 {
        lemma_var_defines_declared(input, vars.drop_last());
        if let Some(Ok(vs)) = var_decls_lower(input, vars) {
            let vs1 = var_decls_lower(input, vars.drop_last()).unwrap().unwrap();
            assert(vs =~= vs1.push(vs.last()));
            assert(vs.map_values(|v: VarInitView| var_shape(v)) =~= vs1.map_values(|v: VarInitView| var_shape(v)).push(
                var_shape(vs.last()),
            ));
        }
    } else {
        assert(Seq::<VarInitView>::empty().map_values(|v: VarInitView| var_shape(v)) =~= Seq::<(usize, bool)>::empty());
    }
}

/// A `while` loop lowers to a loop that tests its lowered condition and
/// runs its lowered body.
pub proof fn lemma_while_lowers(input: Option<usize>, st: PState, cond: JsExpr, body: Box<JsStmt>)
    ensures
        stmt_lower(input, st, JsStmt::WhileLoop { cond, body }) matches Some((st2, Ok(v))) ==> (expr_lower(input, cond)
            matches Some(Ok(c)) && block_lower(input, st, *body) == Some((st2, Ok::<Seq<StmtView>, IRError>(v->While_body)))
            && v == StmtView::While { condition: c, body: v->While_body }),
{
}

/// A conditional lowers to one that tests its lowered condition, runs its
/// lowered body, and has an else branch exactly when the source does, its
/// lowered else branch.
pub proof fn lemma_if_lowers(
    input: Option<usize>,
    st: PState,
    cond: JsExpr,
    body: Box<JsStmt>,
    else_node: Option<Box<JsStmt>>,
)
    ensures
        stmt_lower(input, st, JsStmt::If { cond, body, else_node }) matches Some((_, Ok(v))) ==> (expr_lower(input, cond)
            matches Some(Ok(c)) && v matches StmtView::If { condition, body: b, else_body: eb } && condition == c && (
        block_lower(input, st, *body) matches Some((st1, Ok(b1))) && b1 == b && (else_node is None <==> eb is None) && (
        else_node matches Some(en) ==> (block_lower(input, st1, *en) matches Some((_, Ok(e1))) && eb == Some(e1))))),
{
}

/// The parameters of a function lower to their names, in order.
pub proof fn lemma_params_in_order(ps: Seq<JsParam>)
    ensures
        params_lower(ps) matches Ok(ids) ==> ids.len() == ps.len() && forall|i: int|
            0 <= i < ps.len() ==> #[trigger] ps[i].binding == Some(ids[i]),
    decreases ps.len(),
{
    if ps.len() > 0 {
        lemma_params_in_order(ps.drop_last());
        if let Ok(ids) = params_lower(ps) {
            let ids1 = params_lower(ps.drop_last()).unwrap();
            assert forall|i: int| 0 <= i < ps.len() implies #[trigger] ps[i].binding == Some(ids[i]) by {
                if i < ps.len() - 1 {
                    assert(ps[i] == ps.drop_last()[i]);
                }
            }
        }
    }
}

/// A function declaration enters the function under its name, with its
/// parameters' names in order as arguments, and as result the lowered
/// value of the `return` that ends its body, if one does.
pub proof fn lemma_function_entered(input: Option<usize>, st: PState, f: JsFunction)
    ensures
        item_lower(input, st, JsItem::Declaration(JsDeclaration::Function(f))) matches Some((st2, Ok(_))) ==> (
        st.funcs matches Some(m) && st2.funcs matches Some(m2) && m2.dom() == m.dom().insert(f.name) && (forall|k: usize|
            k != f.name && #[trigger] m.dom().contains(k) ==> m2[k] == m[k]) && m2[f.name].args.len() == f.params@.len()
            && (forall|i: int| 0 <= i < f.params@.len() ==> #[trigger] f.params@[i].binding == Some(m2[f.name].args[i]))
            && (ret_target(f.body@) is None <==> m2[f.name].result is None) && (ret_target(f.body@) matches Some(r)
            ==> expr_lower(input, r) == Some(Ok::<ExprView, IRError>(m2[f.name].result->Some_0)))),
{
    lemma_params_in_order(f.params@);
}

/// A `for` loop lowers to a block ending in a `while` loop that tests the
/// lowered condition, or a constant 1 where there is none, and runs the
/// lowered body followed by the lowered update, if any.
pub proof fn lemma_for_loop_shape(
    input: Option<usize>,
    st: PState,
    init: Option<JsForInit>,
    condition: Option<JsExpr>,
    final_expr: Option<JsExpr>,
    body: Box<JsStmt>,
)
    ensures
        stmt_lower(input, st, JsStmt::ForLoop { init, condition, final_expr, body }) matches Some((_, Ok(v))) ==> (
        v matches StmtView::Block { body: bs } && bs.len() == (if init is Some {
            2int
        } else {
            1int
        }) && (bs.last() matches StmtView::While { condition: c, body: wb } && (condition matches Some(ce)
            ==> expr_lower(input, ce) == Some(Ok::<ExprView, IRError>(c))) && (condition is None ==> c == ExprView::Const(
            1i8,
        )) && (block_lower(input, st, *body) matches Some((_, Ok(b))) && (final_expr matches Some(u) ==> (
        expr_stmt_lower(input, u) matches Some(Ok(us)) && wb == b.push(us))) && (final_expr is None ==> wb == b)))),
{
    if let Some((_, Ok(v))) = stmt_lower(input, st, JsStmt::ForLoop { init, condition, final_expr, body }) {
        let b = block_lower(input, st, *body).unwrap().1.unwrap();
        if let Some(u) = final_expr {
            let us = expr_stmt_lower(input, u).unwrap().unwrap();
            assert(b + seq![us] =~= b.push(us));
        } else {
            assert(b + Seq::<StmtView>::empty() =~= b);
        }
    }
}

/// The names a `let` or `const` declaration records as arrays, in order:
/// each plain-name binding initialized with an array literal.
pub open spec fn declared_arrays(vars: Seq<JsVarDecl>) -> Seq<usize>
    decreases vars.len(),
{
    if vars.len() == 0 {
        Seq::empty()
    } else {
        let rest = declared_arrays(vars.drop_last());
        match vars.last().binding {
            Some(id) => match vars.last().init {
                Some(JsExpr::ArrayLiteral) => rest.push(id),
                _ => rest,
            },
            None => rest,
        }
    }
}

/// Lowering a `let` or `const` declaration records exactly the arrays it
/// declares, in order, after those already recorded.
pub proof fn lemma_lexical_records_arrays(input: Option<usize>, st: PState, vars: Seq<JsVarDecl>)
    ensures
        lexical_lower(input, st, vars) matches Some((st2, Ok(_))) ==> st2.arrays == st.arrays + declared_arrays(vars)
            && st2.funcs == st.funcs,
    decreases vars.len(),
{
    if vars.len() > 0 {
        lemma_lexical_records_arrays(input, st, vars.drop_last());
        if let Some((st2, Ok(_))) = lexical_lower(input, st, vars) {
            let st1 = lexical_lower(input, st, vars.drop_last()).unwrap().0;
            let rest = declared_arrays(vars.drop_last());
            assert(st.arrays + rest.push(vars.last().binding->Some_0) =~= (st.arrays + rest).push(
                vars.last().binding->Some_0,
            ));
        }
    } else {
        assert(st.arrays + Seq::<usize>::empty() =~= st.arrays);
    }
}

/// How many statements a script holds at its top level.
pub open spec fn statement_count(items: Seq<JsItem>) -> nat
    decreases items.len(),
{
    if items.len() == 0 {
        0
    } else {
        statement_count(items.drop_last()) + (if items.last() is Statement {
            1nat
        } else {
            0nat
        })
    }
}

/// The names of the functions a script declares at its top level.
pub open spec fn function_names(items: Seq<JsItem>) -> Set<usize>
    decreases items.len(),
{
    if items.len() == 0 {
        Set::empty()
    } else {
        match items.last() {
            JsItem::Declaration(JsDeclaration::Function(f)) => function_names(items.drop_last()).insert(f.name),
            _ => function_names(items.drop_last()),
        }
    }
}

/// A script that lowers has one main statement per top-level statement,
/// in order, declares at its top level only functions, and its function
/// table holds exactly the functions it declares.
pub proof fn lemma_script_shape(input: Option<usize>, items: Seq<JsItem>)
    ensures
        top_items_lower(input, items) matches Some((_, m, Ok(main))) ==> main.len() == statement_count(items)
            && m.dom() == function_names(items) && forall|i: int|
            0 <= i < items.len() ==> (#[trigger] items[i] matches JsItem::Declaration(d) ==> d is Function),
    decreases items.len(),
{
    if items.len() == 0 {
        assert(Map::<usize, FuncView>::empty().dom() =~= Set::<usize>::empty());
    } else {
        lemma_script_shape(input, items.drop_last());
        if let Some((_, m, Ok(main))) = top_items_lower(input, items) {
            let (a, m0, r0) = top_items_lower(input, items.drop_last()).unwrap();
            assert forall|i: int| 0 <= i < items.len() implies (#[trigger] items[i] matches JsItem::Declaration(d)
                ==> d is Function) by {
                if i < items.len() - 1 {
                    assert(items[i] == items.drop_last()[i]);
                }
            }
            if let JsItem::Declaration(JsDeclaration::Function(f)) = items.last() {
                assert(m.dom() =~= m0.dom().insert(f.name));
            }
        }
    }
}

/// An integer literal that fits in a cell means its own value, one that
/// does not is refused; a name means the variable's value.
pub proof fn lemma_leaf_meaning(input: Option<usize>, n: i32, id: usize, env: spec_fn(usize) -> int)
    ensures
        -128 <= n <= 127 ==> (expr_lower(input, JsExpr::Literal(JsLiteral::Int(n))) matches Some(Ok(e)) && view_value(
            e,
            env,
        ) == n),
        !(-128 <= n <= 127) ==> expr_lower(input, JsExpr::Literal(JsLiteral::Int(n))) == Some(
            Err::<ExprView, IRError>(IRError::IntOutOfRange),
        ),
        expr_lower(input, JsExpr::Identifier(id)) matches Some(Ok(e)) && view_value(e, env) == env(id),
{
}

} // verus!
