use vstd::prelude::*;

use crate::ir::ast::{
    JsAssignOp, JsBinaryOp, JsDeclaration, JsExpr, JsForInit, JsFunction, JsItem, JsLiteral, JsParam, JsStmt, JsUnaryOp,
    JsUpdateOp, JsVarDecl,
};
use crate::ir::ctx::{IRError, PState};
use crate::ir::ir::{ExprView, FuncView, StmtView, VarInitView};

verus! {

/// What lowering a piece of the source gives, with the gathered state
/// afterwards; `None` where the name `input` must be looked up and the
/// source never interned it.
pub type Lowered<T> = Option<(PState, Result<T, IRError>)>;

/// A literal: `true` is 1, `false` is 2, an integer is itself when it fits
/// in a cell value.
pub open spec fn literal_view(lit: JsLiteral) -> Result<ExprView, IRError> {
    match lit {
        JsLiteral::Bool(b) => Ok(ExprView::Const(if b { 1i8 } else { 2i8 })),
        JsLiteral::Int(n) => if -128 <= n <= 127 {
            Ok(ExprView::Const(n as i8))
        } else {
            Err(IRError::IntOutOfRange)
        },
        JsLiteral::Other => Err(IRError::Unsupported),
    }
}

/// A binary operation on lowered operands. Equality is the logical
/// negation of the difference, inequality the difference itself, and every
/// comparison is built from "greater than" and negation.
pub open spec fn binary_view(op: JsBinaryOp, l: ExprView, r: ExprView) -> Result<ExprView, IRError> {
    let lb = Box::new(l);
    let rb = Box::new(r);
    match op {
        JsBinaryOp::Add => Ok(ExprView::Add(lb, rb)),
        JsBinaryOp::Sub => Ok(ExprView::Sub(lb, rb)),
        JsBinaryOp::Mul => Ok(ExprView::Mul(lb, rb)),
        JsBinaryOp::Div => Ok(ExprView::Div(lb, rb)),
        JsBinaryOp::Equal | JsBinaryOp::StrictEqual => Ok(ExprView::BoolNot(Box::new(ExprView::Sub(lb, rb)))),
        JsBinaryOp::NotEqual | JsBinaryOp::StrictNotEqual => Ok(ExprView::Sub(lb, rb)),
        JsBinaryOp::GreaterThan => Ok(ExprView::Gt(lb, rb)),
        JsBinaryOp::LessThan => Ok(ExprView::Gt(rb, lb)),
        JsBinaryOp::GreaterThanOrEqual => Ok(ExprView::BoolNot(Box::new(ExprView::Gt(rb, lb)))),
        JsBinaryOp::LessThanOrEqual => Ok(ExprView::BoolNot(Box::new(ExprView::Gt(lb, rb)))),
        JsBinaryOp::Other => Err(IRError::Unsupported),
    }
}

/// A unary operation on a lowered operand: plus is the operand, minus
/// subtracts it from zero, not is logical negation.
pub open spec fn unary_view(op: JsUnaryOp, t: ExprView) -> Result<ExprView, IRError> {
    match op {
        JsUnaryOp::Plus => Ok(t),
        JsUnaryOp::Minus => Ok(ExprView::Sub(Box::new(ExprView::Const(0i8)), Box::new(t))),
        JsUnaryOp::Not => Ok(ExprView::BoolNot(Box::new(t))),
        JsUnaryOp::Other => Err(IRError::Unsupported),
    }
}

/// The lowering of an expression. Operands are lowered left to
/// right before the operator is looked at; a call of `input` reads a value
/// and takes no arguments; a call of another name lowers its arguments
/// in order; only plain names can be called.
pub open spec fn expr_lower(input: Option<usize>, e: JsExpr) -> Option<Result<ExprView, IRError>>
    decreases e,
{
    match e {
        JsExpr::Literal(lit) => Some(literal_view(lit)),
        JsExpr::Binary { op, lhs, rhs } => match expr_lower(input, *lhs) {
            Some(Ok(l)) => match expr_lower(input, *rhs) {
                Some(Ok(r)) => Some(binary_view(op, l, r)),
                other => other,
            },
            other => other,
        },
        JsExpr::Unary { op, operand } => match expr_lower(input, *operand) {
            Some(Ok(t)) => Some(unary_view(op, t)),
            other => other,
        },
        JsExpr::Identifier(id) => Some(Ok(ExprView::Id { id, last_use: false })),
        JsExpr::Call { function, args } => match *function {
            JsExpr::Identifier(id) => match input {
                None => None,
                Some(name) => if id == name {
                    if args@.len() == 0 {
                        Some(Ok(ExprView::Input))
                    } else {
                        Some(Err(IRError::InputArguments))
                    }
                } else {
                    match exprs_lower(input, args@) {
                        Some(Ok(vs)) => Some(Ok(ExprView::Call { id, args: vs })),
                        Some(Err(err)) => Some(Err(err)),
                        None => None,
                    }
                },
            },
            _ => Some(Err(IRError::Unsupported)),
        },
        _ => Some(Err(IRError::Unimplemented)),
    }
}

/// The lowering of a list of expressions, in order; the first failure wins.
pub open spec fn exprs_lower(input: Option<usize>, es: Seq<JsExpr>) -> Option<Result<Seq<ExprView>, IRError>>
    decreases es,
{
    if es.len() == 0 {
        Some(Ok(Seq::empty()))
    } else {
        match exprs_lower(input, es.drop_last()) {
            Some(Ok(vs)) => match expr_lower(input, es.last()) {
                Some(Ok(v)) => Some(Ok(vs.push(v))),
                Some(Err(err)) => Some(Err(err)),
                None => None,
            },
            other => other,
        }
    }
}

/// The variables of a `var` declaration, in order: each binding must be a
/// plain name, and its initializer, if any, is lowered.
pub open spec fn var_decls_lower(input: Option<usize>, vars: Seq<JsVarDecl>) -> Option<
    Result<Seq<VarInitView>, IRError>,
>
    decreases vars.len(),
{
    if vars.len() == 0 {
        Some(Ok(Seq::empty()))
    } else {
        match var_decls_lower(input, vars.drop_last()) {
            Some(Ok(vs)) => match vars.last().binding {
                Some(id) => match vars.last().init {
                    Some(init) => match expr_lower(input, init) {
                        Some(Ok(v)) => Some(Ok(vs.push(VarInitView { id, init: Some(v) }))),
                        Some(Err(err)) => Some(Err(err)),
                        None => None,
                    },
                    None => Some(Ok(vs.push(VarInitView { id, init: None }))),
                },
                None => Some(Err(IRError::UnsupportedVariableDeclaration)),
            },
            other => other,
        }
    }
}

/// The variable definition that a `var` declaration becomes.
pub open spec fn var_stmt_lower(input: Option<usize>, vars: Seq<JsVarDecl>) -> Option<Result<StmtView, IRError>> {
    match var_decls_lower(input, vars) {
        Some(Ok(vs)) => Some(Ok(StmtView::VariableDefine { vars: vs })),
        Some(Err(err)) => Some(Err(err)),
        None => None,
    }
}

/// An assignment of a lowered value to `id`; a compound assignment
/// combines the variable's value with it.
pub open spec fn assign_view(op: JsAssignOp, id: usize, v: ExprView) -> Result<StmtView, IRError> {
    let cur = Box::new(ExprView::Id { id, last_use: false });
    let vb = Box::new(v);
    match op {
        JsAssignOp::Assign => Ok(StmtView::Assign { id, value: v }),
        JsAssignOp::Add => Ok(StmtView::Assign { id, value: ExprView::Add(cur, vb) }),
        JsAssignOp::Sub => Ok(StmtView::Assign { id, value: ExprView::Sub(cur, vb) }),
        JsAssignOp::Mul => Ok(StmtView::Assign { id, value: ExprView::Mul(cur, vb) }),
        JsAssignOp::Div => Ok(StmtView::Assign { id, value: ExprView::Div(cur, vb) }),
        JsAssignOp::Other => Err(IRError::UnsupportedAssignment),
    }
}

/// An increment or decrement of `id`, as an assignment.
pub open spec fn update_view(op: JsUpdateOp, id: usize) -> StmtView {
    let cur = Box::new(ExprView::Id { id, last_use: false });
    let one = Box::new(ExprView::Const(1i8));
    match op {
        JsUpdateOp::IncrementPost | JsUpdateOp::IncrementPre => StmtView::Assign { id, value: ExprView::Add(cur, one) },
        JsUpdateOp::DecrementPost | JsUpdateOp::DecrementPre => StmtView::Assign { id, value: ExprView::Sub(cur, one) },
    }
}

/// An expression used as a statement: an assignment to a name, a call of a
/// name with its arguments lowered in order, or an increment or
/// decrement of a name.
pub open spec fn expr_stmt_lower(input: Option<usize>, e: JsExpr) -> Option<Result<StmtView, IRError>> {
    match e {
        JsExpr::Assign { op, target, rhs } => match target {
            Some(id) => match expr_lower(input, *rhs) {
                Some(Ok(v)) => Some(assign_view(op, id, v)),
                Some(Err(err)) => Some(Err(err)),
                None => None,
            },
            None => Some(Err(IRError::UnsupportedAssignmentTarget)),
        },
        JsExpr::Call { function, args } => match *function {
            JsExpr::Identifier(id) => match exprs_lower(input, args@) {
                Some(Ok(vs)) => Some(Ok(StmtView::Call { id, args: vs })),
                Some(Err(err)) => Some(Err(err)),
                None => None,
            },
            _ => Some(Err(IRError::UnsupportedCallee)),
        },
        JsExpr::Update { op, target } => match target {
            Some(id) => Some(Ok(update_view(op, id))),
            None => Some(Err(IRError::UnsupportedUpdateTarget)),
        },
        _ => Some(Err(IRError::UnsupportedStatement)),
    }
}

/// The statement a `for` initializer becomes.
pub open spec fn for_init_lower(input: Option<usize>, init: JsForInit) -> Option<Result<StmtView, IRError>> {
    match init {
        JsForInit::Var(vars) => var_stmt_lower(input, vars@),
        JsForInit::Lexical(vars) => var_stmt_lower(input, vars@),
        JsForInit::Expression(e) => expr_stmt_lower(input, e),
    }
}

/// The parameters of a function, in order: none may be a rest parameter
/// or have a default value, and each must be a plain name.
pub open spec fn params_lower(ps: Seq<JsParam>) -> Result<Seq<usize>, IRError>
    decreases ps.len(),
{
    if ps.len() == 0 {
        Ok(Seq::empty())
    } else {
        match params_lower(ps.drop_last()) {
            Ok(ids) => {
                let p = ps.last();
                if p.is_rest {
                    Err(IRError::SpreadArgument)
                } else if p.has_init {
                    Err(IRError::ArgumentInit)
                } else {
                    match p.binding {
                        Some(id) => Ok(ids.push(id)),
                        None => Err(IRError::UnsupportedArgument),
                    }
                }
            },
            Err(err) => Err(err),
        }
    }
}

/// The variables of a `let` or `const` declaration, in order: a variable
/// initialized with an array literal is recorded as an array and defines no
/// variable; the others are lowered as for `var`.
pub open spec fn lexical_lower(input: Option<usize>, st: PState, vars: Seq<JsVarDecl>) -> Lowered<Seq<VarInitView>>
    decreases vars.len(),
{
    if vars.len() == 0 {
        Some((st, Ok(Seq::empty())))
    } else {
        match lexical_lower(input, st, vars.drop_last()) {
            Some((st1, Ok(vs))) => match vars.last().binding {
                Some(id) => match vars.last().init {
                    Some(JsExpr::ArrayLiteral) => Some((PState { arrays: st1.arrays.push(id), ..st1 }, Ok(vs))),
                    Some(init) => match expr_lower(input, init) {
                        Some(Ok(v)) => Some((st1, Ok(vs.push(VarInitView { id, init: Some(v) })))),
                        Some(Err(err)) => Some((st1, Err(err))),
                        None => None,
                    },
                    None => Some((st1, Ok(vs.push(VarInitView { id, init: None })))),
                },
                None => Some((st1, Err(IRError::UnsupportedVariableDeclaration))),
            },
            other => other,
        }
    }
}

/// The variable definition that a `let` or `const` declaration becomes.
pub open spec fn lexical_stmt_lower(input: Option<usize>, st: PState, vars: Seq<JsVarDecl>) -> Lowered<StmtView> {
    match lexical_lower(input, st, vars) {
        Some((st1, Ok(vs))) => Some((st1, Ok(StmtView::VariableDefine { vars: vs }))),
        Some((st1, Err(err))) => Some((st1, Err(err))),
        None => None,
    }
}

/// The expression a function returns: that of a `return` with a value
/// that ends its body.
pub open spec fn ret_target(body: Seq<JsItem>) -> Option<JsExpr> {
    if body.len() == 0 {
        None
    } else {
        match body.last() {
            JsItem::Statement(JsStmt::Return(Some(r))) => Some(r),
            _ => None,
        }
    }
}

/// The lowering of a statement. A `var` declaration defines variables;
/// an expression statement is as `expr_stmt_lower` says; a loop or a
/// conditional lowers its condition and then its bodies; a block is
/// lowered where no function may be declared; a `for` loop becomes a
/// block of its initializer and a `while` loop over its body followed by
/// its update, whose condition is true when absent; the empty statement
/// does nothing.
pub open spec fn stmt_lower(input: Option<usize>, st: PState, s: JsStmt) -> Lowered<StmtView>
    decreases s, 0nat,
{
    match s {
        JsStmt::Var(vars) => match var_stmt_lower(input, vars@) {
            Some(r) => Some((st, r)),
            None => None,
        },
        JsStmt::Expression(e) => match expr_stmt_lower(input, e) {
            Some(r) => Some((st, r)),
            None => None,
        },
        JsStmt::WhileLoop { cond, body } => match expr_lower(input, cond) {
            Some(Ok(c)) => match block_lower(input, st, *body) {
                Some((st1, Ok(b))) => Some((st1, Ok(StmtView::While { condition: c, body: b }))),
                Some((st1, Err(err))) => Some((st1, Err(err))),
                None => None,
            },
            Some(Err(err)) => Some((st, Err(err))),
            None => None,
        },
        JsStmt::If { cond, body, else_node } => match expr_lower(input, cond) {
            Some(Ok(c)) => match block_lower(input, st, *body) {
                Some((st1, Ok(b))) => match else_node {
                    Some(en) => match block_lower(input, st1, *en) {
                        Some((st2, Ok(eb))) => Some(
                            (st2, Ok(StmtView::If { condition: c, body: b, else_body: Some(eb) })),
                        ),
                        Some((st2, Err(err))) => Some((st2, Err(err))),
                        None => None,
                    },
                    None => Some((st1, Ok(StmtView::If { condition: c, body: b, else_body: None }))),
                },
                Some((st1, Err(err))) => Some((st1, Err(err))),
                None => None,
            },
            Some(Err(err)) => Some((st, Err(err))),
            None => None,
        },
        JsStmt::Block(items) => match nested_items_lower(input, st, items@) {
            Some((st1, Ok(b))) => Some((st1, Ok(StmtView::Block { body: b }))),
            Some((st1, Err(err))) => Some((st1, Err(err))),
            None => None,
        },
        JsStmt::ForLoop { init, condition, final_expr, body } => {
            let init_out: Option<Result<Seq<StmtView>, IRError>> = match init {
                Some(i) => match for_init_lower(input, i) {
                    Some(Ok(v)) => Some(Ok(seq![v])),
                    Some(Err(err)) => Some(Err(err)),
                    None => None,
                },
                None => Some(Ok(Seq::empty())),
            };
            match init_out {
                Some(Ok(head)) => match block_lower(input, st, *body) {
                    Some((st1, Ok(b))) => {
                        let upd_out: Option<Result<Seq<StmtView>, IRError>> = match final_expr {
                            Some(u) => match expr_stmt_lower(input, u) {
                                Some(Ok(v)) => Some(Ok(seq![v])),
                                Some(Err(err)) => Some(Err(err)),
                                None => None,
                            },
                            None => Some(Ok(Seq::empty())),
                        };
                        match upd_out {
                            Some(Ok(tail)) => {
                                let cond_out = match condition {
                                    Some(c) => expr_lower(input, c),
                                    None => Some(Ok(ExprView::Const(1i8))),
                                };
                                match cond_out {
                                    Some(Ok(c)) => Some(
                                        (
                                            st1,
                                            Ok(
                                                StmtView::Block {
                                                    body: head.push(StmtView::While { condition: c, body: b + tail }),
                                                },
                                            ),
                                        ),
                                    ),
                                    Some(Err(err)) => Some((st1, Err(err))),
                                    None => None,
                                }
                            },
                            Some(Err(err)) => Some((st1, Err(err))),
                            None => None,
                        }
                    },
                    Some((st1, Err(err))) => Some((st1, Err(err))),
                    None => None,
                },
                Some(Err(err)) => Some((st, Err(err))),
                None => None,
            }
        },
        JsStmt::Empty => Some((st, Ok(StmtView::Noop))),
        _ => Some((st, Err(IRError::UnsupportedStatement))),
    }
}

/// The body of a loop or a conditional: the items of a block, or the one
/// statement otherwise.
pub open spec fn block_lower(input: Option<usize>, st: PState, s: JsStmt) -> Lowered<Seq<StmtView>>
    decreases s, 1nat,
{
    match s {
        JsStmt::Block(items) => nested_items_lower(input, st, items@),
        _ => match stmt_lower(input, st, s) {
            Some((st1, Ok(v))) => Some((st1, Ok(seq![v]))),
            Some((st1, Err(err))) => Some((st1, Err(err))),
            None => None,
        },
    }
}

/// Items lowered where no function may be declared; the function table
/// of the enclosing context is left as it was.
pub open spec fn nested_items_lower(input: Option<usize>, st: PState, items: Seq<JsItem>) -> Lowered<Seq<StmtView>>
    decreases items, 2nat,
{
    match items_lower(input, PState { arrays: st.arrays, funcs: None }, items) {
        Some((st1, r)) => Some((PState { arrays: st1.arrays, funcs: st.funcs }, r)),
        None => None,
    }
}

/// The lowering of a list of items, in order; the first failure wins.
pub open spec fn items_lower(input: Option<usize>, st: PState, items: Seq<JsItem>) -> Lowered<Seq<StmtView>>
    decreases items, 1nat,
{
    if items.len() == 0 {
        Some((st, Ok(Seq::empty())))
    } else {
        match items_lower(input, st, items.drop_last()) {
            Some((st1, Ok(vs))) => match item_lower(input, st1, items.last()) {
                Some((st2, Ok(v))) => Some((st2, Ok(vs.push(v)))),
                Some((st2, Err(err))) => Some((st2, Err(err))),
                None => None,
            },
            other => other,
        }
    }
}

/// The lowering of one item. A `let` or `const` declaration defines
/// its variables; a function declaration, allowed only where the function
/// table is present, lowers its returned value, then its parameters,
/// then the rest of its body, enters the function in the table and does
/// nothing in place; other declarations are refused.
pub open spec fn item_lower(input: Option<usize>, st: PState, item: JsItem) -> Lowered<StmtView>
    decreases item, 0nat,
{
    match item {
        JsItem::Statement(s) => stmt_lower(input, st, s),
        JsItem::Declaration(JsDeclaration::Lexical(vars)) => lexical_stmt_lower(input, st, vars@),
        JsItem::Declaration(JsDeclaration::Function(f)) => match st.funcs {
            None => Some((st, Err(IRError::UnsupportedFunctionDeclaration))),
            Some(m) => {
                let ret = ret_target(f.body@);
                let res_out: Option<Result<Option<ExprView>, IRError>> = match ret {
                    Some(r) => match expr_lower(input, r) {
                        Some(Ok(v)) => Some(Ok(Some(v))),
                        Some(Err(err)) => Some(Err(err)),
                        None => None,
                    },
                    None => Some(Ok(None)),
                };
                let code = if ret is Some {
                    f.body@.drop_last()
                } else {
                    f.body@
                };
                match res_out {
                    Some(Ok(result)) => match params_lower(f.params@) {
                        Ok(args) => match nested_items_lower(input, st, code) {
                            Some((st1, Ok(c))) => Some(
                                (
                                    PState {
                                        arrays: st1.arrays,
                                        funcs: Some(m.insert(f.name, FuncView { args, code: c, result })),
                                    },
                                    Ok(StmtView::Noop),
                                ),
                            ),
                            Some((st1, Err(err))) => Some((st1, Err(err))),
                            None => None,
                        },
                        Err(err) => Some((st, Err(err))),
                    },
                    Some(Err(err)) => Some((st, Err(err))),
                    None => None,
                }
            },
        },
        JsItem::Declaration(JsDeclaration::Other) => Some((st, Err(IRError::UnsupportedDeclaration))),
    }
}

/// Lowering a statement leaves the function table as it found it.
pub proof fn lemma_stmt_keeps_funcs(input: Option<usize>, st: PState, s: JsStmt)
    ensures
        stmt_lower(input, st, s) matches Some((st2, _)) ==> st2.funcs == st.funcs,
    decreases s, 0nat,
{
    match s {
        JsStmt::WhileLoop { cond, body } => {
            lemma_block_keeps_funcs(input, st, *body);
        },
        JsStmt::If { cond, body, else_node } => {
            lemma_block_keeps_funcs(input, st, *body);
            if let Some((st1, Ok(_))) = block_lower(input, st, *body) {
                if let Some(en) = else_node {
                    lemma_block_keeps_funcs(input, st1, *en);
                }
            }
        },
        JsStmt::ForLoop { init, condition, final_expr, body } => {
            lemma_block_keeps_funcs(input, st, *body);
        },
        _ => {},
    }
}

/// Lowering the body of a loop or a conditional leaves the function table
/// as it found it.
pub proof fn lemma_block_keeps_funcs(input: Option<usize>, st: PState, s: JsStmt)
    ensures
        block_lower(input, st, s) matches Some((st2, _)) ==> st2.funcs == st.funcs,
    decreases s, 1nat,
{
    if !(s is Block) {
        lemma_stmt_keeps_funcs(input, st, s);
    }
}

/// An item that is a statement lowers as that statement does.
pub proof fn lemma_item_statement(input: Option<usize>, st: PState, s: JsStmt)
    ensures
        item_lower(input, st, JsItem::Statement(s)) == stmt_lower(input, st, s),
{
}

/// The body of a top-level function, in order: each item must be a
/// statement, lowered where no function may be declared; a declaration is
/// refused.
pub open spec fn body_lower(input: Option<usize>, arrays: Seq<usize>, items: Seq<JsItem>) -> Option<
    (Seq<usize>, Result<Seq<StmtView>, IRError>),
>
    decreases items.len(),
{
    if items.len() == 0 {
        Some((arrays, Ok(Seq::empty())))
    } else {
        match body_lower(input, arrays, items.drop_last()) {
            Some((a1, Ok(vs))) => match items.last() {
                JsItem::Statement(s) => match stmt_lower(input, PState { arrays: a1, funcs: None }, s) {
                    Some((st2, Ok(v))) => Some((st2.arrays, Ok(vs.push(v)))),
                    Some((st2, Err(err))) => Some((st2.arrays, Err(err))),
                    None => None,
                },
                JsItem::Declaration(_) => Some((a1, Err(IRError::DeclarationInFunction))),
            },
            other => other,
        }
    }
}

/// A function declared at the top level: its returned value, then its
/// parameters, then the rest of its body are lowered, and the function is
/// entered in the table `funcs`, replacing one of the same name.
pub open spec fn top_function_lower(
    input: Option<usize>,
    arrays: Seq<usize>,
    funcs: Map<usize, FuncView>,
    f: JsFunction,
) -> Option<(Seq<usize>, Map<usize, FuncView>, Result<(), IRError>)> {
    let ret = ret_target(f.body@);
    let res_out: Option<Result<Option<ExprView>, IRError>> = match ret {
        Some(r) => match expr_lower(input, r) {
            Some(Ok(v)) => Some(Ok(Some(v))),
            Some(Err(err)) => Some(Err(err)),
            None => None,
        },
        None => Some(Ok(None)),
    };
    let code = if ret is Some {
        f.body@.drop_last()
    } else {
        f.body@
    };
    match res_out {
        Some(Ok(result)) => match params_lower(f.params@) {
            Ok(args) => match body_lower(input, arrays, code) {
                Some((a1, Ok(c))) => Some((a1, funcs.insert(f.name, FuncView { args, code: c, result }), Ok(()))),
                Some((a1, Err(err))) => Some((a1, funcs, Err(err))),
                None => None,
            },
            Err(err) => Some((arrays, funcs, Err(err))),
        },
        Some(Err(err)) => Some((arrays, funcs, Err(err))),
        None => None,
    }
}

/// The top level of a program, in order: a statement is lowered, where no
/// function may be declared, into the main statements; a function
/// declaration goes into the function table only; any other declaration is
/// refused. Gives the names bound to array literals, the function table
/// and the main statements.
pub open spec fn top_items_lower(input: Option<usize>, items: Seq<JsItem>) -> Option<
    (Seq<usize>, Map<usize, FuncView>, Result<Seq<StmtView>, IRError>),
>
    decreases items.len(),
{
    if items.len() == 0 {
        Some((Seq::empty(), Map::empty(), Ok(Seq::empty())))
    } else {
        match top_items_lower(input, items.drop_last()) {
            Some((a, m, Ok(main))) => match items.last() {
                JsItem::Statement(s) => match stmt_lower(input, PState { arrays: a, funcs: None }, s) {
                    Some((st, Ok(v))) => Some((st.arrays, m, Ok(main.push(v)))),
                    Some((st, Err(err))) => Some((st.arrays, m, Err(err))),
                    None => None,
                },
                JsItem::Declaration(JsDeclaration::Function(f)) => match top_function_lower(input, a, m, f) {
                    Some((a1, m1, Ok(()))) => Some((a1, m1, Ok(main))),
                    Some((a1, m1, Err(err))) => Some((a1, m1, Err(err))),
                    None => None,
                },
                JsItem::Declaration(_) => Some((a, m, Err(IRError::UnsupportedTopDeclaration))),
            },
            other => other,
        }
    }
}

/// A function body either lowers its first `j` items, or its lowering is
/// that of those `j` items.
pub proof fn lemma_body_prefix(input: Option<usize>, arrays: Seq<usize>, items: Seq<JsItem>, j: int)
    requires
        0 <= j <= items.len(),
    ensures
        (body_lower(input, arrays, items.take(j)) matches Some((_, Ok(_)))) || body_lower(input, arrays, items)
            == body_lower(input, arrays, items.take(j)),
    decreases items.len(),
{
    if j == items.len() {
        assert(items.take(j) =~= items);
    } else {
        lemma_body_prefix(input, arrays, items.drop_last(), j);
        assert(items.drop_last().take(j) =~= items.take(j));
    }
}

/// A program either lowers its first `j` items, or its lowering is that of
/// those `j` items.
pub proof fn lemma_top_prefix(input: Option<usize>, items: Seq<JsItem>, j: int)
    requires
        0 <= j <= items.len(),
    ensures
        (top_items_lower(input, items.take(j)) matches Some((_, _, Ok(_)))) || top_items_lower(input, items)
            == top_items_lower(input, items.take(j)),
    decreases items.len(),
{
    if j == items.len() {
        assert(items.take(j) =~= items);
    } else {
        lemma_top_prefix(input, items.drop_last(), j);
        assert(items.drop_last().take(j) =~= items.take(j));
    }
}

/// A `var` declaration either lowers its first `j` variables, or its
/// lowering is that of those `j` variables.
pub proof fn lemma_var_decls_prefix(input: Option<usize>, vars: Seq<JsVarDecl>, j: int)
    requires
        0 <= j <= vars.len(),
    ensures
        (var_decls_lower(input, vars.take(j)) matches Some(Ok(_))) || var_decls_lower(input, vars)
            == var_decls_lower(input, vars.take(j)),
    decreases vars.len(),
{
    if j == vars.len() {
        assert(vars.take(j) =~= vars);
    } else {
        lemma_var_decls_prefix(input, vars.drop_last(), j);
        assert(vars.drop_last().take(j) =~= vars.take(j));
    }
}

/// A `let` or `const` declaration either lowers its first `j`
/// variables, or its lowering is that of those `j` variables.
pub proof fn lemma_lexical_prefix(input: Option<usize>, st: PState, vars: Seq<JsVarDecl>, j: int)
    requires
        0 <= j <= vars.len(),
    ensures
        (lexical_lower(input, st, vars.take(j)) matches Some((_, Ok(_)))) || lexical_lower(input, st, vars)
            == lexical_lower(input, st, vars.take(j)),
    decreases vars.len(),
{
    if j == vars.len() {
        assert(vars.take(j) =~= vars);
    } else {
        lemma_lexical_prefix(input, st, vars.drop_last(), j);
        assert(vars.drop_last().take(j) =~= vars.take(j));
    }
}

/// A parameter list either lowers its first `j` parameters, or its
/// lowering is that of those `j` parameters.
pub proof fn lemma_params_prefix(ps: Seq<JsParam>, j: int)
    requires
        0 <= j <= ps.len(),
    ensures
        (params_lower(ps.take(j)) is Ok) || params_lower(ps) == params_lower(ps.take(j)),
    decreases ps.len(),
{
    if j == ps.len() {
        assert(ps.take(j) =~= ps);
    } else {
        lemma_params_prefix(ps.drop_last(), j);
        assert(ps.drop_last().take(j) =~= ps.take(j));
    }
}

/// A list of items either lowers its first `j` items, or its
/// lowering is that of those `j` items.
pub proof fn lemma_items_prefix(input: Option<usize>, st: PState, items: Seq<JsItem>, j: int)
    requires
        0 <= j <= items.len(),
    ensures
        (items_lower(input, st, items.take(j)) matches Some((_, Ok(_)))) || items_lower(input, st, items)
            == items_lower(input, st, items.take(j)),
    decreases items.len(),
{
    if j == items.len() {
        assert(items.take(j) =~= items);
    } else {
        lemma_items_prefix(input, st, items.drop_last(), j);
        assert(items.drop_last().take(j) =~= items.take(j));
    }
}

} // verus!
