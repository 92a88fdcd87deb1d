use std::collections::HashMap;

use vstd::prelude::*;

verus! {

/// An expression of the intermediate representation; identifiers are
/// interned symbols, given by their index.
#[derive(Debug, PartialEq, Eq)]
pub enum IRExpr {
    Const(i8),
    Add(Box<IRExpr>, Box<IRExpr>),
    Sub(Box<IRExpr>, Box<IRExpr>),
    Mul(Box<IRExpr>, Box<IRExpr>),
    Div(Box<IRExpr>, Box<IRExpr>),
    Id { id: usize, last_use: bool },
    Call { id: usize, args: Vec<IRExpr> },
    Fetch { address: Box<IRExpr>, index: usize },
    BoolNot(Box<IRExpr>),
    Gt(Box<IRExpr>, Box<IRExpr>),
    Input,
}

/// One variable of a definition, with its initial value if it has one.
#[derive(Debug, PartialEq, Eq)]
pub struct IRVarInit {
    pub id: usize,
    pub init: Option<IRExpr>,
}

/// A statement of the intermediate representation.
#[derive(Debug, PartialEq, Eq)]
pub enum IRStmt {
    Noop,
    VariableDefine { vars: Vec<IRVarInit> },
    Assign { id: usize, value: IRExpr },
    Call { id: usize, args: Vec<IRExpr> },
    Out { val: IRExpr },
    While { condition: IRExpr, body: Vec<IRStmt> },
    If { condition: IRExpr, body: Vec<IRStmt>, else_body: Option<Vec<IRStmt>> },
    Block { body: Vec<IRStmt> },
}

/// A function: its parameters, its body, and the value it returns, if any.
#[derive(Debug, PartialEq, Eq)]
pub struct IRFunc {
    pub args: Vec<usize>,
    pub code: Vec<IRStmt>,
    pub result: Option<IRExpr>,
}

/// A whole program: the main statements, the functions by name, and the
/// names bound to array literals.
#[derive(Debug, PartialEq, Eq)]
pub struct IR {
    pub main: Vec<IRStmt>,
    pub funcs: HashMap<usize, IRFunc>,
    pub arrays: Vec<usize>,
}


/// An expression as a mathematical value, with argument lists as sequences.
pub enum ExprView {
    Const(i8),
    Add(Box<ExprView>, Box<ExprView>),
    Sub(Box<ExprView>, Box<ExprView>),
    Mul(Box<ExprView>, Box<ExprView>),
    Div(Box<ExprView>, Box<ExprView>),
    Id { id: usize, last_use: bool },
    Call { id: usize, args: Seq<ExprView> },
    Fetch { address: Box<ExprView>, index: usize },
    BoolNot(Box<ExprView>),
    Gt(Box<ExprView>, Box<ExprView>),
    Input,
}

/// A variable of a definition as a value.
pub struct VarInitView {
    pub id: usize,
    pub init: Option<ExprView>,
}

/// A statement as a mathematical value, with bodies as sequences.
pub enum StmtView {
    Noop,
    VariableDefine { vars: Seq<VarInitView> },
    Assign { id: usize, value: ExprView },
    Call { id: usize, args: Seq<ExprView> },
    Out { val: ExprView },
    While { condition: ExprView, body: Seq<StmtView> },
    If { condition: ExprView, body: Seq<StmtView>, else_body: Option<Seq<StmtView>> },
    Block { body: Seq<StmtView> },
}

/// A function as a value.
pub struct FuncView {
    pub args: Seq<usize>,
    pub code: Seq<StmtView>,
    pub result: Option<ExprView>,
}

impl IRExpr {
    /// The expression as a value.
    pub open spec fn deep(self) -> ExprView
        decreases self,
    {
        match self {
            IRExpr::Const(c) => ExprView::Const(c),
            IRExpr::Add(l, r) => ExprView::Add(Box::new(l.deep()), Box::new(r.deep())),
            IRExpr::Sub(l, r) => ExprView::Sub(Box::new(l.deep()), Box::new(r.deep())),
            IRExpr::Mul(l, r) => ExprView::Mul(Box::new(l.deep()), Box::new(r.deep())),
            IRExpr::Div(l, r) => ExprView::Div(Box::new(l.deep()), Box::new(r.deep())),
            IRExpr::Id { id, last_use } => ExprView::Id { id, last_use },
            IRExpr::Call { id, args } => ExprView::Call { id, args: exprs_deep(args@) },
            IRExpr::Fetch { address, index } => ExprView::Fetch { address: Box::new(address.deep()), index },
            IRExpr::BoolNot(e) => ExprView::BoolNot(Box::new(e.deep())),
            IRExpr::Gt(l, r) => ExprView::Gt(Box::new(l.deep()), Box::new(r.deep())),
            IRExpr::Input => ExprView::Input,
        }
    }
}

/// A list of expressions as values.
pub open spec fn exprs_deep(es: Seq<IRExpr>) -> Seq<ExprView>
    decreases es,
{
    if es.len() == 0 {
        Seq::empty()
    } else {
        exprs_deep(es.drop_last()).push(es.last().deep())
    }
}

/// An optional expression as a value.
pub open spec fn opt_expr_deep(e: Option<IRExpr>) -> Option<ExprView> {
    match e {
        Some(e) => Some(e.deep()),
        None => None,
    }
}

impl IRVarInit {
    pub open spec fn deep(self) -> VarInitView {
        VarInitView { id: self.id, init: opt_expr_deep(self.init) }
    }
}

/// A list of variables as values.
pub open spec fn vars_deep(vs: Seq<IRVarInit>) -> Seq<VarInitView> {
    vs.map_values(|v: IRVarInit| v.deep())
}

impl IRStmt {
    /// The statement as a value.
    pub open spec fn deep(self) -> StmtView
        decreases self,
    {
        match self {
            IRStmt::Noop => StmtView::Noop,
            IRStmt::VariableDefine { vars } => StmtView::VariableDefine { vars: vars_deep(vars@) },
            IRStmt::Assign { id, value } => StmtView::Assign { id, value: value.deep() },
            IRStmt::Call { id, args } => StmtView::Call { id, args: exprs_deep(args@) },
            IRStmt::Out { val } => StmtView::Out { val: val.deep() },
            IRStmt::While { condition, body } => StmtView::While { condition: condition.deep(), body: stmts_deep(body@) },
            IRStmt::If { condition, body, else_body } => StmtView::If {
                condition: condition.deep(),
                body: stmts_deep(body@),
                else_body: match else_body {
                    Some(b) => Some(stmts_deep(b@)),
                    None => None,
                },
            },
            IRStmt::Block { body } => StmtView::Block { body: stmts_deep(body@) },
        }
    }
}

/// A list of statements as values.
pub open spec fn stmts_deep(ss: Seq<IRStmt>) -> Seq<StmtView>
    decreases ss,
{
    if ss.len() == 0 {
        Seq::empty()
    } else {
        stmts_deep(ss.drop_last()).push(ss.last().deep())
    }
}

impl IRFunc {
    pub open spec fn deep(self) -> FuncView {
        FuncView { args: self.args@, code: stmts_deep(self.code@), result: opt_expr_deep(self.result) }
    }
}

/// A whole program as a value.
pub struct IRView {
    pub main: Seq<StmtView>,
    pub funcs: Map<usize, FuncView>,
    pub arrays: Seq<usize>,
}

impl IR {
    /// The program as a value.
    pub open spec fn deep(self) -> IRView {
        IRView { main: stmts_deep(self.main@), funcs: funcs_deep(self.funcs@), arrays: self.arrays@ }
    }
}

/// The functions of a program as values.
pub open spec fn funcs_deep(m: Map<usize, IRFunc>) -> Map<usize, FuncView> {
    m.map_values(|f: IRFunc| f.deep())
}

pub proof fn lemma_exprs_deep_push(es: Seq<IRExpr>, e: IRExpr)
    ensures
        exprs_deep(es.push(e)) == exprs_deep(es).push(e.deep()),
{
    assert(es.push(e).drop_last() =~= es);
}

pub proof fn lemma_stmts_deep_push(ss: Seq<IRStmt>, s: IRStmt)
    ensures
        stmts_deep(ss.push(s)) == stmts_deep(ss).push(s.deep()),
{
    assert(ss.push(s).drop_last() =~= ss);
}

pub proof fn lemma_vars_deep_push(vs: Seq<IRVarInit>, v: IRVarInit)
    ensures
        vars_deep(vs.push(v)) == vars_deep(vs).push(v.deep()),
{
    assert(vars_deep(vs.push(v)) =~= vars_deep(vs).push(v.deep()));
}

pub proof fn lemma_funcs_deep_insert(m: Map<usize, IRFunc>, k: usize, f: IRFunc)
    ensures
        funcs_deep(m.insert(k, f)) == funcs_deep(m).insert(k, f.deep()),
{
    assert(funcs_deep(m.insert(k, f)) =~= funcs_deep(m).insert(k, f.deep()));
}

} // verus!
