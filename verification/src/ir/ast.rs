use vstd::prelude::*;

verus! {

/// A literal of the source program, as far as the front end reads it.
#[derive(Debug, Clone, Copy, PartialEq, Eq)]
pub enum JsLiteral {
    Bool(bool),
    Int(i32),
    /// Any other literal: a string, a non-integer number, `null`, ...
    Other,
}

/// A binary operator of the source program.
#[derive(Debug, Clone, Copy, PartialEq, Eq)]
pub enum JsBinaryOp {
    Add,
    Sub,
    Mul,
    Div,
    Equal,
    StrictEqual,
    NotEqual,
    StrictNotEqual,
    GreaterThan,
    LessThan,
    GreaterThanOrEqual,
    LessThanOrEqual,
    /// Any other binary operator.
    Other,
}

/// The source text of a binary operator; `Other` stands for several and
/// has none of its own.
pub open spec fn binary_text(op: JsBinaryOp) -> Seq<char> {
    match op {
        JsBinaryOp::Add => "+"@,
        JsBinaryOp::Sub => "-"@,
        JsBinaryOp::Mul => "*"@,
        JsBinaryOp::Div => "/"@,
        JsBinaryOp::Equal => "=="@,
        JsBinaryOp::StrictEqual => "==="@,
        JsBinaryOp::NotEqual => "!="@,
        JsBinaryOp::StrictNotEqual => "!=="@,
        JsBinaryOp::GreaterThan => ">"@,
        JsBinaryOp::LessThan => "<"@,
        JsBinaryOp::GreaterThanOrEqual => ">="@,
        JsBinaryOp::LessThanOrEqual => "<="@,
        JsBinaryOp::Other => Seq::empty(),
    }
}

/// A unary operator of the source program.
#[derive(Debug, Clone, Copy, PartialEq, Eq)]
pub enum JsUnaryOp {
    Plus,
    Minus,
    Not,
    /// Any other unary operator.
    Other,
}

/// An assignment operator of the source program.
#[derive(Debug, Clone, Copy, PartialEq, Eq)]
pub enum JsAssignOp {
    Assign,
    Add,
    Sub,
    Mul,
    Div,
    /// Any other compound assignment.
    Other,
}

/// An increment or decrement operator of the source program.
#[derive(Debug, Clone, Copy, PartialEq, Eq)]
pub enum JsUpdateOp {
    IncrementPost,
    IncrementPre,
    DecrementPost,
    DecrementPre,
}

/// The source text of a unary operator; `Other` stands for several and has
/// none of its own.
pub open spec fn unary_text(op: JsUnaryOp) -> Seq<char> {
    match op {
        JsUnaryOp::Plus => "+"@,
        JsUnaryOp::Minus => "-"@,
        JsUnaryOp::Not => "!"@,
        JsUnaryOp::Other => Seq::empty(),
    }
}

/// The source text of an assignment operator; `Other` stands for several
/// and has none of its own.
pub open spec fn assign_text(op: JsAssignOp) -> Seq<char> {
    match op {
        JsAssignOp::Assign => "="@,
        JsAssignOp::Add => "+="@,
        JsAssignOp::Sub => "-="@,
        JsAssignOp::Mul => "*="@,
        JsAssignOp::Div => "/="@,
        JsAssignOp::Other => Seq::empty(),
    }
}

/// The source text of an increment or decrement operator.
pub open spec fn update_text(op: JsUpdateOp) -> Seq<char> {
    match op {
        JsUpdateOp::IncrementPost | JsUpdateOp::IncrementPre => "++"@,
        JsUpdateOp::DecrementPost | JsUpdateOp::DecrementPre => "--"@,
    }
}

/// An expression of the source program. Names are interned symbols, given
/// by their index; a target is `Some` exactly when it is a plain name.
#[derive(Debug, PartialEq, Eq)]
pub enum JsExpr {
    Literal(JsLiteral),
    Binary { op: JsBinaryOp, lhs: Box<JsExpr>, rhs: Box<JsExpr> },
    Unary { op: JsUnaryOp, operand: Box<JsExpr> },
    Identifier(usize),
    Call { function: Box<JsExpr>, args: Vec<JsExpr> },
    Assign { op: JsAssignOp, target: Option<usize>, rhs: Box<JsExpr> },
    Update { op: JsUpdateOp, target: Option<usize> },
    ArrayLiteral,
    /// Any other expression.
    Other,
}

/// One declared variable: its name, when the binding is a plain name, and
/// its initializer.
#[derive(Debug, PartialEq, Eq)]
pub struct JsVarDecl {
    pub binding: Option<usize>,
    pub init: Option<JsExpr>,
}

/// The initializer of a `for` loop.
#[derive(Debug, PartialEq, Eq)]
pub enum JsForInit {
    Var(Vec<JsVarDecl>),
    Lexical(Vec<JsVarDecl>),
    Expression(JsExpr),
}

/// A statement of the source program.
#[derive(Debug, PartialEq, Eq)]
pub enum JsStmt {
    Block(Vec<JsItem>),
    Var(Vec<JsVarDecl>),
    Empty,
    Expression(JsExpr),
    If { cond: JsExpr, body: Box<JsStmt>, else_node: Option<Box<JsStmt>> },
    WhileLoop { cond: JsExpr, body: Box<JsStmt> },
    ForLoop {
        init: Option<JsForInit>,
        condition: Option<JsExpr>,
        final_expr: Option<JsExpr>,
        body: Box<JsStmt>,
    },
    Return(Option<JsExpr>),
    /// Any other statement.
    Other,
}

/// A formal parameter: whether it is a rest parameter, whether it has a
/// default value, and its name when the binding is a plain name.
#[derive(Debug, Clone, Copy, PartialEq, Eq)]
pub struct JsParam {
    pub is_rest: bool,
    pub has_init: bool,
    pub binding: Option<usize>,
}

/// A function declaration.
#[derive(Debug, PartialEq, Eq)]
pub struct JsFunction {
    pub name: usize,
    pub params: Vec<JsParam>,
    pub body: Vec<JsItem>,
}

/// A declaration of the source program.
#[derive(Debug, PartialEq, Eq)]
pub enum JsDeclaration {
    /// A `let` or `const` declaration.
    Lexical(Vec<JsVarDecl>),
    Function(JsFunction),
    /// Any other declaration.
    Other,
}

/// An item of a statement list.
#[derive(Debug, PartialEq, Eq)]
pub enum JsItem {
    Statement(JsStmt),
    Declaration(JsDeclaration),
}

} // verus!
