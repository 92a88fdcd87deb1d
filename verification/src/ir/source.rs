use boa_ast::declaration::{Binding, VariableList};
use boa_ast::expression::literal::Literal;
use boa_ast::expression::operator::assign::{AssignOp, AssignTarget};
use boa_ast::expression::operator::binary::{ArithmeticOp, BinaryOp, RelationalOp};
use boa_ast::expression::operator::unary::UnaryOp;
use boa_ast::expression::operator::update::{UpdateOp, UpdateTarget};
use boa_ast::expression::operator::{Assign, Binary, Unary, Update};
use boa_ast::expression::Call;
use boa_ast::function::{FormalParameter, FunctionDeclaration};
use boa_ast::scope::Scope;
use boa_ast::statement::iteration::{ForLoop, ForLoopInitializer, WhileLoop};
use boa_ast::statement::If;
use boa_ast::{Declaration, Expression, Statement, StatementListItem};
use boa_interner::Interner;
use boa_parser::{Parser, Source};
use vstd::prelude::*;

use crate::ir::ast::{
    assign_text, binary_text, unary_text, update_text, JsAssignOp, JsBinaryOp, JsDeclaration, JsExpr, JsForInit, JsFunction, JsItem, JsLiteral, JsParam, JsStmt,
    JsUnaryOp, JsUpdateOp, JsVarDecl,
};
use crate::ir::ctx::IRError;
use crate::ir::ir::IR;
use crate::ir::{parse_to_ir_checked, script_lower};

verus! {

#[verifier::external_type_specification]
#[verifier::external_body]
pub struct ExStatementListItem(StatementListItem);

#[verifier::external_type_specification]
#[verifier::external_body]
pub struct ExStatement(Statement);

#[verifier::external_type_specification]
#[verifier::external_body]
pub struct ExIf(If);

#[verifier::external_type_specification]
#[verifier::external_body]
pub struct ExWhileLoop(WhileLoop);

#[verifier::external_type_specification]
#[verifier::external_body]
pub struct ExForLoop(ForLoop);

#[verifier::external_type_specification]
#[verifier::external_body]
pub struct ExForLoopInitializer(ForLoopInitializer);

#[verifier::external_type_specification]
#[verifier::external_body]
pub struct ExExpression(Expression);

#[verifier::external_type_specification]
#[verifier::external_body]
pub struct ExLiteral(Literal);

#[verifier::external_type_specification]
#[verifier::external_body]
pub struct ExBinary(Binary);

#[verifier::external_type_specification]
#[verifier::external_body]
pub struct ExUnary(Unary);

#[verifier::external_type_specification]
#[verifier::external_body]
pub struct ExCall(Call);

#[verifier::external_type_specification]
#[verifier::external_body]
pub struct ExAssign(Assign);

#[verifier::external_type_specification]
#[verifier::external_body]
pub struct ExUpdate(Update);

#[verifier::external_type_specification]
#[verifier::external_body]
pub struct ExBinaryOp(BinaryOp);

#[verifier::external_type_specification]
pub struct ExArithmeticOp(ArithmeticOp);

#[verifier::external_type_specification]
pub struct ExRelationalOp(RelationalOp);

#[verifier::external_type_specification]
pub struct ExUnaryOp(UnaryOp);

#[verifier::external_type_specification]
pub struct ExAssignOp(AssignOp);

#[verifier::external_type_specification]
pub struct ExUpdateOp(UpdateOp);

#[verifier::external_type_specification]
#[verifier::external_body]
pub struct ExVariableList(VariableList);

#[verifier::external_type_specification]
#[verifier::external_body]
pub struct ExBinding(Binding);

#[verifier::external_type_specification]
#[verifier::external_body]
pub struct ExDeclaration(Declaration);

#[verifier::external_type_specification]
#[verifier::external_body]
pub struct ExFunctionDeclaration(FunctionDeclaration);

#[verifier::external_type_specification]
#[verifier::external_body]
pub struct ExFormalParameter(FormalParameter);

/// What boa_parser makes of the source `src`, read as a script in a fresh
/// interner: the syntax tree converted into the library's, the symbol the
/// interner gives the name `name`, if any, and the parser's own debug
/// rendering of the tree; or the parser's message when the source does not
/// parse.
pub uninterp spec fn parsed_script(src: Seq<u8>, name: Seq<char>) -> Result<
    (Seq<JsItem>, Option<usize>, Seq<char>),
    Seq<char>,
>;

/// Runs `boa_parser::Parser::parse_script` on `src` with a fresh
/// `boa_interner::Interner` and a default scope, converts the syntax tree,
/// renders it with its `Debug` impl, and looks `name` up with
/// `Interner::get`. Claimed, not proved: the outcome is
/// `parsed_script(src, name)`, a function of these two alone.
#[verifier::external_body]
pub fn parse_script(src: &[u8], name: &str) -> (r: Result<(Vec<JsItem>, Option<usize>, String), String>)
    ensures
        match r {
            Ok((items, sym, dump)) => parsed_script(src@, name@) == Ok::<
                (Seq<JsItem>, Option<usize>, Seq<char>),
                Seq<char>,
            >((items@, sym, dump@)),
            Err(m) => parsed_script(src@, name@) == Err::<(Seq<JsItem>, Option<usize>, Seq<char>), Seq<char>>(m@),
        },
{
    let mut interner = Interner::default();
    match Parser::new(Source::from_bytes(src)).parse_script(&Scope::default(), &mut interner) {
        Ok(script) => {
            let sym = match interner.get(name) {
                Some(s) => Some(s.get()),
                None => None,
            };
            Ok((js_items(script.statements().statements()), sym, format!("{script:?}")))
        },
        Err(e) => Err(format!("{e}")),
    }
}

/// Converts a list of boa statement-list items, in order.
#[verifier::external_body]
fn js_items(list: &[StatementListItem]) -> Vec<JsItem> {
    list.iter().map(|i| match i {
        StatementListItem::Statement(s) => JsItem::Statement(js_stmt(s)),
        StatementListItem::Declaration(d) => JsItem::Declaration(js_declaration(d)),
    }).collect()
}

/// Converts a boa statement; forms the front end does not read become `Other`.
#[verifier::external_body]
fn js_stmt(s: &Statement) -> JsStmt {
    match s {
        Statement::Block(b) => JsStmt::Block(js_items(b.statement_list().statements())),
        Statement::Var(v) => JsStmt::Var(js_var_decls(&v.0)),
        Statement::Empty => JsStmt::Empty,
        Statement::Expression(e) => JsStmt::Expression(js_expr(e)),
        Statement::If(i) => js_if(i),
        Statement::WhileLoop(w) => js_while(w),
        Statement::ForLoop(f) => js_for(f),
        Statement::Return(r) => JsStmt::Return(r.target().map(js_expr)),
        _ => JsStmt::Other,
    }
}

/// Converts a boa `if` statement.
#[verifier::external_body]
fn js_if(i: &If) -> JsStmt {
    JsStmt::If {
        cond: js_expr(i.cond()),
        body: Box::new(js_stmt(i.body())),
        else_node: i.else_node().map(|e| Box::new(js_stmt(e))),
    }
}

/// Converts a boa `while` loop.
#[verifier::external_body]
fn js_while(w: &WhileLoop) -> JsStmt {
    JsStmt::WhileLoop { cond: js_expr(w.condition()), body: Box::new(js_stmt(w.body())) }
}

/// Converts a boa `for` loop.
#[verifier::external_body]
fn js_for(f: &ForLoop) -> JsStmt {
    JsStmt::ForLoop {
        init: f.init().map(js_for_init),
        condition: f.condition().map(js_expr),
        final_expr: f.final_expr().map(js_expr),
        body: Box::new(js_stmt(f.body())),
    }
}

/// Converts the initializer of a boa `for` loop.
#[verifier::external_body]
fn js_for_init(i: &ForLoopInitializer) -> JsForInit {
    match i {
        ForLoopInitializer::Var(v) => JsForInit::Var(js_var_decls(&v.0)),
        ForLoopInitializer::Lexical(l) => JsForInit::Lexical(js_var_decls(l.declaration().variable_list())),
        ForLoopInitializer::Expression(e) => JsForInit::Expression(js_expr(e)),
    }
}

/// Converts a boa declaration; forms the front end does not read become `Other`.
#[verifier::external_body]
fn js_declaration(d: &Declaration) -> JsDeclaration {
    match d {
        Declaration::Lexical(l) => JsDeclaration::Lexical(js_var_decls(l.variable_list())),
        Declaration::FunctionDeclaration(f) => JsDeclaration::Function(js_function(f)),
        _ => JsDeclaration::Other,
    }
}

/// Converts a boa function declaration: name, parameters and body.
#[verifier::external_body]
fn js_function(f: &FunctionDeclaration) -> JsFunction {
    JsFunction {
        name: f.name().sym().get(),
        params: f.parameters().as_ref().iter().map(js_param).collect(),
        body: js_items(f.body().statements()),
    }
}

/// Converts a boa formal parameter.
#[verifier::external_body]
fn js_param(p: &FormalParameter) -> JsParam {
    JsParam {
        is_rest: p.is_rest_param(),
        has_init: p.init().is_some(),
        binding: js_binding(p.variable().binding()),
    }
}

/// Converts the variables of a boa declaration, in order.
#[verifier::external_body]
fn js_var_decls(list: &VariableList) -> Vec<JsVarDecl> {
    list.as_ref().iter().map(|v| JsVarDecl { binding: js_binding(v.binding()), init: v.init().map(js_expr) }).collect()
}

/// The symbol of a boa binding that is a plain name.
#[verifier::external_body]
fn js_binding(b: &Binding) -> Option<usize> {
    match b {
        Binding::Identifier(id) => Some(id.sym().get()),
        _ => None,
    }
}

/// Converts a boa expression; forms the front end does not read become `Other`.
#[verifier::external_body]
fn js_expr(e: &Expression) -> JsExpr {
    match e {
        Expression::Literal(l) => JsExpr::Literal(js_literal(l)),
        Expression::Binary(b) => js_binary(b),
        Expression::Unary(u) => js_unary(u),
        Expression::Identifier(id) => JsExpr::Identifier(id.sym().get()),
        Expression::Call(c) => js_call(c),
        Expression::Assign(a) => js_assign(a),
        Expression::Update(u) => js_update(u),
        Expression::ArrayLiteral(_) => JsExpr::ArrayLiteral,
        _ => JsExpr::Other,
    }
}

/// Converts a boa literal.
#[verifier::external_body]
fn js_literal(l: &Literal) -> JsLiteral {
    match l {
        Literal::Bool(b) => JsLiteral::Bool(*b),
        Literal::Int(n) => JsLiteral::Int(*n),
        _ => JsLiteral::Other,
    }
}

/// Converts a boa binary operation.
#[verifier::external_body]
fn js_binary(b: &Binary) -> JsExpr {
    JsExpr::Binary { op: js_binary_op(b.op()), lhs: Box::new(js_expr(b.lhs())), rhs: Box::new(js_expr(b.rhs())) }
}

/// Converts a boa unary operation.
#[verifier::external_body]
fn js_unary(u: &Unary) -> JsExpr {
    JsExpr::Unary { op: js_unary_op(u.op()), operand: Box::new(js_expr(u.target())) }
}

/// Converts a boa call.
#[verifier::external_body]
fn js_call(c: &Call) -> JsExpr {
    JsExpr::Call { function: Box::new(js_expr(c.function())), args: c.args().iter().map(js_expr).collect() }
}

/// Converts a boa assignment; its target is kept when it is a plain name.
#[verifier::external_body]
fn js_assign(a: &Assign) -> JsExpr {
    let target = match a.lhs() {
        AssignTarget::Identifier(id) => Some(id.sym().get()),
        _ => None,
    };
    JsExpr::Assign { op: js_assign_op(a.op()), target, rhs: Box::new(js_expr(a.rhs())) }
}

/// Converts a boa increment or decrement; its target is kept when it is a plain name.
#[verifier::external_body]
fn js_update(u: &Update) -> JsExpr {
    let target = match u.target() {
        UpdateTarget::Identifier(id) => Some(id.sym().get()),
        _ => None,
    };
    JsExpr::Update { op: js_update_op(u.op()), target }
}

/// Converts a boa binary operator.
#[verifier::external_body]
fn js_binary_op(op: BinaryOp) -> JsBinaryOp {
    match op {
        BinaryOp::Arithmetic(a) => js_arithmetic_op(a),
        BinaryOp::Relational(r) => js_relational_op(r),
        _ => JsBinaryOp::Other,
    }
}

/// The source text of a boa arithmetic operator, as boa's
/// `ArithmeticOp::as_str` spells it.
pub open spec fn arithmetic_text(op: ArithmeticOp) -> Seq<char> {
    match op {
        ArithmeticOp::Add => "+"@,
        ArithmeticOp::Sub => "-"@,
        ArithmeticOp::Div => "/"@,
        ArithmeticOp::Mul => "*"@,
        ArithmeticOp::Exp => "**"@,
        ArithmeticOp::Mod => "%"@,
    }
}

/// Converts a boa arithmetic operator: the four the compiler knows become
/// the operator written the same way in the source, `**` and `%` become
/// `Other`.
fn js_arithmetic_op(op: ArithmeticOp) -> (r: JsBinaryOp)
    ensures
        op is Exp || op is Mod ==> r is Other,
        !(op is Exp || op is Mod) ==> binary_text(r) == arithmetic_text(op),
{
    match op {
        ArithmeticOp::Add => JsBinaryOp::Add,
        ArithmeticOp::Sub => JsBinaryOp::Sub,
        ArithmeticOp::Mul => JsBinaryOp::Mul,
        ArithmeticOp::Div => JsBinaryOp::Div,
        _ => JsBinaryOp::Other,
    }
}

/// The source text of a boa comparison operator, as boa's
/// `RelationalOp::as_str` spells it.
pub open spec fn relational_text(op: RelationalOp) -> Seq<char> {
    match op {
        RelationalOp::Equal => "=="@,
        RelationalOp::NotEqual => "!="@,
        RelationalOp::StrictEqual => "==="@,
        RelationalOp::StrictNotEqual => "!=="@,
        RelationalOp::GreaterThan => ">"@,
        RelationalOp::GreaterThanOrEqual => ">="@,
        RelationalOp::LessThan => "<"@,
        RelationalOp::LessThanOrEqual => "<="@,
        RelationalOp::In => "in"@,
        RelationalOp::InstanceOf => "instanceof"@,
    }
}

/// Converts a boa relational operator: each comparison becomes the
/// operator written the same way in the source, `in` and `instanceof`
/// become `Other`.
fn js_relational_op(op: RelationalOp) -> (r: JsBinaryOp)
    ensures
        op is In || op is InstanceOf ==> r is Other,
        !(op is In || op is InstanceOf) ==> binary_text(r) == relational_text(op),
{
    match op {
        RelationalOp::Equal => JsBinaryOp::Equal,
        RelationalOp::StrictEqual => JsBinaryOp::StrictEqual,
        RelationalOp::NotEqual => JsBinaryOp::NotEqual,
        RelationalOp::StrictNotEqual => JsBinaryOp::StrictNotEqual,
        RelationalOp::GreaterThan => JsBinaryOp::GreaterThan,
        RelationalOp::LessThan => JsBinaryOp::LessThan,
        RelationalOp::GreaterThanOrEqual => JsBinaryOp::GreaterThanOrEqual,
        RelationalOp::LessThanOrEqual => JsBinaryOp::LessThanOrEqual,
        _ => JsBinaryOp::Other,
    }
}

/// The source text of a boa unary operator, as boa's `UnaryOp::as_str`
/// spells it.
pub open spec fn boa_unary_text(op: UnaryOp) -> Seq<char> {
    match op {
        UnaryOp::Plus => "+"@,
        UnaryOp::Minus => "-"@,
        UnaryOp::Not => "!"@,
        UnaryOp::Tilde => "~"@,
        UnaryOp::Delete => "delete"@,
        UnaryOp::TypeOf => "typeof"@,
        UnaryOp::Void => "void"@,
    }
}

/// Converts a boa unary operator: plus, minus and not become the operator
/// written the same way in the source, the others `Other`.
fn js_unary_op(op: UnaryOp) -> (r: JsUnaryOp)
    ensures
        op is Plus || op is Minus || op is Not ==> unary_text(r) == boa_unary_text(op),
        !(op is Plus || op is Minus || op is Not) ==> r is Other,
{
    match op {
        UnaryOp::Plus => JsUnaryOp::Plus,
        UnaryOp::Minus => JsUnaryOp::Minus,
        UnaryOp::Not => JsUnaryOp::Not,
        _ => JsUnaryOp::Other,
    }
}

/// The source text of a boa assignment operator, as boa's
/// `AssignOp::as_str` spells it.
pub open spec fn boa_assign_text(op: AssignOp) -> Seq<char> {
    match op {
        AssignOp::Assign => "="@,
        AssignOp::Add => "+="@,
        AssignOp::Sub => "-="@,
        AssignOp::Mul => "*="@,
        AssignOp::Exp => "**="@,
        AssignOp::Div => "/="@,
        AssignOp::Mod => "%="@,
        AssignOp::And => "&="@,
        AssignOp::Or => "|="@,
        AssignOp::Xor => "^="@,
        AssignOp::Shl => "<<="@,
        AssignOp::Shr => ">>="@,
        AssignOp::Ushr => ">>>="@,
        AssignOp::BoolAnd => "&&="@,
        AssignOp::BoolOr => "||="@,
        AssignOp::Coalesce => "??="@,
    }
}

/// Converts a boa assignment operator: plain assignment and the four
/// arithmetic ones become the operator written the same way in the
/// source, the others `Other`.
fn js_assign_op(op: AssignOp) -> (r: JsAssignOp)
    ensures
        op is Assign || op is Add || op is Sub || op is Mul || op is Div ==> assign_text(r) == boa_assign_text(op),
        !(op is Assign || op is Add || op is Sub || op is Mul || op is Div) ==> r is Other,
{
    match op {
        AssignOp::Assign => JsAssignOp::Assign,
        AssignOp::Add => JsAssignOp::Add,
        AssignOp::Sub => JsAssignOp::Sub,
        AssignOp::Mul => JsAssignOp::Mul,
        AssignOp::Div => JsAssignOp::Div,
        _ => JsAssignOp::Other,
    }
}

/// The source text of a boa increment or decrement operator, as boa's
/// `UpdateOp::as_str` spells it.
pub open spec fn boa_update_text(op: UpdateOp) -> Seq<char> {
    match op {
        UpdateOp::IncrementPost | UpdateOp::IncrementPre => "++"@,
        UpdateOp::DecrementPost | UpdateOp::DecrementPre => "--"@,
    }
}

/// Converts a boa increment or decrement operator: the same operator,
/// written before its operand exactly when boa's is.
fn js_update_op(op: UpdateOp) -> (r: JsUpdateOp)
    ensures
        update_text(r) == boa_update_text(op),
        (op is IncrementPre || op is DecrementPre) <==> (r is IncrementPre || r is DecrementPre),
{
    match op {
        UpdateOp::IncrementPost => JsUpdateOp::IncrementPost,
        UpdateOp::IncrementPre => JsUpdateOp::IncrementPre,
        UpdateOp::DecrementPost => JsUpdateOp::DecrementPost,
        UpdateOp::DecrementPre => JsUpdateOp::DecrementPre,
    }
}

/// Why a source program could not be compiled to the intermediate representation.
#[derive(Debug, PartialEq, Eq)]
pub enum SourceError {
    /// The source does not parse; the parser's message.
    Syntax(String),
    /// The source parses, and its lowering fails.
    Lowering(IRError),
}

/// A source program as the parser left it: its items, the symbol of the
/// name `input`, and the parser's debug rendering of the syntax tree.
pub struct ParsedSource {
    pub items: Vec<JsItem>,
    pub input: Option<usize>,
    pub dump: String,
}

/// Parses a source program; the parser's message where it does not parse.
pub fn parse_source(src: &[u8]) -> (res: Result<ParsedSource, String>)
    ensures
        match parsed_script(src@, "input"@) {
            Ok((items, sym, dump)) => res matches Ok(p) && p.items@ == items && p.input == sym && p.dump@ == dump,
            Err(m) => res matches Err(t) && t@ == m,
        },
{
    match parse_script(src, "input") {
        Ok((items, input, dump)) => Ok(ParsedSource { items, input, dump }),
        Err(m) => Err(m),
    }
}

/// Parses a source program and lowers it. A parse failure gives the
/// parser's message; otherwise the outcome is the lowering of the parsed
/// items with the symbol of the name `input`, `None` where that symbol must
/// be looked up and the source never interned it.
pub fn parse_source_to_ir(src: &[u8]) -> (res: Option<Result<IR, SourceError>>)
    ensures
        match parsed_script(src@, "input"@) {
            Err(m) => res matches Some(Err(SourceError::Syntax(t))) && t@ == m,
            Ok((items, sym, _)) => match script_lower(sym, items) {
                Some(Ok(v)) => res matches Some(Ok(ir)) && ir.deep() == v,
                Some(Err(e)) => res matches Some(Err(SourceError::Lowering(e2))) && e2 == e,
                None => res is None,
            },
        },
{
    match parse_source(src) {
        Err(m) => Some(Err(SourceError::Syntax(m))),
        Ok(p) => match parse_to_ir_checked(&p.items, p.input)? {
            Ok(ir) => Some(Ok(ir)),
            Err(e) => Some(Err(SourceError::Lowering(e))),
        },
    }
}

} // verus!
