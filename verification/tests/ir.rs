use std::collections::HashMap;

use jsbf::assembly::program::AssemblyOp;
use jsbf::compile::compile;
use jsbf::ir::ast::{
    JsAssignOp, JsBinaryOp, JsDeclaration, JsExpr, JsForInit, JsFunction, JsItem, JsLiteral, JsParam, JsStmt,
    JsUnaryOp, JsUpdateOp, JsVarDecl,
};
use jsbf::ir::ctx::{IRError, ParserContext};
use jsbf::ir::expr::parse_expr;
use jsbf::ir::ir::{IRExpr, IRFunc, IRStmt, IRVarInit};
use jsbf::ir::stmt::parse_stmt;
use jsbf::ir::stmt_item::parse_statement_item;
use jsbf::ir::{parse_to_ir, parse_to_ir_checked};

const INPUT: usize = 3;
const X: usize = 20;
const Y: usize = 21;
const F: usize = 30;

fn num(n: i32) -> JsExpr {
    JsExpr::Literal(JsLiteral::Int(n))
}

fn ident(n: usize) -> JsExpr {
    JsExpr::Identifier(n)
}

fn bin(op: JsBinaryOp, l: JsExpr, r: JsExpr) -> JsExpr {
    JsExpr::Binary { op, lhs: Box::new(l), rhs: Box::new(r) }
}

fn call(f: JsExpr, args: Vec<JsExpr>) -> JsExpr {
    JsExpr::Call { function: Box::new(f), args }
}

fn assign(op: JsAssignOp, target: usize, rhs: JsExpr) -> JsStmt {
    JsStmt::Expression(JsExpr::Assign { op, target: Some(target), rhs: Box::new(rhs) })
}

fn var_decl(id: usize, init: Option<JsExpr>) -> JsVarDecl {
    JsVarDecl { binding: Some(id), init }
}

fn nested() -> ParserContext {
    ParserContext { input: Some(INPUT), funcs: None, arrays: vec![] }
}

fn c(v: i8) -> IRExpr {
    IRExpr::Const(v)
}

fn v(id: usize) -> IRExpr {
    IRExpr::Id { id, last_use: false }
}

fn bx(e: IRExpr) -> Box<IRExpr> {
    Box::new(e)
}

fn expr(e: &JsExpr) -> Result<IRExpr, IRError> {
    let mut ctx = nested();
    parse_expr(&mut ctx, e)
}

fn stmt(s: &JsStmt) -> Result<IRStmt, IRError> {
    let mut ctx = nested();
    parse_stmt(&mut ctx, s)
}

#[test]
fn parse_expr_booleans() {
    assert_eq!(expr(&JsExpr::Literal(JsLiteral::Bool(true))), Ok(c(1)));
    assert_eq!(expr(&JsExpr::Literal(JsLiteral::Bool(false))), Ok(c(2)));
}

#[test]
fn parse_expr_integers_must_fit_a_cell() {
    assert_eq!(expr(&num(127)), Ok(c(127)));
    assert_eq!(expr(&num(-128)), Ok(c(-128)));
    assert_eq!(expr(&num(200)), Err(IRError::IntOutOfRange));
    assert_eq!(expr(&JsExpr::Literal(JsLiteral::Other)), Err(IRError::Unsupported));
}

#[test]
fn parse_expr_arithmetic() {
    assert_eq!(expr(&bin(JsBinaryOp::Add, num(1), num(2))), Ok(IRExpr::Add(bx(c(1)), bx(c(2)))));
    assert_eq!(expr(&bin(JsBinaryOp::Sub, ident(X), num(2))), Ok(IRExpr::Sub(bx(v(X)), bx(c(2)))));
    assert_eq!(expr(&bin(JsBinaryOp::Mul, num(1), num(2))), Ok(IRExpr::Mul(bx(c(1)), bx(c(2)))));
    assert_eq!(expr(&bin(JsBinaryOp::Div, num(1), num(2))), Ok(IRExpr::Div(bx(c(1)), bx(c(2)))));
}

#[test]
fn parse_expr_comparisons() {
    let (l, r) = (ident(X), ident(Y));
    let sub = || IRExpr::Sub(bx(v(X)), bx(v(Y)));
    assert_eq!(expr(&bin(JsBinaryOp::Equal, ident(X), ident(Y))), Ok(IRExpr::BoolNot(bx(sub()))));
    assert_eq!(expr(&bin(JsBinaryOp::StrictEqual, ident(X), ident(Y))), Ok(IRExpr::BoolNot(bx(sub()))));
    assert_eq!(expr(&bin(JsBinaryOp::NotEqual, ident(X), ident(Y))), Ok(sub()));
    assert_eq!(expr(&bin(JsBinaryOp::StrictNotEqual, l, r)), Ok(sub()));
    assert_eq!(expr(&bin(JsBinaryOp::GreaterThan, ident(X), ident(Y))), Ok(IRExpr::Gt(bx(v(X)), bx(v(Y)))));
    assert_eq!(expr(&bin(JsBinaryOp::LessThan, ident(X), ident(Y))), Ok(IRExpr::Gt(bx(v(Y)), bx(v(X)))));
    assert_eq!(
        expr(&bin(JsBinaryOp::GreaterThanOrEqual, ident(X), ident(Y))),
        Ok(IRExpr::BoolNot(bx(IRExpr::Gt(bx(v(Y)), bx(v(X))))))
    );
    assert_eq!(
        expr(&bin(JsBinaryOp::LessThanOrEqual, ident(X), ident(Y))),
        Ok(IRExpr::BoolNot(bx(IRExpr::Gt(bx(v(X)), bx(v(Y))))))
    );
}

#[test]
fn parse_expr_operands_fail_before_the_operator() {
    assert_eq!(expr(&bin(JsBinaryOp::Other, num(1), num(2))), Err(IRError::Unsupported));
    assert_eq!(expr(&bin(JsBinaryOp::Other, num(1), num(300))), Err(IRError::IntOutOfRange));
    assert_eq!(expr(&bin(JsBinaryOp::Add, num(300), JsExpr::Other)), Err(IRError::IntOutOfRange));
    assert_eq!(expr(&bin(JsBinaryOp::Add, num(3), JsExpr::Other)), Err(IRError::Unimplemented));
}

#[test]
fn parse_expr_unary() {
    let un = |op, e| JsExpr::Unary { op, operand: Box::new(e) };
    assert_eq!(expr(&un(JsUnaryOp::Plus, ident(X))), Ok(v(X)));
    assert_eq!(expr(&un(JsUnaryOp::Minus, num(7))), Ok(IRExpr::Sub(bx(c(0)), bx(c(7)))));
    assert_eq!(expr(&un(JsUnaryOp::Not, ident(X))), Ok(IRExpr::BoolNot(bx(v(X)))));
    assert_eq!(expr(&un(JsUnaryOp::Other, ident(X))), Err(IRError::Unsupported));
    assert_eq!(expr(&un(JsUnaryOp::Other, num(999))), Err(IRError::IntOutOfRange));
}

#[test]
fn parse_expr_calls() {
    assert_eq!(expr(&call(ident(INPUT), vec![])), Ok(IRExpr::Input));
    assert_eq!(expr(&call(ident(INPUT), vec![num(1)])), Err(IRError::InputArguments));
    assert_eq!(
        expr(&call(ident(F), vec![num(1), ident(X)])),
        Ok(IRExpr::Call { id: F, args: vec![c(1), v(X)] })
    );
    assert_eq!(expr(&call(ident(F), vec![num(1), num(500), JsExpr::Other])), Err(IRError::IntOutOfRange));
    assert_eq!(expr(&call(num(1), vec![])), Err(IRError::Unsupported));
}

#[test]
fn parse_expr_other_forms_are_unimplemented() {
    assert_eq!(expr(&JsExpr::ArrayLiteral), Err(IRError::Unimplemented));
    assert_eq!(expr(&JsExpr::Update { op: JsUpdateOp::IncrementPost, target: Some(X) }), Err(IRError::Unimplemented));
    assert_eq!(expr(&JsExpr::Other), Err(IRError::Unimplemented));
}

#[test]
fn parse_expr_leaves_the_context_alone() {
    let mut ctx = ParserContext::new(Some(INPUT));
    let _ = parse_expr(&mut ctx, &bin(JsBinaryOp::Add, num(1), call(ident(INPUT), vec![])));
    assert_eq!(ctx.input, Some(INPUT));
    assert!(ctx.arrays.is_empty());
    assert_eq!(ctx.funcs, Some(HashMap::new()));
}

#[test]
fn parse_stmt_var_declaration() {
    let s = JsStmt::Var(vec![var_decl(X, Some(num(4))), var_decl(Y, None)]);
    assert_eq!(
        stmt(&s),
        Ok(IRStmt::VariableDefine {
            vars: vec![IRVarInit { id: X, init: Some(c(4)) }, IRVarInit { id: Y, init: None }],
        })
    );
    let bad = JsStmt::Var(vec![var_decl(X, None), JsVarDecl { binding: None, init: None }]);
    assert_eq!(stmt(&bad), Err(IRError::UnsupportedVariableDeclaration));
    let arr = JsStmt::Var(vec![var_decl(X, Some(JsExpr::ArrayLiteral))]);
    assert_eq!(stmt(&arr), Err(IRError::Unimplemented));
}

#[test]
fn parse_stmt_assignments() {
    assert_eq!(stmt(&assign(JsAssignOp::Assign, X, num(1))), Ok(IRStmt::Assign { id: X, value: c(1) }));
    assert_eq!(
        stmt(&assign(JsAssignOp::Add, X, num(1))),
        Ok(IRStmt::Assign { id: X, value: IRExpr::Add(bx(v(X)), bx(c(1))) })
    );
    assert_eq!(
        stmt(&assign(JsAssignOp::Sub, X, num(1))),
        Ok(IRStmt::Assign { id: X, value: IRExpr::Sub(bx(v(X)), bx(c(1))) })
    );
    assert_eq!(
        stmt(&assign(JsAssignOp::Mul, X, num(1))),
        Ok(IRStmt::Assign { id: X, value: IRExpr::Mul(bx(v(X)), bx(c(1))) })
    );
    assert_eq!(
        stmt(&assign(JsAssignOp::Div, X, num(1))),
        Ok(IRStmt::Assign { id: X, value: IRExpr::Div(bx(v(X)), bx(c(1))) })
    );
    assert_eq!(stmt(&assign(JsAssignOp::Other, X, num(1))), Err(IRError::UnsupportedAssignment));
    assert_eq!(stmt(&assign(JsAssignOp::Other, X, num(1000))), Err(IRError::IntOutOfRange));
    let to_member = JsStmt::Expression(JsExpr::Assign { op: JsAssignOp::Assign, target: None, rhs: Box::new(num(1000)) });
    assert_eq!(stmt(&to_member), Err(IRError::UnsupportedAssignmentTarget));
}

#[test]
fn parse_stmt_calls() {
    assert_eq!(
        stmt(&JsStmt::Expression(call(ident(F), vec![ident(X)]))),
        Ok(IRStmt::Call { id: F, args: vec![v(X)] })
    );
    assert_eq!(
        stmt(&JsStmt::Expression(call(ident(INPUT), vec![num(1)]))),
        Ok(IRStmt::Call { id: INPUT, args: vec![c(1)] })
    );
    assert_eq!(stmt(&JsStmt::Expression(call(num(1), vec![]))), Err(IRError::UnsupportedCallee));
}

#[test]
fn parse_stmt_updates() {
    for op in [JsUpdateOp::IncrementPost, JsUpdateOp::IncrementPre] {
        assert_eq!(
            stmt(&JsStmt::Expression(JsExpr::Update { op, target: Some(X) })),
            Ok(IRStmt::Assign { id: X, value: IRExpr::Add(bx(v(X)), bx(c(1))) })
        );
    }
    for op in [JsUpdateOp::DecrementPost, JsUpdateOp::DecrementPre] {
        assert_eq!(
            stmt(&JsStmt::Expression(JsExpr::Update { op, target: Some(X) })),
            Ok(IRStmt::Assign { id: X, value: IRExpr::Sub(bx(v(X)), bx(c(1))) })
        );
    }
    assert_eq!(
        stmt(&JsStmt::Expression(JsExpr::Update { op: JsUpdateOp::IncrementPre, target: None })),
        Err(IRError::UnsupportedUpdateTarget)
    );
    assert_eq!(stmt(&JsStmt::Expression(num(1))), Err(IRError::UnsupportedStatement));
}

#[test]
fn parse_stmt_loops_and_conditionals() {
    let body = JsStmt::Block(vec![JsItem::Statement(assign(JsAssignOp::Sub, X, num(1)))]);
    let w = JsStmt::WhileLoop { cond: ident(X), body: Box::new(body) };
    assert_eq!(
        stmt(&w),
        Ok(IRStmt::While {
            condition: v(X),
            body: vec![IRStmt::Assign { id: X, value: IRExpr::Sub(bx(v(X)), bx(c(1))) }],
        })
    );
    let i = JsStmt::If {
        cond: ident(X),
        body: Box::new(assign(JsAssignOp::Assign, Y, num(1))),
        else_node: Some(Box::new(JsStmt::Empty)),
    };
    assert_eq!(
        stmt(&i),
        Ok(IRStmt::If {
            condition: v(X),
            body: vec![IRStmt::Assign { id: Y, value: c(1) }],
            else_body: Some(vec![IRStmt::Noop]),
        })
    );
    let no_else = JsStmt::If { cond: num(1), body: Box::new(JsStmt::Block(vec![])), else_node: None };
    assert_eq!(stmt(&no_else), Ok(IRStmt::If { condition: c(1), body: vec![], else_body: None }));
    let bad_cond = JsStmt::WhileLoop { cond: num(128), body: Box::new(JsStmt::Other) };
    assert_eq!(stmt(&bad_cond), Err(IRError::IntOutOfRange));
}

#[test]
fn parse_stmt_for_loop_becomes_a_while_loop() {
    let f = JsStmt::ForLoop {
        init: Some(JsForInit::Var(vec![var_decl(X, Some(num(0)))])),
        condition: Some(bin(JsBinaryOp::LessThan, ident(X), num(3))),
        final_expr: Some(JsExpr::Update { op: JsUpdateOp::IncrementPost, target: Some(X) }),
        body: Box::new(JsStmt::Block(vec![JsItem::Statement(JsStmt::Expression(call(ident(F), vec![ident(X)])))])),
    };
    assert_eq!(
        stmt(&f),
        Ok(IRStmt::Block {
            body: vec![
                IRStmt::VariableDefine { vars: vec![IRVarInit { id: X, init: Some(c(0)) }] },
                IRStmt::While {
                    condition: IRExpr::Gt(bx(c(3)), bx(v(X))),
                    body: vec![
                        IRStmt::Call { id: F, args: vec![v(X)] },
                        IRStmt::Assign { id: X, value: IRExpr::Add(bx(v(X)), bx(c(1))) },
                    ],
                },
            ],
        })
    );
}

#[test]
fn parse_stmt_bare_for_loop_runs_forever() {
    let f = JsStmt::ForLoop { init: None, condition: None, final_expr: None, body: Box::new(JsStmt::Empty) };
    assert_eq!(
        stmt(&f),
        Ok(IRStmt::Block { body: vec![IRStmt::While { condition: c(1), body: vec![IRStmt::Noop] }] })
    );
    let lexical_init = JsStmt::ForLoop {
        init: Some(JsForInit::Lexical(vec![var_decl(Y, None)])),
        condition: None,
        final_expr: None,
        body: Box::new(JsStmt::Empty),
    };
    assert_eq!(
        stmt(&lexical_init),
        Ok(IRStmt::Block {
            body: vec![
                IRStmt::VariableDefine { vars: vec![IRVarInit { id: Y, init: None }] },
                IRStmt::While { condition: c(1), body: vec![IRStmt::Noop] },
            ],
        })
    );
}

#[test]
fn parse_stmt_for_loop_order_of_failures() {
    // the body is lowered before the update, and the update before the condition
    let f = JsStmt::ForLoop {
        init: Some(JsForInit::Expression(JsExpr::Assign { op: JsAssignOp::Assign, target: Some(X), rhs: Box::new(num(0)) })),
        condition: Some(num(400)),
        final_expr: Some(num(1)),
        body: Box::new(JsStmt::Empty),
    };
    assert_eq!(stmt(&f), Err(IRError::UnsupportedStatement));
    let g = JsStmt::ForLoop {
        init: None,
        condition: Some(num(400)),
        final_expr: Some(JsExpr::Update { op: JsUpdateOp::DecrementPre, target: Some(X) }),
        body: Box::new(JsStmt::Other),
    };
    assert_eq!(stmt(&g), Err(IRError::UnsupportedStatement));
    let h = JsStmt::ForLoop {
        init: None,
        condition: Some(num(400)),
        final_expr: None,
        body: Box::new(JsStmt::Empty),
    };
    assert_eq!(stmt(&h), Err(IRError::IntOutOfRange));
}

#[test]
fn parse_stmt_other_statements() {
    assert_eq!(stmt(&JsStmt::Empty), Ok(IRStmt::Noop));
    assert_eq!(stmt(&JsStmt::Return(Some(num(1)))), Err(IRError::UnsupportedStatement));
    assert_eq!(stmt(&JsStmt::Return(None)), Err(IRError::UnsupportedStatement));
    assert_eq!(stmt(&JsStmt::Other), Err(IRError::UnsupportedStatement));
}

#[test]
fn parse_stmt_block_records_arrays_and_refuses_functions() {
    let mut ctx = ParserContext::new(Some(INPUT));
    let block = JsStmt::Block(vec![JsItem::Declaration(JsDeclaration::Lexical(vec![
        var_decl(X, Some(JsExpr::ArrayLiteral)),
        var_decl(Y, Some(num(2))),
    ]))]);
    assert_eq!(
        parse_stmt(&mut ctx, &block),
        Ok(IRStmt::Block { body: vec![IRStmt::VariableDefine { vars: vec![IRVarInit { id: Y, init: Some(c(2)) }] }] })
    );
    assert_eq!(ctx.arrays, vec![X]);
    assert_eq!(ctx.funcs, Some(HashMap::new()));

    let f = JsFunction { name: F, params: vec![], body: vec![] };
    let inner = JsStmt::Block(vec![JsItem::Declaration(JsDeclaration::Function(f))]);
    assert_eq!(parse_stmt(&mut ctx, &inner), Err(IRError::UnsupportedFunctionDeclaration));
    assert_eq!(ctx.funcs, Some(HashMap::new()));
}

fn param(binding: Option<usize>) -> JsParam {
    JsParam { is_rest: false, has_init: false, binding }
}

#[test]
fn parse_statement_item_function_declaration() {
    let mut ctx = ParserContext::new(Some(INPUT));
    let f = JsFunction {
        name: F,
        params: vec![param(Some(X)), param(Some(Y))],
        body: vec![
            JsItem::Statement(assign(JsAssignOp::Add, X, ident(Y))),
            JsItem::Statement(JsStmt::Return(Some(ident(X)))),
        ],
    };
    let r = parse_statement_item(&mut ctx, &JsItem::Declaration(JsDeclaration::Function(f)));
    assert_eq!(r, Ok(IRStmt::Noop));
    let mut expected = HashMap::new();
    expected.insert(
        F,
        IRFunc {
            args: vec![X, Y],
            code: vec![IRStmt::Assign { id: X, value: IRExpr::Add(bx(v(X)), bx(v(Y))) }],
            result: Some(v(X)),
        },
    );
    assert_eq!(ctx.funcs, Some(expected));
}

#[test]
fn parse_statement_item_function_without_result() {
    let mut ctx = ParserContext::new(Some(INPUT));
    let f = JsFunction { name: F, params: vec![], body: vec![JsItem::Statement(JsStmt::Empty)] };
    assert_eq!(parse_statement_item(&mut ctx, &JsItem::Declaration(JsDeclaration::Function(f))), Ok(IRStmt::Noop));
    let mut expected = HashMap::new();
    expected.insert(F, IRFunc { args: vec![], code: vec![IRStmt::Noop], result: None });
    assert_eq!(ctx.funcs, Some(expected));

    let g = JsFunction { name: F, params: vec![], body: vec![JsItem::Statement(JsStmt::Return(None))] };
    assert_eq!(
        parse_statement_item(&mut ctx, &JsItem::Declaration(JsDeclaration::Function(g))),
        Err(IRError::UnsupportedStatement)
    );
}

#[test]
fn parse_statement_item_parameter_errors() {
    let decl = |params: Vec<JsParam>, body: Vec<JsItem>| {
        JsItem::Declaration(JsDeclaration::Function(JsFunction { name: F, params, body }))
    };
    let mut ctx = ParserContext::new(Some(INPUT));
    let rest = JsParam { is_rest: true, has_init: true, binding: None };
    assert_eq!(parse_statement_item(&mut ctx, &decl(vec![rest], vec![])), Err(IRError::SpreadArgument));
    let init = JsParam { is_rest: false, has_init: true, binding: None };
    assert_eq!(parse_statement_item(&mut ctx, &decl(vec![param(Some(X)), init], vec![])), Err(IRError::ArgumentInit));
    assert_eq!(parse_statement_item(&mut ctx, &decl(vec![param(None)], vec![])), Err(IRError::UnsupportedArgument));
    // the returned value is lowered before the parameters
    let ret = vec![JsItem::Statement(JsStmt::Return(Some(num(1000))))];
    assert_eq!(parse_statement_item(&mut ctx, &decl(vec![param(None)], ret)), Err(IRError::IntOutOfRange));
    assert_eq!(ctx.funcs, Some(HashMap::new()));
}

#[test]
fn parse_statement_item_declarations() {
    let mut ctx = nested();
    let f = JsItem::Declaration(JsDeclaration::Function(JsFunction { name: F, params: vec![], body: vec![] }));
    assert_eq!(parse_statement_item(&mut ctx, &f), Err(IRError::UnsupportedFunctionDeclaration));
    assert_eq!(
        parse_statement_item(&mut ctx, &JsItem::Declaration(JsDeclaration::Other)),
        Err(IRError::UnsupportedDeclaration)
    );
    let lex = JsItem::Declaration(JsDeclaration::Lexical(vec![
        var_decl(X, None),
        var_decl(Y, Some(JsExpr::ArrayLiteral)),
        JsVarDecl { binding: None, init: None },
    ]));
    assert_eq!(parse_statement_item(&mut ctx, &lex), Err(IRError::UnsupportedVariableDeclaration));
    assert_eq!(ctx.arrays, vec![Y]);
    assert_eq!(
        parse_statement_item(&mut ctx, &JsItem::Statement(JsStmt::Empty)),
        Ok(IRStmt::Noop)
    );
}

fn sample_script() -> Vec<JsItem> {
    vec![
        JsItem::Declaration(JsDeclaration::Function(JsFunction {
            name: F,
            params: vec![param(Some(X))],
            body: vec![JsItem::Statement(JsStmt::Return(Some(ident(X))))],
        })),
        JsItem::Statement(JsStmt::Block(vec![
            JsItem::Declaration(JsDeclaration::Lexical(vec![
                var_decl(Y, Some(num(1))),
                var_decl(40, Some(JsExpr::ArrayLiteral)),
            ])),
            JsItem::Statement(JsStmt::Expression(call(ident(F), vec![ident(Y)]))),
        ])),
    ]
}

#[test]
fn parse_to_ir_whole_program() {
    let ir = parse_to_ir(&sample_script(), Some(INPUT)).unwrap();
    assert_eq!(
        ir.main,
        vec![
            IRStmt::Block {
                body: vec![
                    IRStmt::VariableDefine { vars: vec![IRVarInit { id: Y, init: Some(c(1)) }] },
                    IRStmt::Call { id: F, args: vec![v(Y)] },
                ],
            },
        ]
    );
    let mut expected = HashMap::new();
    expected.insert(F, IRFunc { args: vec![X], code: vec![], result: Some(v(X)) });
    assert_eq!(ir.funcs, expected);
    assert_eq!(ir.arrays, vec![40]);
}

#[test]
fn parse_to_ir_top_level_declarations() {
    let lexical = vec![JsItem::Declaration(JsDeclaration::Lexical(vec![var_decl(X, Some(num(1)))]))];
    assert_eq!(parse_to_ir(&lexical, Some(INPUT)), Err(IRError::UnsupportedTopDeclaration));
    let other = vec![JsItem::Declaration(JsDeclaration::Other)];
    assert_eq!(parse_to_ir(&other, Some(INPUT)), Err(IRError::UnsupportedTopDeclaration));
    let in_function = vec![JsItem::Declaration(JsDeclaration::Function(JsFunction {
        name: F,
        params: vec![],
        body: vec![
            JsItem::Statement(JsStmt::Empty),
            JsItem::Declaration(JsDeclaration::Lexical(vec![var_decl(X, None)])),
        ],
    }))];
    assert_eq!(parse_to_ir(&in_function, Some(INPUT)), Err(IRError::DeclarationInFunction));
    let bad_param = vec![JsItem::Declaration(JsDeclaration::Function(JsFunction {
        name: F,
        params: vec![JsParam { is_rest: true, has_init: false, binding: Some(X) }],
        body: vec![],
    }))];
    assert_eq!(parse_to_ir(&bad_param, Some(INPUT)), Err(IRError::SpreadArgument));
}

#[test]
fn parse_to_ir_later_function_replaces_earlier() {
    let decl = |ret: i32| {
        JsItem::Declaration(JsDeclaration::Function(JsFunction {
            name: F,
            params: vec![],
            body: vec![JsItem::Statement(JsStmt::Empty), JsItem::Statement(JsStmt::Return(Some(num(ret))))],
        }))
    };
    let ir = parse_to_ir(&vec![decl(1), decl(2)], Some(INPUT)).unwrap();
    assert!(ir.main.is_empty());
    let mut expected = HashMap::new();
    expected.insert(F, IRFunc { args: vec![], code: vec![IRStmt::Noop], result: Some(c(2)) });
    assert_eq!(ir.funcs, expected);
}

#[test]
fn parse_to_ir_checked_without_input_symbol() {
    // calls as statements need no lookup of `input`
    let ok = parse_to_ir_checked(&sample_script(), None);
    assert_eq!(ok, Some(parse_to_ir(&sample_script(), Some(INPUT))));
    // a call inside an expression does
    let needs = vec![JsItem::Statement(JsStmt::Var(vec![var_decl(X, Some(call(ident(F), vec![])))]))];
    assert!(parse_to_ir_checked(&needs, None).is_none());
    // unless an earlier failure stops the lowering first
    let earlier = vec![
        JsItem::Statement(JsStmt::Other),
        JsItem::Statement(JsStmt::Var(vec![var_decl(X, Some(call(ident(F), vec![])))])),
    ];
    assert_eq!(parse_to_ir_checked(&earlier, None), Some(Err(IRError::UnsupportedStatement)));
}

#[test]
fn parsed_program_compiles_and_assembles() {
    let script = vec![JsItem::Statement(JsStmt::Block(vec![
        JsItem::Statement(JsStmt::Var(vec![var_decl(X, Some(num(5)))])),
        JsItem::Statement(assign(JsAssignOp::Add, X, num(2))),
    ]))];
    let ir = parse_to_ir(&script, Some(INPUT)).unwrap();
    let prog = compile(&ir).unwrap();
    assert_eq!(prog.static_memory_size, 3);
    assert_eq!(
        prog.code,
        vec![
            AssemblyOp::SetCell(0, 5),
            AssemblyOp::Move(0, vec![(2, 1)]),
            AssemblyOp::Move(2, vec![(0, 1), (1, 1)]),
            AssemblyOp::SetCell(2, 2),
            AssemblyOp::Move(2, vec![(1, 1)]),
            AssemblyOp::Move(1, vec![(0, 1)]),
        ]
    );
    assert_eq!(prog.assemble(), "[-]+++++[->>+<<]>>[-<<+>+>][-]++[-<+>]<[-<+>]");
}

#[test]
fn ir_error_messages() {
    let all = [
        (IRError::Unsupported, "unsupport"),
        (IRError::IntOutOfRange, "out of range integral type conversion attempted"),
        (IRError::InputArguments, "Input function argument size mismatch"),
        (IRError::Unimplemented, "unimp"),
        (IRError::UnsupportedVariableDeclaration, "Unsupported variable declaration detected"),
        (IRError::UnsupportedAssignment, "Unsupported assignment detected"),
        (IRError::UnsupportedAssignmentTarget, "Unsupported assignment target detected"),
        (IRError::UnsupportedCallee, "Unsupported callee detected"),
        (IRError::UnsupportedUpdateTarget, "Unsupported update target detected"),
        (IRError::UnsupportedStatement, "unimp | unsupport"),
        (IRError::SpreadArgument, "Unsupported spread argument detected"),
        (IRError::ArgumentInit, "Unimplemented argument init detected"),
        (IRError::UnsupportedArgument, "Unsupported argument detected"),
        (IRError::UnsupportedFunctionDeclaration, "Unsupported function declaration detected"),
        (IRError::UnsupportedDeclaration, "Unsupported statement detected"),
        (IRError::UnsupportedTopDeclaration, "Unsupported declaration detected"),
        (IRError::DeclarationInFunction, "Unsupported declaration detected in function"),
    ];
    for (e, m) in all {
        assert_eq!(e.message(), m);
    }
}
